//! E-mail: messages, the provider that sends them, and file types.

use vstd::prelude::*;

use crate::data::Data;
use crate::request::str_eq;
use vstd::string::StringSliceAdditionalSpecFns;
use vstd::utf8::encode_utf8;

verus! {

/// A file added to a message.
#[derive(Debug)]
pub struct MailBodyFile {
    /// Name of file.
    pub name: String,
    /// Mime type of file.
    pub mime: Option<String>,
    /// Data.
    pub data: Vec<u8>,
}

/// An HTML page added to a message.
#[derive(Debug)]
pub struct MailBodyHtml {
    /// Text part.
    pub text: Option<String>,
    /// Html part.
    pub html: String,
    /// List of inline files.
    pub file: Vec<MailBodyFile>,
}

/// Types of e-mail message parts.
#[derive(Debug)]
pub enum MailBody {
    /// Text part.
    Text(String),
    /// Html part.
    Html(MailBodyHtml),
    /// File part.
    File(MailBodyFile),
}

/// An e-mail message.
#[derive(Debug)]
pub struct MailMessage {
    /// To.
    pub to: Vec<String>,
    /// CC.
    pub cc: Option<Vec<String>>,
    /// BCC.
    pub bcc: Option<Vec<String>>,
    /// From.
    pub from: String,
    /// Reply-to.
    pub reply_to: Option<String>,
    /// Subject.
    pub subject: String,
    /// Parts.
    pub body: Vec<MailBody>,
}

/// The MIME type of a file extension.
#[verifier::opaque]
pub open spec fn mime_of(ext: Seq<char>) -> &'static str {
    if ext == "7z"@ {
        "application/x-7z-compressed"
    } else if ext == "aac"@ {
        "audio/aac"
    } else if ext == "abw"@ {
        "application/x-abiword"
    } else if ext == "arc"@ {
        "application/x-freearc"
    } else if ext == "avi"@ {
        "video/x-msvideo"
    } else if ext == "avif"@ {
        "image/avif"
    } else if ext == "azw"@ {
        "application/vnd.amazon.ebook"
    } else if ext == "bin"@ {
        "application/octet-stream"
    } else if ext == "bmp"@ {
        "image/bmp"
    } else if ext == "bz"@ {
        "application/x-bzip"
    } else if ext == "bz2"@ {
        "application/x-bzip2"
    } else if ext == "cda"@ {
        "application/x-cdf"
    } else if ext == "csh"@ {
        "application/x-csh"
    } else if ext == "css"@ {
        "text/css"
    } else if ext == "csv"@ {
        "text/csv"
    } else if ext == "doc"@ {
        "application/msword"
    } else if ext == "docx"@ {
        "application/vnd.openxmlformats-officedocument.wordprocessingml.document"
    } else if ext == "eot"@ {
        "application/vnd.ms-fontobject"
    } else if ext == "epub"@ {
        "application/epub+zip"
    } else if ext == "gif"@ {
        "image/gif"
    } else if ext == "gz"@ {
        "application/gzip"
    } else if ext == "htm"@ {
        "text/html"
    } else if ext == "html"@ {
        "text/html"
    } else if ext == "ico"@ {
        "image/vnd.microsoft.icon"
    } else if ext == "ics"@ {
        "text/calendar"
    } else if ext == "jar"@ {
        "application/java-archive"
    } else if ext == "jpeg"@ {
        "image/jpeg"
    } else if ext == "jpg"@ {
        "image/jpeg"
    } else if ext == "js"@ {
        "text/javascript"
    } else if ext == "json"@ {
        "application/json"
    } else if ext == "jsonld"@ {
        "application/ld+json"
    } else if ext == "mjs"@ {
        "text/javascript"
    } else if ext == "mp3"@ {
        "audio/mpeg"
    } else if ext == "mp4"@ {
        "video/mp4"
    } else if ext == "mpeg"@ {
        "video/mpeg"
    } else if ext == "mpkg"@ {
        "application/vnd.apple.installer+xml"
    } else if ext == "odp"@ {
        "application/vnd.oasis.opendocument.presentation"
    } else if ext == "ods"@ {
        "application/vnd.oasis.opendocument.spreadsheet"
    } else if ext == "odt"@ {
        "application/vnd.oasis.opendocument.text"
    } else if ext == "oga"@ {
        "audio/ogg"
    } else if ext == "ogv"@ {
        "video/ogg"
    } else if ext == "ogx"@ {
        "application/ogg"
    } else if ext == "opus"@ {
        "audio/opus"
    } else if ext == "otf"@ {
        "font/otf"
    } else if ext == "pdf"@ {
        "application/pdf"
    } else if ext == "php"@ {
        "application/x-httpd-php"
    } else if ext == "png"@ {
        "image/png"
    } else if ext == "ppt"@ {
        "application/vnd.ms-powerpoint"
    } else if ext == "pptx"@ {
        "application/vnd.openxmlformats-officedocument.presentationml.presentation"
    } else if ext == "rar"@ {
        "application/vnd.rar"
    } else if ext == "rs"@ {
        "text/plain"
    } else if ext == "rtf"@ {
        "application/rtf"
    } else if ext == "sh"@ {
        "application/x-sh"
    } else if ext == "svg"@ {
        "image/svg+xml"
    } else if ext == "tar"@ {
        "application/x-tar"
    } else if ext == "tif"@ {
        "image/tiff"
    } else if ext == "tiff"@ {
        "image/tiff"
    } else if ext == "ts"@ {
        "video/mp2t"
    } else if ext == "ttf"@ {
        "font/ttf"
    } else if ext == "txt"@ {
        "text/plain"
    } else if ext == "vsd"@ {
        "application/vnd.visio"
    } else if ext == "wav"@ {
        "audio/wav"
    } else if ext == "weba"@ {
        "audio/webm"
    } else if ext == "webm"@ {
        "video/webm"
    } else if ext == "webp"@ {
        "image/webp"
    } else if ext == "woff"@ {
        "font/woff"
    } else if ext == "woff2"@ {
        "font/woff2"
    } else if ext == "xhtml"@ {
        "application/xhtml+xml"
    } else if ext == "xls"@ {
        "application/vnd.ms-excel"
    } else if ext == "xlsx"@ {
        "application/vnd.openxmlformats-officedocument.spreadsheetml.sheet"
    } else if ext == "xml"@ {
        "application/xml"
    } else if ext == "xul"@ {
        "application/vnd.mozilla.xul+xml"
    } else if ext == "zip"@ {
        "application/zip"
    } else {
        "application/octet-stream"
    }
}

/// Sends e-mail.
pub struct Mail;

impl Mail {
    /// The MIME type of a file extension; `application/octet-stream` for an
    /// unknown one.
    #[verifier::rlimit(50)]
    pub fn get_mime(ext: &str) -> (res: &'static str)
        ensures
            res == mime_of(ext@),
    {
        proof {
            reveal(mime_of);
        }
        if str_eq(ext, "7z") {
            "application/x-7z-compressed"
        } else if str_eq(ext, "aac") {
            "audio/aac"
        } else if str_eq(ext, "abw") {
            "application/x-abiword"
        } else if str_eq(ext, "arc") {
            "application/x-freearc"
        } else if str_eq(ext, "avi") {
            "video/x-msvideo"
        } else if str_eq(ext, "avif") {
            "image/avif"
        } else if str_eq(ext, "azw") {
            "application/vnd.amazon.ebook"
        } else if str_eq(ext, "bin") {
            "application/octet-stream"
        } else if str_eq(ext, "bmp") {
            "image/bmp"
        } else if str_eq(ext, "bz") {
            "application/x-bzip"
        } else if str_eq(ext, "bz2") {
            "application/x-bzip2"
        } else if str_eq(ext, "cda") {
            "application/x-cdf"
        } else if str_eq(ext, "csh") {
            "application/x-csh"
        } else if str_eq(ext, "css") {
            "text/css"
        } else if str_eq(ext, "csv") {
            "text/csv"
        } else if str_eq(ext, "doc") {
            "application/msword"
        } else if str_eq(ext, "docx") {
            "application/vnd.openxmlformats-officedocument.wordprocessingml.document"
        } else if str_eq(ext, "eot") {
            "application/vnd.ms-fontobject"
        } else if str_eq(ext, "epub") {
            "application/epub+zip"
        } else if str_eq(ext, "gif") {
            "image/gif"
        } else if str_eq(ext, "gz") {
            "application/gzip"
        } else if str_eq(ext, "htm") {
            "text/html"
        } else if str_eq(ext, "html") {
            "text/html"
        } else if str_eq(ext, "ico") {
            "image/vnd.microsoft.icon"
        } else if str_eq(ext, "ics") {
            "text/calendar"
        } else if str_eq(ext, "jar") {
            "application/java-archive"
        } else if str_eq(ext, "jpeg") {
            "image/jpeg"
        } else if str_eq(ext, "jpg") {
            "image/jpeg"
        } else if str_eq(ext, "js") {
            "text/javascript"
        } else if str_eq(ext, "json") {
            "application/json"
        } else if str_eq(ext, "jsonld") {
            "application/ld+json"
        } else if str_eq(ext, "mjs") {
            "text/javascript"
        } else if str_eq(ext, "mp3") {
            "audio/mpeg"
        } else if str_eq(ext, "mp4") {
            "video/mp4"
        } else if str_eq(ext, "mpeg") {
            "video/mpeg"
        } else if str_eq(ext, "mpkg") {
            "application/vnd.apple.installer+xml"
        } else if str_eq(ext, "odp") {
            "application/vnd.oasis.opendocument.presentation"
        } else if str_eq(ext, "ods") {
            "application/vnd.oasis.opendocument.spreadsheet"
        } else if str_eq(ext, "odt") {
            "application/vnd.oasis.opendocument.text"
        } else if str_eq(ext, "oga") {
            "audio/ogg"
        } else if str_eq(ext, "ogv") {
            "video/ogg"
        } else if str_eq(ext, "ogx") {
            "application/ogg"
        } else if str_eq(ext, "opus") {
            "audio/opus"
        } else if str_eq(ext, "otf") {
            "font/otf"
        } else if str_eq(ext, "pdf") {
            "application/pdf"
        } else if str_eq(ext, "php") {
            "application/x-httpd-php"
        } else if str_eq(ext, "png") {
            "image/png"
        } else if str_eq(ext, "ppt") {
            "application/vnd.ms-powerpoint"
        } else if str_eq(ext, "pptx") {
            "application/vnd.openxmlformats-officedocument.presentationml.presentation"
        } else if str_eq(ext, "rar") {
            "application/vnd.rar"
        } else if str_eq(ext, "rs") {
            "text/plain"
        } else if str_eq(ext, "rtf") {
            "application/rtf"
        } else if str_eq(ext, "sh") {
            "application/x-sh"
        } else if str_eq(ext, "svg") {
            "image/svg+xml"
        } else if str_eq(ext, "tar") {
            "application/x-tar"
        } else if str_eq(ext, "tif") {
            "image/tiff"
        } else if str_eq(ext, "tiff") {
            "image/tiff"
        } else if str_eq(ext, "ts") {
            "video/mp2t"
        } else if str_eq(ext, "ttf") {
            "font/ttf"
        } else if str_eq(ext, "txt") {
            "text/plain"
        } else if str_eq(ext, "vsd") {
            "application/vnd.visio"
        } else if str_eq(ext, "wav") {
            "audio/wav"
        } else if str_eq(ext, "weba") {
            "audio/webm"
        } else if str_eq(ext, "webm") {
            "video/webm"
        } else if str_eq(ext, "webp") {
            "image/webp"
        } else if str_eq(ext, "woff") {
            "font/woff"
        } else if str_eq(ext, "woff2") {
            "font/woff2"
        } else if str_eq(ext, "xhtml") {
            "application/xhtml+xml"
        } else if str_eq(ext, "xls") {
            "application/vnd.ms-excel"
        } else if str_eq(ext, "xlsx") {
            "application/vnd.openxmlformats-officedocument.spreadsheetml.sheet"
        } else if str_eq(ext, "xml") {
            "application/xml"
        } else if str_eq(ext, "xul") {
            "application/vnd.mozilla.xul+xml"
        } else if str_eq(ext, "zip") {
            "application/zip"
        } else {
            "application/octet-stream"
        }
    }
}

} // verus!

verus! {

/// Security of an SMTP connection.
#[derive(Debug)]
pub enum SmtpTls {
    /// Plain connection.
    Plain,
    /// STARTTLS.
    Required,
    /// SSL/TLS from the start.
    Wrapper,
}

/// Authentication at an SMTP server.
#[derive(Debug)]
pub enum SmtpAuth {
    /// No authentication.
    Nothing,
    /// PLAIN.
    PlainText,
    /// LOGIN.
    Login,
    /// XOAUTH2.
    XOAuth2,
}

/// SMTP settings.
#[derive(Debug)]
pub struct SmtpInfo {
    /// Server we are connecting to.
    pub server: String,
    /// Port to connect to.
    pub port: u16,
    /// TLS security configuration.
    pub tls: SmtpTls,
    /// Authentication mechanism.
    pub auth: SmtpAuth,
    /// User and password, when there is an authentication.
    pub credentials: Option<(String, String)>,
}

/// Email provider.
#[derive(Debug)]
pub enum MailProvider {
    /// Don't send emails.
    Nothing,
    /// Use sendmail.
    Sendmail(String),
    /// Use SMTP protocol.
    Smtp(SmtpInfo),
    /// Save to folder.
    File(String),
}

/// What a settings query answered.
pub enum SettingRead {
    /// The query failed.
    Failed,
    /// No row.
    NoRows,
    /// The first row is not a list, is empty, or does not start with a text.
    Bad,
    /// The text.
    Text(String),
}

/// What a settings query answered, as a mathematical value.
pub enum ReadView {
    Failed,
    NoRows,
    Bad,
    Text(Seq<char>),
}

/// How a query answer reads as a setting.
pub open spec fn read_view(answer: Option<Seq<Data>>) -> ReadView {
    match answer {
        None => ReadView::Failed,
        Some(rows) => if rows.len() == 0 {
            ReadView::NoRows
        } else {
            match rows[0] {
                Data::Vec(row) => if row@.len() == 0 {
                    ReadView::Bad
                } else {
                    match row@[0] {
                        Data::String(s) => ReadView::Text(s@),
                        _ => ReadView::Bad,
                    }
                },
                _ => ReadView::Bad,
            }
        },
    }
}

/// Reads a query answer as a setting.
pub fn read_setting(answer: Option<Vec<Data>>) -> (res: SettingRead)
    ensures
        match read_view(
            match answer {
                Some(v) => Some(v@),
                None => None,
            },
        ) {
            ReadView::Failed => res is Failed,
            ReadView::NoRows => res is NoRows,
            ReadView::Bad => res is Bad,
            ReadView::Text(t) => res matches SettingRead::Text(s) && s@ == t,
        },
{
    let rows = match answer {
        Some(rows) => rows,
        None => return SettingRead::Failed,
    };
    if rows.len() == 0 {
        return SettingRead::NoRows;
    }
    match &rows[0] {
        Data::Vec(row) => {
            if row.len() == 0 {
                return SettingRead::Bad;
            }
            match &row[0] {
                Data::String(s) => SettingRead::Text(s.clone()),
                _ => SettingRead::Bad,
            }
        },
        _ => SettingRead::Bad,
    }
}

/// Where reading the mail settings stands: the setting asked for next and
/// what was read before it.
#[derive(Debug)]
pub enum MailSetup {
    /// `mail:provider`.
    Provider,
    /// `mail:sendmail`.
    Sendmail,
    /// `mail:file`.
    File,
    /// `mail:smtp:server`.
    Server,
    /// `mail:smtp:port`.
    Port(String),
    /// `mail:smtp:tls`.
    Tls(String, u16),
    /// `mail:smtp:auth`.
    Auth(String, u16, SmtpTls),
    /// `mail:smtp:user`.
    User(String, u16, SmtpTls, SmtpAuth),
    /// `mail:smtp:pwd`.
    Pwd(String, u16, SmtpTls, SmtpAuth, String),
}

/// The next step of reading the mail settings: the setting to query, or the
/// provider.
#[derive(Debug)]
pub enum MailStep {
    Query(MailSetup),
    Done(MailProvider),
}

/// The name of the setting a state asks for.
pub open spec fn setting_name(s: MailSetup) -> &'static str {
    match s {
        MailSetup::Provider => "mail:provider",
        MailSetup::Sendmail => "mail:sendmail",
        MailSetup::File => "mail:file",
        MailSetup::Server => "mail:smtp:server",
        MailSetup::Port(_) => "mail:smtp:port",
        MailSetup::Tls(..) => "mail:smtp:tls",
        MailSetup::Auth(..) => "mail:smtp:auth",
        MailSetup::User(..) => "mail:smtp:user",
        MailSetup::Pwd(..) => "mail:smtp:pwd",
    }
}

/// A text that is given and not empty.
pub open spec fn given(r: ReadView) -> Option<Seq<char>> {
    match r {
        ReadView::Text(t) => if t.len() > 0 {
            Some(t)
        } else {
            None
        },
        _ => None,
    }
}

/// A text for the user or the password: empty when there is no row.
pub open spec fn optional_text(r: ReadView) -> Option<Seq<char>> {
    match r {
        ReadView::Text(t) => Some(t),
        ReadView::NoRows => Some(Seq::empty()),
        _ => None,
    }
}

/// The TLS mode a setting names.
pub open spec fn tls_named(t: Seq<char>) -> Option<SmtpTls> {
    if t == "None"@ {
        Some(SmtpTls::Plain)
    } else if t == "STARTTLS"@ {
        Some(SmtpTls::Required)
    } else if t == "SSL/TLS"@ {
        Some(SmtpTls::Wrapper)
    } else {
        None
    }
}

/// The authentication a setting names.
pub open spec fn auth_named(t: Seq<char>) -> Option<SmtpAuth> {
    if t == "None"@ {
        Some(SmtpAuth::Nothing)
    } else if t == "PLAIN"@ {
        Some(SmtpAuth::PlainText)
    } else if t == "LOGIN"@ {
        Some(SmtpAuth::Login)
    } else if t == "XOAUTH2"@ {
        Some(SmtpAuth::XOAuth2)
    } else {
        None
    }
}

/// A provider as a mathematical value.
pub enum ProviderView {
    Nothing,
    Sendmail(Seq<char>),
    Smtp(Seq<char>, u16, SmtpTls, SmtpAuth, Option<(Seq<char>, Seq<char>)>),
    File(Seq<char>),
}

pub open spec fn provider_view(p: MailProvider) -> ProviderView {
    match p {
        MailProvider::Nothing => ProviderView::Nothing,
        MailProvider::Sendmail(s) => ProviderView::Sendmail(s@),
        MailProvider::Smtp(i) => ProviderView::Smtp(
            i.server@,
            i.port,
            i.tls,
            i.auth,
            match i.credentials {
                Some((u, p)) => Some((u@, p@)),
                None => None,
            },
        ),
        MailProvider::File(s) => ProviderView::File(s@),
    }
}

/// A state as a mathematical value.
pub enum SetupView {
    Provider,
    Sendmail,
    File,
    Server,
    Port(Seq<char>),
    Tls(Seq<char>, u16),
    Auth(Seq<char>, u16, SmtpTls),
    User(Seq<char>, u16, SmtpTls, SmtpAuth),
    Pwd(Seq<char>, u16, SmtpTls, SmtpAuth, Seq<char>),
}

pub open spec fn setup_view(s: MailSetup) -> SetupView {
    match s {
        MailSetup::Provider => SetupView::Provider,
        MailSetup::Sendmail => SetupView::Sendmail,
        MailSetup::File => SetupView::File,
        MailSetup::Server => SetupView::Server,
        MailSetup::Port(s) => SetupView::Port(s@),
        MailSetup::Tls(s, p) => SetupView::Tls(s@, p),
        MailSetup::Auth(s, p, t) => SetupView::Auth(s@, p, t),
        MailSetup::User(s, p, t, a) => SetupView::User(s@, p, t, a),
        MailSetup::Pwd(s, p, t, a, u) => SetupView::Pwd(s@, p, t, a, u@),
    }
}

/// A step as a mathematical value.
pub enum StepView {
    Query(SetupView),
    Done(ProviderView),
}

pub open spec fn mail_step_view(s: MailStep) -> StepView {
    match s {
        MailStep::Query(q) => StepView::Query(setup_view(q)),
        MailStep::Done(p) => StepView::Done(provider_view(p)),
    }
}

/// What the answer to a setting does. The provider setting names the
/// provider (`Sendmail`, `SMTP`, `File`, `None`); a sendmail or file
/// setting gives the path of that provider; the SMTP
/// settings come one after another: server, port (a decimal number of 16
/// bits), TLS mode, authentication, user and password (no row for these
/// means empty). Any failure or any value that is missing, empty or not
/// known gives no provider.
pub open spec fn mail_next(s: SetupView, r: ReadView) -> StepView {
    match s {
        SetupView::Provider => match r {
            ReadView::Text(p) => if p == "Sendmail"@ {
                StepView::Query(SetupView::Sendmail)
            } else if p == "SMTP"@ {
                StepView::Query(SetupView::Server)
            } else if p == "File"@ {
                StepView::Query(SetupView::File)
            } else {
                StepView::Done(ProviderView::Nothing)
            },
            _ => StepView::Done(ProviderView::Nothing),
        },
        SetupView::Sendmail => match given(r) {
            Some(p) => StepView::Done(ProviderView::Sendmail(p)),
            None => StepView::Done(ProviderView::Nothing),
        },
        SetupView::File => match given(r) {
            Some(p) => StepView::Done(ProviderView::File(p)),
            None => StepView::Done(ProviderView::Nothing),
        },
        SetupView::Server => match given(r) {
            Some(sv) => StepView::Query(SetupView::Port(sv)),
            None => StepView::Done(ProviderView::Nothing),
        },
        SetupView::Port(sv) => match r {
            ReadView::Text(t) => match crate::text::parse_unsigned(encode_utf8(t), 65535) {
                Some(p) => StepView::Query(SetupView::Tls(sv, p as u16)),
                None => StepView::Done(ProviderView::Nothing),
            },
            _ => StepView::Done(ProviderView::Nothing),
        },
        SetupView::Tls(sv, p) => match given(r) {
            Some(t) => match tls_named(t) {
                Some(tls) => StepView::Query(SetupView::Auth(sv, p, tls)),
                None => StepView::Done(ProviderView::Nothing),
            },
            None => StepView::Done(ProviderView::Nothing),
        },
        SetupView::Auth(sv, p, tls) => match given(r) {
            Some(a) => match auth_named(a) {
                Some(auth) => StepView::Query(SetupView::User(sv, p, tls, auth)),
                None => StepView::Done(ProviderView::Nothing),
            },
            None => StepView::Done(ProviderView::Nothing),
        },
        SetupView::User(sv, p, tls, auth) => match optional_text(r) {
            Some(u) => StepView::Query(SetupView::Pwd(sv, p, tls, auth, u)),
            None => StepView::Done(ProviderView::Nothing),
        },
        SetupView::Pwd(sv, p, tls, auth, u) => match optional_text(r) {
            Some(pw) => StepView::Done(
                ProviderView::Smtp(
                    sv,
                    p,
                    tls,
                    auth,
                    if auth is Nothing {
                        None
                    } else {
                        Some((u, pw))
                    },
                ),
            ),
            None => StepView::Done(ProviderView::Nothing),
        },
    }
}

pub open spec fn read_of(r: SettingRead) -> ReadView {
    match r {
        SettingRead::Failed => ReadView::Failed,
        SettingRead::NoRows => ReadView::NoRows,
        SettingRead::Bad => ReadView::Bad,
        SettingRead::Text(s) => ReadView::Text(s@),
    }
}

fn given_exec(r: SettingRead) -> (res: Option<String>)
    ensures
        match given(read_of(r)) {
            Some(t) => res matches Some(s) && s@ == t,
            None => res is None,
        },
{
    match r {
        SettingRead::Text(t) => {
            if t.as_str().unicode_len() > 0 {
                Some(t)
            } else {
                None
            }
        },
        _ => None,
    }
}

fn optional_exec(r: SettingRead) -> (res: Option<String>)
    ensures
        match optional_text(read_of(r)) {
            Some(t) => res matches Some(s) && s@ == t,
            None => res is None,
        },
{
    match r {
        SettingRead::Text(t) => Some(t),
        SettingRead::NoRows => Some(String::new()),
        _ => None,
    }
}

impl Mail {
    /// The name of the setting a state asks for.
    pub fn setting_name(s: &MailSetup) -> (res: &'static str)
        ensures
            res == setting_name(*s),
    {
        match s {
            MailSetup::Provider => "mail:provider",
            MailSetup::Sendmail => "mail:sendmail",
            MailSetup::File => "mail:file",
            MailSetup::Server => "mail:smtp:server",
            MailSetup::Port(_) => "mail:smtp:port",
            MailSetup::Tls(..) => "mail:smtp:tls",
            MailSetup::Auth(..) => "mail:smtp:auth",
            MailSetup::User(..) => "mail:smtp:user",
            MailSetup::Pwd(..) => "mail:smtp:pwd",
        }
    }

    /// Goes on reading the mail settings with the answer to the setting a
    /// state asks for (see `mail_next`).
    #[verifier::rlimit(50)]
    pub fn provider_step(s: MailSetup, r: SettingRead) -> (res: MailStep)
        ensures
            mail_step_view(res) == mail_next(setup_view(s), read_of(r)),
    {
        match s {
            MailSetup::Provider => match r {
                SettingRead::Text(p) => {
                    if str_eq(p.as_str(), "Sendmail") {
                        MailStep::Query(MailSetup::Sendmail)
                    } else if str_eq(p.as_str(), "SMTP") {
                        MailStep::Query(MailSetup::Server)
                    } else if str_eq(p.as_str(), "File") {
                        MailStep::Query(MailSetup::File)
                    } else {
                        MailStep::Done(MailProvider::Nothing)
                    }
                },
                _ => MailStep::Done(MailProvider::Nothing),
            },
            MailSetup::Sendmail => match given_exec(r) {
                Some(p) => MailStep::Done(MailProvider::Sendmail(p)),
                None => MailStep::Done(MailProvider::Nothing),
            },
            MailSetup::File => match given_exec(r) {
                Some(p) => MailStep::Done(MailProvider::File(p)),
                None => MailStep::Done(MailProvider::Nothing),
            },
            MailSetup::Server => match given_exec(r) {
                Some(sv) => MailStep::Query(MailSetup::Port(sv)),
                None => MailStep::Done(MailProvider::Nothing),
            },
            MailSetup::Port(sv) => match r {
                SettingRead::Text(t) => match crate::text::parse_unsigned_bytes(t.as_str().as_bytes(), 65535) {
                    Some(p) => MailStep::Query(MailSetup::Tls(sv, p as u16)),
                    None => MailStep::Done(MailProvider::Nothing),
                },
                _ => MailStep::Done(MailProvider::Nothing),
            },
            MailSetup::Tls(sv, p) => match given_exec(r) {
                Some(t) => {
                    if str_eq(t.as_str(), "None") {
                        MailStep::Query(MailSetup::Auth(sv, p, SmtpTls::Plain))
                    } else if str_eq(t.as_str(), "STARTTLS") {
                        MailStep::Query(MailSetup::Auth(sv, p, SmtpTls::Required))
                    } else if str_eq(t.as_str(), "SSL/TLS") {
                        MailStep::Query(MailSetup::Auth(sv, p, SmtpTls::Wrapper))
                    } else {
                        MailStep::Done(MailProvider::Nothing)
                    }
                },
                None => MailStep::Done(MailProvider::Nothing),
            },
            MailSetup::Auth(sv, p, tls) => match given_exec(r) {
                Some(a) => {
                    if str_eq(a.as_str(), "None") {
                        MailStep::Query(MailSetup::User(sv, p, tls, SmtpAuth::Nothing))
                    } else if str_eq(a.as_str(), "PLAIN") {
                        MailStep::Query(MailSetup::User(sv, p, tls, SmtpAuth::PlainText))
                    } else if str_eq(a.as_str(), "LOGIN") {
                        MailStep::Query(MailSetup::User(sv, p, tls, SmtpAuth::Login))
                    } else if str_eq(a.as_str(), "XOAUTH2") {
                        MailStep::Query(MailSetup::User(sv, p, tls, SmtpAuth::XOAuth2))
                    } else {
                        MailStep::Done(MailProvider::Nothing)
                    }
                },
                None => MailStep::Done(MailProvider::Nothing),
            },
            MailSetup::User(sv, p, tls, auth) => match optional_exec(r) {
                Some(u) => MailStep::Query(MailSetup::Pwd(sv, p, tls, auth, u)),
                None => MailStep::Done(MailProvider::Nothing),
            },
            MailSetup::Pwd(sv, p, tls, auth, u) => match optional_exec(r) {
                Some(pw) => {
                    let credentials = match auth {
                        SmtpAuth::Nothing => None,
                        _ => Some((u, pw)),
                    };
                    MailStep::Done(
                        MailProvider::Smtp(SmtpInfo { server: sv, port: p, tls, auth, credentials }),
                    )
                },
                None => MailStep::Done(MailProvider::Nothing),
            },
        }
    }
}

} // verus!
