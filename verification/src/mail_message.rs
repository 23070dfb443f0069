//! Composing an e-mail message: which addresses and file types are checked,
//! in what order, which check refuses the message, and the MIME layout of
//! the parts that the transport then builds.

use vstd::prelude::*;

use crate::data::Data;
use crate::mail::{mime_of, Mail, MailBody, MailBodyFile, MailBodyHtml, MailMessage};
use crate::mail_build::{content_type_parse, mailbox_parse};
use crate::text::{push_char, push_signed_decimal, signed_decimal};

verus! {

/// Whether lettre parses the text as a mailbox (`Mailbox::from_str`).
pub uninterp spec fn mailbox_accepts(s: Seq<char>) -> bool;

/// Whether lettre parses the text as a content type (`ContentType::parse`).
pub uninterp spec fn content_type_accepts(s: Seq<char>) -> bool;

/// The code of the warning that refuses a message without any recipient.
pub const NO_RECIPIENT: u16 = 3009;

/// The code of the warning that refuses a file whose content type does not parse.
pub const BAD_CONTENT_TYPE: u16 = 3010;

/// A file of a composed message, with its content type settled.
#[derive(Debug)]
pub struct MailFile {
    /// Name of the file.
    pub name: String,
    /// Its content type.
    pub mime: String,
    /// Its data.
    pub data: Vec<u8>,
}

/// A part of the `multipart/mixed` body of a composed message.
#[derive(Debug)]
pub enum MailPart {
    /// A `text/plain` part.
    Plain(String),
    /// A `text/html` part.
    Html(String),
    /// A `multipart/alternative` part: the optional plain text, then the HTML;
    /// when there are inline files the HTML and they form a
    /// `multipart/related` part.
    Alternative(Option<String>, String, Vec<MailFile>),
    /// An attached file.
    Attachment(MailFile),
}

/// A check that a message must pass before it is built.
#[derive(Debug)]
pub enum MailCheck {
    /// The text must parse as a mailbox; the code is the warning otherwise.
    Address(u16, String),
    /// The text must parse as a content type.
    ContentType(String),
}

/// A message ready to be built and sent.
#[derive(Debug)]
pub struct MailPlan {
    /// The `Message-ID` header.
    pub message_id: String,
    /// From.
    pub from: String,
    /// Reply-to.
    pub reply_to: Option<String>,
    /// To.
    pub to: Vec<String>,
    /// CC.
    pub cc: Vec<String>,
    /// BCC.
    pub bcc: Vec<String>,
    /// Subject.
    pub subject: String,
    /// The parts of the body; an empty body when there are none.
    pub parts: Vec<MailPart>,
}

/// A file of a composed message, as values.
pub struct FileView {
    pub name: Seq<char>,
    pub mime: Seq<char>,
    pub data: Seq<u8>,
}

/// A part of a composed message, as values.
pub enum PartView {
    Plain(Seq<char>),
    Html(Seq<char>),
    Alternative(Option<Seq<char>>, Seq<char>, Seq<FileView>),
    Attachment(FileView),
}

/// A check, as values.
pub enum CheckView {
    Address(u16, Seq<char>),
    ContentType(Seq<char>),
}

/// A composed message, as values.
pub struct PlanView {
    pub message_id: Seq<char>,
    pub from: Seq<char>,
    pub reply_to: Option<Seq<char>>,
    pub to: Seq<Seq<char>>,
    pub cc: Seq<Seq<char>>,
    pub bcc: Seq<Seq<char>>,
    pub subject: Seq<char>,
    pub parts: Seq<PartView>,
}

impl MailFile {
    pub open spec fn view(&self) -> FileView {
        FileView { name: self.name@, mime: self.mime@, data: self.data@ }
    }
}

impl MailPart {
    pub open spec fn view(&self) -> PartView {
        match self {
            MailPart::Plain(s) => PartView::Plain(s@),
            MailPart::Html(s) => PartView::Html(s@),
            MailPart::Alternative(t, h, f) => PartView::Alternative(
                match t {
                    Some(t) => Some(t@),
                    None => None,
                },
                h@,
                f@.map_values(|x: MailFile| x.view()),
            ),
            MailPart::Attachment(f) => PartView::Attachment(f.view()),
        }
    }
}

impl MailCheck {
    pub open spec fn view(&self) -> CheckView {
        match self {
            MailCheck::Address(c, s) => CheckView::Address(*c, s@),
            MailCheck::ContentType(s) => CheckView::ContentType(s@),
        }
    }
}

impl MailPlan {
    pub open spec fn view(&self) -> PlanView {
        PlanView {
            message_id: self.message_id@,
            from: self.from@,
            reply_to: match self.reply_to {
                Some(r) => Some(r@),
                None => None,
            },
            to: strs(self.to@),
            cc: strs(self.cc@),
            bcc: strs(self.bcc@),
            subject: self.subject@,
            parts: parts_view(self.parts@),
        }
    }
}

/// The texts of a list of strings.
pub open spec fn strs(v: Seq<String>) -> Seq<Seq<char>> {
    v.map_values(|s: String| s@)
}

/// The texts of an optional list of strings (none when absent).
pub open spec fn opt_strs(v: Option<Vec<String>>) -> Seq<Seq<char>> {
    match v {
        Some(v) => strs(v@),
        None => Seq::empty(),
    }
}

/// The views of a list of parts.
pub open spec fn parts_view(v: Seq<MailPart>) -> Seq<PartView> {
    v.map_values(|p: MailPart| p.view())
}

/// The views of a list of checks.
pub open spec fn checks_view(v: Seq<MailCheck>) -> Seq<CheckView> {
    v.map_values(|c: MailCheck| c.view())
}

/// The position of the last `.` before position `i`.
pub open spec fn last_dot(s: Seq<char>, i: int) -> Option<int>
    decreases i,
{
    if i <= 0 {
        None
    } else if s[i - 1] == '.' {
        Some(i - 1)
    } else {
        last_dot(s, i - 1)
    }
}

/// The extension of a file name: the text after its last `.`, empty when
/// it has none.
pub open spec fn extension(name: Seq<char>) -> Seq<char> {
    match last_dot(name, name.len() as int) {
        Some(p) => name.subrange(p + 1, name.len() as int),
        None => Seq::empty(),
    }
}

/// The content type of a file: the one given, else the one of its extension.
pub open spec fn file_mime(f: MailBodyFile) -> Seq<char> {
    match f.mime {
        Some(m) => m@,
        None => mime_of(extension(f.name@))@,
    }
}

/// A file as it goes into a message.
pub open spec fn file_view(f: MailBodyFile) -> FileView {
    FileView { name: f.name@, mime: file_mime(f), data: f.data@ }
}

/// The part that a body element becomes: an HTML page with neither a text
/// nor inline files is a plain `text/html` part, else an alternative.
pub open spec fn part_of(b: MailBody) -> PartView {
    match b {
        MailBody::Text(s) => PartView::Plain(s@),
        MailBody::Html(h) => if h.text is None && h.file@.len() == 0 {
            PartView::Html(h.html@)
        } else {
            PartView::Alternative(
                match h.text {
                    Some(t) => Some(t@),
                    None => None,
                },
                h.html@,
                h.file@.map_values(|f: MailBodyFile| file_view(f)),
            )
        },
        MailBody::File(f) => PartView::Attachment(file_view(f)),
    }
}

/// The parts of a message body.
pub open spec fn parts_of(b: Seq<MailBody>) -> Seq<PartView> {
    b.map_values(|x: MailBody| part_of(x))
}

/// Tags each address with the warning code of its field.
pub open spec fn tagged(code: u16, s: Seq<Seq<char>>) -> Seq<CheckView> {
    s.map_values(|a: Seq<char>| CheckView::Address(code, a))
}

/// The address checks of a message, in order: from, reply-to, each to, each
/// cc, each bcc.
pub open spec fn address_checks(m: MailMessage) -> Seq<CheckView> {
    seq![CheckView::Address(3004, m.from@)] + match m.reply_to {
        Some(r) => seq![CheckView::Address(3005, r@)],
        None => Seq::empty(),
    } + tagged(3006, strs(m.to@)) + tagged(3007, opt_strs(m.cc)) + tagged(3008, opt_strs(m.bcc))
}

/// The content-type checks of a part.
pub open spec fn part_checks(p: PartView) -> Seq<CheckView> {
    match p {
        PartView::Alternative(_, _, fs) => fs.map_values(|f: FileView| CheckView::ContentType(f.mime)),
        PartView::Attachment(f) => seq![CheckView::ContentType(f.mime)],
        _ => Seq::empty(),
    }
}

/// The content-type checks of a list of parts, in order.
pub open spec fn parts_checks(ps: Seq<PartView>) -> Seq<CheckView>
    decreases ps.len(),
{
    if ps.len() == 0 {
        Seq::empty()
    } else {
        parts_checks(ps.drop_last()) + part_checks(ps.last())
    }
}

/// All checks of a message, in order.
pub open spec fn message_checks(m: MailMessage) -> Seq<CheckView> {
    address_checks(m) + parts_checks(parts_of(m.body@))
}

/// The warning code of a failed check.
pub open spec fn check_code(c: CheckView) -> u16 {
    match c {
        CheckView::Address(code, _) => code,
        CheckView::ContentType(_) => 3010,
    }
}

/// The code of the first check from position `i` on that failed, if any.
pub open spec fn refusal_from(checks: Seq<CheckView>, ok: Seq<bool>, i: int) -> Option<u16>
    decreases checks.len() - i,
{
    if i < 0 || i >= checks.len() {
        None
    } else if !ok[i] {
        Some(check_code(checks[i]))
    } else {
        refusal_from(checks, ok, i + 1)
    }
}

/// What refuses a message: the first failed check, else a message without
/// any recipient.
pub open spec fn verdict(checks: Seq<CheckView>, ok: Seq<bool>, has_recipient: bool) -> Option<u16> {
    match refusal_from(checks, ok, 0) {
        Some(c) => Some(c),
        None => if has_recipient {
            None
        } else {
            Some(3009)
        },
    }
}

/// Whether lettre accepts what a check looks at.
pub open spec fn check_passes(c: CheckView) -> bool {
    match c {
        CheckView::Address(_, s) => mailbox_accepts(s),
        CheckView::ContentType(s) => content_type_accepts(s),
    }
}

/// Whether a message has a recipient in to, cc or bcc.
pub open spec fn has_recipient(m: MailMessage) -> bool {
    m.to@.len() + opt_strs(m.cc).len() + opt_strs(m.bcc).len() > 0
}

/// The composed form of a message that passed its checks.
pub open spec fn plan_of(m: MailMessage, message_id: Seq<char>) -> PlanView {
    PlanView {
        message_id,
        from: m.from@,
        reply_to: match m.reply_to {
            Some(r) => Some(r@),
            None => None,
        },
        to: strs(m.to@),
        cc: opt_strs(m.cc),
        bcc: opt_strs(m.bcc),
        subject: m.subject@,
        parts: parts_of(m.body@),
    }
}

/// The characters of the decimal text of a number.
pub open spec fn decimal_chars(n: int) -> Seq<char> {
    signed_decimal(n).map_values(|b: u8| b as char)
}

/// The id of the message that a database row holds: one row whose first
/// column is a 64-bit integer.
pub open spec fn message_id_of(rows: Seq<Data>) -> Option<i64> {
    if rows.len() == 1 {
        match rows[0] {
            Data::Vec(row) => if row@.len() > 0 {
                match row@[0] {
                    Data::I64(id) => Some(id),
                    _ => None,
                }
            } else {
                None
            },
            _ => None,
        }
    } else {
        None
    }
}

/// Viewing a list of strings commutes with appending one.
proof fn lemma_strs_push(s: Seq<String>, x: String)
    ensures
        strs(s.push(x)) == strs(s).push(x@),
{
    assert(strs(s.push(x)) =~= strs(s).push(x@));
}

/// Viewing a list of parts commutes with appending one.
proof fn lemma_parts_push(s: Seq<MailPart>, x: MailPart)
    ensures
        parts_view(s.push(x)) == parts_view(s).push(x.view()),
{
    assert(parts_view(s.push(x)) =~= parts_view(s).push(x.view()));
}

/// Viewing a list of checks commutes with appending one.
proof fn lemma_checks_push(s: Seq<MailCheck>, x: MailCheck)
    ensures
        checks_view(s.push(x)) == checks_view(s).push(x.view()),
{
    assert(checks_view(s.push(x)) =~= checks_view(s).push(x.view()));
}

/// The parts of a body commute with appending an element.
proof fn lemma_parts_of_push(s: Seq<MailBody>, x: MailBody)
    ensures
        parts_of(s.push(x)) == parts_of(s).push(part_of(x)),
{
    assert(parts_of(s.push(x)) =~= parts_of(s).push(part_of(x)));
}

/// Tagging commutes with appending an address.
proof fn lemma_tagged_push(code: u16, s: Seq<Seq<char>>, x: Seq<char>)
    ensures
        tagged(code, s.push(x)) == tagged(code, s).push(CheckView::Address(code, x)),
{
    assert(tagged(code, s.push(x)) =~= tagged(code, s).push(CheckView::Address(code, x)));
}

/// The views of files commute with appending one.
proof fn lemma_files_push(s: Seq<MailFile>, x: MailFile)
    ensures
        s.push(x).map_values(|f: MailFile| f.view()) == s.map_values(|f: MailFile| f.view()).push(x.view()),
{
    assert(s.push(x).map_values(|f: MailFile| f.view()) =~= s.map_values(|f: MailFile| f.view()).push(x.view()));
}

/// The views of body files commute with appending one.
proof fn lemma_body_files_push(s: Seq<MailBodyFile>, x: MailBodyFile)
    ensures
        s.push(x).map_values(|f: MailBodyFile| file_view(f)) == s.map_values(|f: MailBodyFile| file_view(f)).push(
            file_view(x),
        ),
{
    assert(s.push(x).map_values(|f: MailBodyFile| file_view(f)) =~= s.map_values(|f: MailBodyFile| file_view(f)).push(
        file_view(x),
    ));
}

/// The content-type checks of files commute with appending one.
proof fn lemma_mimes_push(s: Seq<FileView>, x: FileView)
    ensures
        s.push(x).map_values(|f: FileView| CheckView::ContentType(f.mime)) == s.map_values(
            |f: FileView| CheckView::ContentType(f.mime),
        ).push(CheckView::ContentType(x.mime)),
{
    assert(s.push(x).map_values(|f: FileView| CheckView::ContentType(f.mime)) =~= s.map_values(
        |f: FileView| CheckView::ContentType(f.mime),
    ).push(CheckView::ContentType(x.mime)));
}

/// Copies a list of strings.
fn copy_strings(v: &Vec<String>) -> (res: Vec<String>)
    ensures
        strs(res@) == strs(v@),
{
    let mut out: Vec<String> = Vec::new();
    let mut i: usize = 0;
    while i < v.len()
        invariant
            i <= v.len(),
            strs(out@) == strs(v@.subrange(0, i as int)),
        decreases v.len() - i,
    {
        let ghost before = out@;
        out.push(v[i].clone());
        assert(v@.subrange(0, i + 1) =~= v@.subrange(0, i as int).push(v@[i as int]));
        proof {
            lemma_strs_push(before, v@[i as int]);
            lemma_strs_push(v@.subrange(0, i as int), v@[i as int]);
        }
        i = i + 1;
    }
    assert(v@.subrange(0, v.len() as int) =~= v@);
    out
}

/// Copies an optional list of strings; none gives an empty list.
fn copy_opt_strings(v: &Option<Vec<String>>) -> (res: Vec<String>)
    ensures
        strs(res@) == opt_strs(*v),
{
    match v {
        Some(v) => copy_strings(v),
        None => {
            let out: Vec<String> = Vec::new();
            assert(strs(out@) =~= Seq::<Seq<char>>::empty());
            out
        },
    }
}

impl Mail {
    /// The extension of a file name: the text after its last `.`, empty
    /// when there is none.
    pub fn extension(name: &str) -> (res: &str)
        ensures
            res@ == extension(name@),
    {
        let n = name.unicode_len();
        let mut i = n;
        while i > 0
            invariant
                i <= n,
                n == name@.len(),
                last_dot(name@, n as int) == last_dot(name@, i as int),
            decreases i,
        {
            if name.get_char(i - 1) == '.' {
                return name.substring_char(i, n);
            }
            i = i - 1;
        }
        let e = "";
        proof {
            reveal_strlit("");
        }
        assert(e@ =~= Seq::<char>::empty());
        e
    }

    /// The content type of a file: the one it names, else the one of its
    /// extension.
    pub fn file_mime(f: &MailBodyFile) -> (res: String)
        ensures
            res@ == file_mime(*f),
    {
        match &f.mime {
            Some(m) => m.clone(),
            None => Mail::get_mime(Mail::extension(f.name.as_str())).to_owned(),
        }
    }

    /// A file as it goes into a message.
    fn mail_file(f: &MailBodyFile) -> (res: MailFile)
        ensures
            res.view() == file_view(*f),
    {
        MailFile { name: f.name.clone(), mime: Mail::file_mime(f), data: f.data.clone() }
    }

    /// The part an HTML page becomes.
    fn html_part(h: &MailBodyHtml) -> (res: MailPart)
        ensures
            res.view() == part_of(MailBody::Html(*h)),
    {
        if h.text.is_none() && h.file.len() == 0 {
            MailPart::Html(h.html.clone())
        } else {
            let mut files: Vec<MailFile> = Vec::new();
            let mut i: usize = 0;
            while i < h.file.len()
                invariant
                    i <= h.file.len(),
                    files@.map_values(|x: MailFile| x.view()) == h.file@.subrange(0, i as int).map_values(
                        |f: MailBodyFile| file_view(f),
                    ),
                decreases h.file.len() - i,
            {
                let ghost before = files@;
                let f = Mail::mail_file(&h.file[i]);
                files.push(f);
                assert(h.file@.subrange(0, i + 1) =~= h.file@.subrange(0, i as int).push(h.file@[i as int]));
                proof {
                    lemma_files_push(before, f);
                    lemma_body_files_push(h.file@.subrange(0, i as int), h.file@[i as int]);
                }
                i = i + 1;
            }
            assert(h.file@.subrange(0, h.file.len() as int) =~= h.file@);
            let text = match &h.text {
                Some(t) => Some(t.clone()),
                None => None,
            };
            MailPart::Alternative(text, h.html.clone(), files)
        }
    }

    /// The parts of a message body, in order: a text becomes a plain part,
    /// an HTML page an HTML or alternative part, a file an attachment.
    pub fn message_parts(body: &Vec<MailBody>) -> (res: Vec<MailPart>)
        ensures
            parts_view(res@) == parts_of(body@),
    {
        let mut out: Vec<MailPart> = Vec::new();
        let mut i: usize = 0;
        while i < body.len()
            invariant
                i <= body.len(),
                parts_view(out@) == parts_of(body@.subrange(0, i as int)),
            decreases body.len() - i,
        {
            let p = match &body[i] {
                MailBody::Text(s) => MailPart::Plain(s.clone()),
                MailBody::Html(h) => Mail::html_part(h),
                MailBody::File(f) => MailPart::Attachment(Mail::mail_file(f)),
            };
            let ghost before = out@;
            out.push(p);
            assert(body@.subrange(0, i + 1) =~= body@.subrange(0, i as int).push(body@[i as int]));
            proof {
                lemma_parts_push(before, p);
                lemma_parts_of_push(body@.subrange(0, i as int), body@[i as int]);
            }
            i = i + 1;
        }
        assert(body@.subrange(0, body.len() as int) =~= body@);
        out
    }

    /// Appends tagged address checks.
    fn push_addresses(out: &mut Vec<MailCheck>, code: u16, v: &Vec<String>)
        ensures
            checks_view(final(out)@) == checks_view(old(out)@) + tagged(code, strs(v@)),
    {
        let ghost start = checks_view(out@);
        let mut i: usize = 0;
        while i < v.len()
            invariant
                i <= v.len(),
                checks_view(out@) == start + tagged(code, strs(v@.subrange(0, i as int))),
            decreases v.len() - i,
        {
            let ghost before = out@;
            let c = MailCheck::Address(code, v[i].clone());
            out.push(c);
            assert(v@.subrange(0, i + 1) =~= v@.subrange(0, i as int).push(v@[i as int]));
            proof {
                lemma_checks_push(before, c);
                lemma_strs_push(v@.subrange(0, i as int), v@[i as int]);
                lemma_tagged_push(code, strs(v@.subrange(0, i as int)), v@[i as int]@);
            }
            assert(checks_view(out@) =~= start + tagged(code, strs(v@.subrange(0, i + 1))));
            i = i + 1;
        }
        assert(v@.subrange(0, v.len() as int) =~= v@);
    }

    /// Appends the content-type checks of a part.
    fn push_part_checks(out: &mut Vec<MailCheck>, p: &MailPart)
        ensures
            checks_view(final(out)@) == checks_view(old(out)@) + part_checks(p.view()),
    {
        let ghost start = checks_view(out@);
        match p {
            MailPart::Alternative(_, _, files) => {
                let mut i: usize = 0;
                while i < files.len()
                    invariant
                        i <= files.len(),
                        checks_view(out@) == start + files@.subrange(0, i as int).map_values(
                            |x: MailFile| x.view(),
                        ).map_values(|f: FileView| CheckView::ContentType(f.mime)),
                    decreases files.len() - i,
                {
                    let ghost before = out@;
                    let c = MailCheck::ContentType(files[i].mime.clone());
                    out.push(c);
                    assert(files@.subrange(0, i + 1) =~= files@.subrange(0, i as int).push(files@[i as int]));
                    proof {
                        lemma_checks_push(before, c);
                        lemma_files_push(files@.subrange(0, i as int), files@[i as int]);
                        lemma_mimes_push(
                            files@.subrange(0, i as int).map_values(|x: MailFile| x.view()),
                            files@[i as int].view(),
                        );
                    }
                    assert(checks_view(out@) =~= start + files@.subrange(0, i + 1).map_values(
                        |x: MailFile| x.view(),
                    ).map_values(|f: FileView| CheckView::ContentType(f.mime)));
                    i = i + 1;
                }
                assert(files@.subrange(0, files.len() as int) =~= files@);
            },
            MailPart::Attachment(f) => {
                out.push(MailCheck::ContentType(f.mime.clone()));
                assert(checks_view(out@) =~= start + part_checks(p.view()));
            },
            _ => {
                assert(checks_view(out@) =~= start + part_checks(p.view()));
            },
        }
    }

    /// The checks a message must pass, in order: its addresses (from,
    /// reply-to, to, cc, bcc), then the content type of each file.
    pub fn message_checks(message: &MailMessage, parts: &Vec<MailPart>) -> (res: Vec<MailCheck>)
        requires
            parts_view(parts@) == parts_of(message.body@),
        ensures
            checks_view(res@) == message_checks(*message),
    {
        let mut out: Vec<MailCheck> = Vec::new();
        out.push(MailCheck::Address(3004, message.from.clone()));
        if let Some(r) = &message.reply_to {
            out.push(MailCheck::Address(3005, r.clone()));
        }
        assert(checks_view(out@) =~= seq![CheckView::Address(3004, message.from@)] + match message.reply_to {
            Some(r) => seq![CheckView::Address(3005, r@)],
            None => Seq::empty(),
        });
        Mail::push_addresses(&mut out, 3006, &message.to);
        let cc = copy_opt_strings(&message.cc);
        Mail::push_addresses(&mut out, 3007, &cc);
        let bcc = copy_opt_strings(&message.bcc);
        Mail::push_addresses(&mut out, 3008, &bcc);
        assert(checks_view(out@) =~= address_checks(*message));
        let ghost start = checks_view(out@);
        let mut i: usize = 0;
        while i < parts.len()
            invariant
                i <= parts.len(),
                checks_view(out@) == start + parts_checks(parts_view(parts@.subrange(0, i as int))),
            decreases parts.len() - i,
        {
            let ghost before = checks_view(out@);
            Mail::push_part_checks(&mut out, &parts[i]);
            assert(parts_view(parts@.subrange(0, i + 1)).drop_last() =~= parts_view(parts@.subrange(0, i as int)));
            assert(checks_view(out@) =~= start + parts_checks(parts_view(parts@.subrange(0, i + 1))));
            i = i + 1;
        }
        assert(parts@.subrange(0, parts.len() as int) =~= parts@);
        out
    }

    /// What refuses a message, given whether each of its checks passed and
    /// whether it has a recipient: the code of the first failed check, else
    /// `3009` without a recipient, else nothing.
    pub fn verdict(checks: &Vec<MailCheck>, passed: &Vec<bool>, has_recipient: bool) -> (res: Option<u16>)
        requires
            passed.len() == checks.len(),
        ensures
            res == verdict(checks_view(checks@), passed@, has_recipient),
    {
        let ghost cv = checks_view(checks@);
        let mut i: usize = 0;
        while i < checks.len()
            invariant
                i <= checks.len(),
                passed.len() == checks.len(),
                cv == checks_view(checks@),
                refusal_from(cv, passed@, 0) == refusal_from(cv, passed@, i as int),
            decreases checks.len() - i,
        {
            if !passed[i] {
                let code = match &checks[i] {
                    MailCheck::Address(c, _) => *c,
                    MailCheck::ContentType(_) => BAD_CONTENT_TYPE,
                };
                return Some(code);
            }
            i = i + 1;
        }
        if has_recipient {
            None
        } else {
            Some(NO_RECIPIENT)
        }
    }

    /// Runs the checks through lettre.
    fn run_checks(checks: &Vec<MailCheck>) -> (res: Vec<bool>)
        ensures
            res.len() == checks.len(),
            forall|i: int| 0 <= i < checks.len() ==> res@[i] == check_passes(#[trigger] checks@[i].view()),
    {
        let mut out: Vec<bool> = Vec::new();
        let mut i: usize = 0;
        while i < checks.len()
            invariant
                i <= checks.len(),
                out.len() == i,
                forall|j: int| 0 <= j < i ==> out@[j] == check_passes(#[trigger] checks@[j].view()),
            decreases checks.len() - i,
        {
            let ok = match &checks[i] {
                MailCheck::Address(_, s) => mailbox_parse(s.as_str()).is_some(),
                MailCheck::ContentType(s) => content_type_parse(s.as_str()).is_some(),
            };
            out.push(ok);
            i = i + 1;
        }
        out
    }

    /// Composes a message: runs its checks and, when none refuses it, gives
    /// the message as it is built. The error is the code of the warning that
    /// refuses it.
    pub fn compose(message: &MailMessage, message_id: String) -> (res: Result<MailPlan, u16>)
        ensures
            ({
                let checks = message_checks(*message);
                let passed = checks.map_values(|c: CheckView| check_passes(c));
                match verdict(checks, passed, has_recipient(*message)) {
                    Some(code) => res == Err::<MailPlan, u16>(code),
                    None => res matches Ok(p) && p.view() == plan_of(*message, message_id@),
                }
            }),
    {
        let parts = Mail::message_parts(&message.body);
        let checks = Mail::message_checks(message, &parts);
        let passed = Mail::run_checks(&checks);
        let cc = copy_opt_strings(&message.cc);
        let bcc = copy_opt_strings(&message.bcc);
        proof {
            assert(strs(cc@).len() == cc@.len());
            assert(strs(bcc@).len() == bcc@.len());
        }
        let recipient = message.to.len() > 0 || cc.len() > 0 || bcc.len() > 0;
        let ghost cv = message_checks(*message);
        assert(passed@ =~= cv.map_values(|c: CheckView| check_passes(c)));
        match Mail::verdict(&checks, &passed, recipient) {
            Some(code) => Err(code),
            None => {
                let to = copy_strings(&message.to);
                let reply_to = match &message.reply_to {
                    Some(r) => Some(r.clone()),
                    None => None,
                };
                Ok(MailPlan {
                    message_id,
                    from: message.from.clone(),
                    reply_to,
                    to,
                    cc,
                    bcc,
                    subject: message.subject.clone(),
                    parts,
                })
            },
        }
    }

    /// The id that the database gave a new message: the first column of its
    /// only row, when that is a 64-bit integer.
    pub fn message_id(rows: &Vec<Data>) -> (res: Option<i64>)
        ensures
            res == message_id_of(rows@),
    {
        if rows.len() != 1 {
            return None;
        }
        match &rows[0] {
            Data::Vec(row) => {
                if row.len() == 0 {
                    return None;
                }
                match &row[0] {
                    Data::I64(id) => Some(*id),
                    _ => None,
                }
            },
            _ => None,
        }
    }

    /// The `Message-ID` text of a message: its id, `@`, and the host.
    pub fn message_id_text(id: i64, host: &str) -> (res: String)
        ensures
            res@ == decimal_chars(id as int) + seq!['@'] + host@,
    {
        let mut digits: Vec<u8> = Vec::new();
        push_signed_decimal(&mut digits, id);
        assert(digits@ =~= signed_decimal(id as int));
        let mut out = String::new();
        let mut i: usize = 0;
        while i < digits.len()
            invariant
                i <= digits.len(),
                digits@ == signed_decimal(id as int),
                out@ == digits@.subrange(0, i as int).map_values(|b: u8| b as char),
            decreases digits.len() - i,
        {
            let b = digits[i];
            push_char(&mut out, b as char);
            assert(digits@.subrange(0, i + 1) =~= digits@.subrange(0, i as int).push(b));
            assert(out@ =~= digits@.subrange(0, i + 1).map_values(|b: u8| b as char));
            i = i + 1;
        }
        assert(digits@.subrange(0, digits.len() as int) =~= digits@);
        push_char(&mut out, '@');
        let n = host.unicode_len();
        let ghost head = out@;
        let mut j: usize = 0;
        while j < n
            invariant
                j <= n,
                n == host@.len(),
                out@ == head + host@.subrange(0, j as int),
            decreases n - j,
        {
            push_char(&mut out, host.get_char(j));
            assert(host@.subrange(0, j + 1) =~= host@.subrange(0, j as int).push(host@[j as int]));
            j = j + 1;
        }
        assert(host@.subrange(0, n as int) =~= host@);
        out
    }
}

} // verus!
