use tiny_web::data::Data;
use tiny_web::mail::{
    read_setting, Mail, MailBody, MailBodyFile, MailBodyHtml, MailMessage, MailProvider, MailSetup, MailStep, SettingRead,
    SmtpAuth, SmtpTls,
};
use tiny_web::mail_message::{MailCheck, MailPart};

fn text(s: &str) -> SettingRead {
    SettingRead::Text(s.to_string())
}

fn next(s: MailSetup, r: SettingRead) -> MailSetup {
    match Mail::provider_step(s, r) {
        MailStep::Query(n) => n,
        MailStep::Done(p) => panic!("finished early: {:?}", p),
    }
}

fn done(s: MailSetup, r: SettingRead) -> MailProvider {
    match Mail::provider_step(s, r) {
        MailStep::Done(p) => p,
        MailStep::Query(n) => panic!("still asking: {:?}", n),
    }
}

fn message(from: &str, to: &[&str], body: Vec<MailBody>) -> MailMessage {
    MailMessage {
        to: to.iter().map(|x| x.to_string()).collect(),
        cc: None,
        bcc: None,
        from: from.to_string(),
        reply_to: None,
        subject: "Hello".to_string(),
        body,
    }
}

fn file(name: &str, mime: Option<&str>) -> MailBodyFile {
    MailBodyFile { name: name.to_string(), mime: mime.map(|m| m.to_string()), data: vec![1, 2, 3] }
}

#[test]
fn mime_types() {
    assert_eq!(Mail::get_mime("png"), "image/png");
    assert_eq!(Mail::get_mime("pdf"), "application/pdf");
    assert_eq!(Mail::get_mime("html"), "text/html");
    assert_eq!(Mail::get_mime("unknown"), "application/octet-stream");
    assert_eq!(Mail::get_mime(""), "application/octet-stream");
}

#[test]
fn extensions() {
    assert_eq!(Mail::extension("a.tar.gz"), "gz");
    assert_eq!(Mail::extension("noext"), "");
    assert_eq!(Mail::extension("dot."), "");
    assert_eq!(Mail::file_mime(&file("x.png", None)), "image/png");
    assert_eq!(Mail::file_mime(&file("x.png", Some("text/plain"))), "text/plain");
    assert_eq!(Mail::file_mime(&file("x", None)), "application/octet-stream");
}

#[test]
fn setting_rows() {
    assert!(matches!(read_setting(None), SettingRead::Failed));
    assert!(matches!(read_setting(Some(Vec::new())), SettingRead::NoRows));
    assert!(matches!(read_setting(Some(vec![Data::I64(1)])), SettingRead::Bad));
    assert!(matches!(read_setting(Some(vec![Data::Vec(vec![])])), SettingRead::Bad));
    assert!(matches!(read_setting(Some(vec![Data::Vec(vec![Data::String("SMTP".to_string())])])), SettingRead::Text(ref t) if t == "SMTP"));
}

#[test]
fn smtp_provider_chain() {
    let s = next(MailSetup::Provider, text("SMTP"));
    assert_eq!(Mail::setting_name(&s), "mail:smtp:server");
    let s = next(s, text("smtp.local"));
    assert_eq!(Mail::setting_name(&s), "mail:smtp:port");
    let s = next(s, text("587"));
    let s = next(s, text("STARTTLS"));
    let s = next(s, text("LOGIN"));
    let s = next(s, text("me"));
    assert_eq!(Mail::setting_name(&s), "mail:smtp:pwd");
    match done(s, text("secret")) {
        MailProvider::Smtp(i) => {
            assert_eq!((i.server.as_str(), i.port), ("smtp.local", 587));
            assert!(matches!(i.tls, SmtpTls::Required));
            assert!(matches!(i.auth, SmtpAuth::Login));
            assert_eq!(i.credentials, Some(("me".to_string(), "secret".to_string())));
        }
        p => panic!("unexpected {:?}", p),
    }
}

#[test]
fn smtp_without_authentication_has_no_credentials() {
    let s = next(MailSetup::Provider, text("SMTP"));
    let s = next(s, text("m"));
    let s = next(s, text("25"));
    let s = next(s, text("None"));
    let s = next(s, text("None"));
    let s = next(s, SettingRead::NoRows);
    match done(s, SettingRead::NoRows) {
        MailProvider::Smtp(i) => assert!(i.credentials.is_none()),
        p => panic!("unexpected {:?}", p),
    }
}

#[test]
fn provider_failures() {
    assert!(matches!(done(MailSetup::Provider, text("Pigeon")), MailProvider::Nothing));
    assert!(matches!(done(MailSetup::Provider, SettingRead::Failed), MailProvider::Nothing));
    let s = next(MailSetup::Provider, text("SMTP"));
    let s = next(s, text("m"));
    assert!(matches!(done(s, text("port")), MailProvider::Nothing));
    let s = next(MailSetup::Provider, text("File"));
    assert_eq!(Mail::setting_name(&s), "mail:file");
    assert!(matches!(done(s, text("/tmp/mail")), MailProvider::File(ref p) if p == "/tmp/mail"));
    let s = next(MailSetup::Provider, text("Sendmail"));
    assert_eq!(Mail::setting_name(&s), "mail:sendmail");
    assert!(matches!(done(s, text("")), MailProvider::Nothing));
}

#[test]
fn sendmail_setting_gives_sendmail_provider() {
    let s = next(MailSetup::Provider, text("Sendmail"));
    assert!(matches!(done(s, text("/usr/sbin/sendmail")), MailProvider::Sendmail(ref p) if p == "/usr/sbin/sendmail"));
}

#[test]
fn message_parts_layout() {
    let body = vec![
        MailBody::Text("plain".to_string()),
        MailBody::Html(MailBodyHtml { text: None, html: "<p>x</p>".to_string(), file: vec![] }),
        MailBody::Html(MailBodyHtml { text: Some("alt".to_string()), html: "<p>y</p>".to_string(), file: vec![file("logo.png", None)] }),
        MailBody::File(file("doc.pdf", None)),
    ];
    let parts = Mail::message_parts(&body);
    assert_eq!(parts.len(), 4);
    assert!(matches!(&parts[0], MailPart::Plain(t) if t == "plain"));
    assert!(matches!(&parts[1], MailPart::Html(h) if h == "<p>x</p>"));
    match &parts[2] {
        MailPart::Alternative(t, h, files) => {
            assert_eq!(t.as_deref(), Some("alt"));
            assert_eq!(h, "<p>y</p>");
            assert_eq!((files[0].name.as_str(), files[0].mime.as_str()), ("logo.png", "image/png"));
        }
        _ => panic!("expected an alternative"),
    }
    assert!(matches!(&parts[3], MailPart::Attachment(f) if f.mime == "application/pdf" && f.data == vec![1, 2, 3]));
}

#[test]
fn message_checks_in_order() {
    let mut m = message("a@x.org", &["b@x.org"], vec![MailBody::File(file("a.txt", None))]);
    m.reply_to = Some("r@x.org".to_string());
    m.bcc = Some(vec!["c@x.org".to_string()]);
    let parts = Mail::message_parts(&m.body);
    let checks = Mail::message_checks(&m, &parts);
    let shown: Vec<String> = checks
        .iter()
        .map(|c| match c {
            MailCheck::Address(code, a) => format!("{} {}", code, a),
            MailCheck::ContentType(t) => format!("type {}", t),
        })
        .collect();
    assert_eq!(shown, vec!["3004 a@x.org", "3005 r@x.org", "3006 b@x.org", "3008 c@x.org", "type text/plain"]);
}

#[test]
fn verdicts() {
    let checks = vec![MailCheck::Address(3004, "a".to_string()), MailCheck::ContentType("t".to_string())];
    assert_eq!(Mail::verdict(&checks, &vec![true, true], true), None);
    assert_eq!(Mail::verdict(&checks, &vec![true, false], true), Some(3010));
    assert_eq!(Mail::verdict(&checks, &vec![false, false], true), Some(3004));
    assert_eq!(Mail::verdict(&checks, &vec![true, true], false), Some(3009));
}

#[test]
fn compose_good_message() {
    let m = message("Me <me@example.com>", &["you@example.com"], vec![MailBody::Text("hi".to_string())]);
    let p = Mail::compose(&m, "7@host".to_string()).unwrap();
    assert_eq!(p.message_id, "7@host");
    assert_eq!(p.from, "Me <me@example.com>");
    assert_eq!(p.to, vec!["you@example.com".to_string()]);
    assert!(p.cc.is_empty() && p.bcc.is_empty());
    assert_eq!(p.subject, "Hello");
    assert_eq!(p.parts.len(), 1);
}

#[test]
fn compose_refusals() {
    let m = message("not an address", &["you@example.com"], vec![]);
    assert_eq!(Mail::compose(&m, "1@h".to_string()).err(), Some(3004));
    let m = message("me@example.com", &["ok@example.com", "broken"], vec![]);
    assert_eq!(Mail::compose(&m, "1@h".to_string()).err(), Some(3006));
    let m = message("me@example.com", &[], vec![]);
    assert_eq!(Mail::compose(&m, "1@h".to_string()).err(), Some(3009));
    let m = message("me@example.com", &["you@example.com"], vec![MailBody::File(file("a", Some("not a type")))]);
    assert_eq!(Mail::compose(&m, "1@h".to_string()).err(), Some(3010));
    let mut m = message("me@example.com", &[], vec![]);
    m.cc = Some(vec!["cc@example.com".to_string()]);
    assert!(Mail::compose(&m, "1@h".to_string()).is_ok());
}

#[test]
fn message_ids() {
    assert_eq!(Mail::message_id(&vec![Data::Vec(vec![Data::I64(15)])]), Some(15));
    assert_eq!(Mail::message_id(&vec![]), None);
    assert_eq!(Mail::message_id(&vec![Data::Vec(vec![Data::I64(1)]), Data::Vec(vec![])]), None);
    assert_eq!(Mail::message_id(&vec![Data::Vec(vec![Data::String("1".to_string())])]), None);
    assert_eq!(Mail::message_id_text(15, "example.com"), "15@example.com");
    assert_eq!(Mail::message_id_text(-3, "h"), "-3@h");
}

fn bytes_text(b: &[u8]) -> String {
    String::from_utf8_lossy(b).into_owned()
}

#[test]
fn message_bytes_carry_headers_and_parts() {
    let html = MailBodyHtml { text: Some("plain text".to_string()), html: "<b>hi</b>".to_string(), file: vec![file("logo.png", None)] };
    let m = message(
        "Me <me@example.com>",
        &["you@example.com"],
        vec![MailBody::Text("hello there".to_string()), MailBody::Html(html), MailBody::File(file("doc.pdf", None))],
    );
    let p = Mail::compose(&m, "<7@host>".to_string()).unwrap();
    let out = bytes_text(&Mail::message_bytes(&p).unwrap());
    assert!(out.contains("Message-ID: <7@host>"));
    assert!(out.contains("From: Me <me@example.com>"));
    assert!(out.contains("To: you@example.com"));
    assert!(out.contains("Subject: Hello"));
    assert!(out.contains("multipart/mixed"));
    assert!(out.contains("multipart/alternative"));
    assert!(out.contains("multipart/related"));
    assert!(out.contains("hello there"));
    assert!(out.contains("image/png"));
    assert!(out.contains("application/pdf"));
    assert!(out.contains("doc.pdf"));
}

#[test]
fn message_bytes_without_parts_have_an_empty_body() {
    let m = message("me@example.com", &["you@example.com"], vec![]);
    let p = Mail::compose(&m, "<1@h>".to_string()).unwrap();
    let out = bytes_text(&Mail::message_bytes(&p).unwrap());
    assert!(out.contains("Subject: Hello"));
    assert!(!out.contains("multipart"));
}

#[test]
fn message_bytes_refuse_what_lettre_refuses() {
    let m = message("me@example.com", &["you@example.com"], vec![]);
    let mut p = Mail::compose(&m, "<1@h>".to_string()).unwrap();
    p.from = "not an address".to_string();
    assert!(Mail::message_bytes(&p).is_none());
    let mut p = Mail::compose(&m, "<1@h>".to_string()).unwrap();
    p.to.clear();
    assert!(Mail::message_bytes(&p).is_none());
    let mut p = Mail::compose(&m, "<1@h>".to_string()).unwrap();
    p.parts.push(MailPart::Attachment(tiny_web::mail_message::MailFile {
        name: "x".to_string(),
        mime: "not a type".to_string(),
        data: vec![],
    }));
    assert!(Mail::message_bytes(&p).is_none());
}
