//! Building a composed message with lettre: the headers in order, then the
//! MIME tree of its parts, then the bytes that a transport sends.
//!
//! Each lettre value travels with a ghost record of what was handed to lettre
//! to make it: the texts of the mailboxes of each header, the subject, the
//! message id, and the tree of parts. Only the trusted wrappers below set
//! these records, each as the lettre call it makes.

use vstd::prelude::*;

use lettre::message::header::ContentType;
use lettre::message::{Attachment, Mailbox, MessageBuilder, MultiPart, MultiPartBuilder, SinglePart};
use lettre::Message;

use crate::mail::Mail;
use crate::mail_message::{content_type_accepts, mailbox_accepts, strs};
use crate::mail_message::{FileView, MailFile, MailPart, MailPlan, PartView, PlanView};

verus! {

/// lettre's mailbox (a name and an address).
#[verifier::external_type_specification]
#[verifier::external_body]
pub struct ExMailbox(Mailbox);

/// lettre's MIME content type.
#[verifier::external_type_specification]
#[verifier::external_body]
pub struct ExContentType(ContentType);

/// lettre's message builder.
#[verifier::external_type_specification]
#[verifier::external_body]
pub struct ExMessageBuilder(MessageBuilder);

/// lettre's message.
#[verifier::external_type_specification]
#[verifier::external_body]
pub struct ExMessage(Message);

/// lettre's multipart body.
#[verifier::external_type_specification]
#[verifier::external_body]
pub struct ExMultiPart(MultiPart);

/// lettre's builder of a multipart body.
#[verifier::external_type_specification]
#[verifier::external_body]
pub struct ExMultiPartBuilder(MultiPartBuilder);

/// lettre's single part.
#[verifier::external_type_specification]
#[verifier::external_body]
pub struct ExSinglePart(SinglePart);

/// lettre's attachment (a file name or an inline content id).
#[verifier::external_type_specification]
#[verifier::external_body]
pub struct ExAttachment(Attachment);

/// What was handed to a message builder: the `Message-ID`, the mailboxes
/// of `From`, `Reply-To`, `To`, `Cc` and `Bcc` (by the texts they were
/// parsed from, in the order they were added) and the `Subject`.
pub struct HeaderModel {
    pub message_id: Option<Seq<char>>,
    pub from: Seq<Seq<char>>,
    pub reply_to: Seq<Seq<char>>,
    pub to: Seq<Seq<char>>,
    pub cc: Seq<Seq<char>>,
    pub bcc: Seq<Seq<char>>,
    pub subject: Option<Seq<char>>,
}

/// The kind of a multipart body.
pub enum MultiKind {
    Mixed,
    Alternative,
    Related,
}

/// A MIME part as it was handed to lettre.
pub enum MimeModel {
    /// `text/plain`.
    Plain(Seq<char>),
    /// `text/html`.
    Html(Seq<char>),
    /// A file: inline (by content id) or attached (by file name), the name,
    /// the content type text and the data.
    File(bool, Seq<char>, Seq<char>, Seq<u8>),
    /// A multipart body and its parts in order.
    Multi(MultiKind, Seq<MimeModel>),
}

/// The body of a message as it was handed to lettre.
pub enum BodyModel {
    /// A plain body.
    Text(Seq<char>),
    /// A MIME body.
    Mime(MimeModel),
}

/// A builder with nothing handed to it yet.
pub open spec fn no_headers() -> HeaderModel {
    HeaderModel {
        message_id: None,
        from: Seq::empty(),
        reply_to: Seq::empty(),
        to: Seq::empty(),
        cc: Seq::empty(),
        bcc: Seq::empty(),
        subject: None,
    }
}

/// A part appended to a multipart body.
pub open spec fn push_part(m: MimeModel, p: MimeModel) -> MimeModel {
    match m {
        MimeModel::Multi(k, ps) => MimeModel::Multi(k, ps.push(p)),
        _ => m,
    }
}

/// Whether lettre's `MessageBuilder::body` builds a message whose `From`,
/// `To`, `Cc` and `Bcc` headers were given these mailboxes (by their texts,
/// in order). lettre writes each header as text and reads it back when it
/// adds a mailbox and when it builds; the answer depends on these texts
/// alone.
pub uninterp spec fn body_accepted(
    from: Seq<Seq<char>>,
    to: Seq<Seq<char>>,
    cc: Seq<Seq<char>>,
    bcc: Seq<Seq<char>>,
) -> bool;

/// Whether lettre's `MessageBuilder::multipart` builds a message whose
/// `From`, `To`, `Cc` and `Bcc` headers were given these mailboxes (by their
/// texts, in order); as for `body_accepted`, the answer depends on these
/// texts alone.
pub uninterp spec fn multipart_accepted(
    from: Seq<Seq<char>>,
    to: Seq<Seq<char>>,
    cc: Seq<Seq<char>>,
    bcc: Seq<Seq<char>>,
) -> bool;

/// A mailbox that lettre parsed, with the text it was parsed from.
pub struct ParsedMailbox {
    mailbox: Mailbox,
    text: Ghost<Seq<char>>,
}

impl ParsedMailbox {
    pub closed spec fn text(self) -> Seq<char> {
        self.text@
    }
}

/// A content type that lettre parsed, with the text it was parsed from.
pub struct ParsedType {
    ct: ContentType,
    text: Ghost<Seq<char>>,
}

impl ParsedType {
    pub closed spec fn text(self) -> Seq<char> {
        self.text@
    }
}

/// A lettre message builder and what was handed to it.
struct Builder {
    b: MessageBuilder,
    model: Ghost<HeaderModel>,
}

impl Builder {
    closed spec fn model(self) -> HeaderModel {
        self.model@
    }
}

/// A lettre multipart builder and its kind.
struct MultiBuilder {
    b: MultiPartBuilder,
    kind: Ghost<MultiKind>,
}

impl MultiBuilder {
    closed spec fn kind(self) -> MultiKind {
        self.kind@
    }
}

/// A lettre multipart body and what was handed to it.
struct Multi {
    m: MultiPart,
    model: Ghost<MimeModel>,
}

impl Multi {
    closed spec fn model(self) -> MimeModel {
        self.model@
    }
}

/// A lettre single part and what was handed to it.
struct Single {
    p: SinglePart,
    model: Ghost<MimeModel>,
}

impl Single {
    closed spec fn model(self) -> MimeModel {
        self.model@
    }
}

/// A lettre attachment: inline or not, and its name.
struct Attach {
    a: Attachment,
    inline: Ghost<bool>,
    name: Ghost<Seq<char>>,
}

impl Attach {
    closed spec fn inline(self) -> bool {
        self.inline@
    }

    closed spec fn name(self) -> Seq<char> {
        self.name@
    }
}

/// A lettre message and what was handed to lettre to build it.
pub struct LettreMessage {
    m: Message,
    headers: Ghost<HeaderModel>,
    body: Ghost<BodyModel>,
}

impl LettreMessage {
    /// The headers handed to lettre.
    pub closed spec fn headers(self) -> HeaderModel {
        self.headers@
    }

    /// The body handed to lettre.
    pub closed spec fn body(self) -> BodyModel {
        self.body@
    }
}

/// lettre's `Mailbox::from_str`: the mailbox that the text names, if it
/// parses. Whether it parses depends on the text alone; the mailbox is kept
/// with the text.
#[verifier::external_body]
pub(crate) fn mailbox_parse(s: &str) -> (res: Option<ParsedMailbox>)
    ensures
        res is Some <==> mailbox_accepts(s@),
        res matches Some(m) ==> m.text() == s@,
{
    match s.parse::<Mailbox>() {
        Ok(m) => Some(ParsedMailbox { mailbox: m, text: Ghost(s@) }),
        Err(_) => None,
    }
}

/// lettre's `ContentType::parse`: the content type that the text names, if
/// it parses. Whether it parses depends on the text alone; the value is kept
/// with the text.
#[verifier::external_body]
pub(crate) fn content_type_parse(s: &str) -> (res: Option<ParsedType>)
    ensures
        res is Some <==> content_type_accepts(s@),
        res matches Some(t) ==> t.text() == s@,
{
    match ContentType::parse(s) {
        Ok(ct) => Some(ParsedType { ct, text: Ghost(s@) }),
        Err(_) => None,
    }
}

/// lettre's `Message::builder`: an empty builder.
#[verifier::external_body]
fn message_builder() -> (res: Builder)
    ensures
        res.model() == no_headers(),
{
    Builder { b: Message::builder(), model: Ghost(no_headers()) }
}

/// lettre's `MessageBuilder::message_id` with an id given: the `Message-ID`
/// header set to it.
#[verifier::external_body]
fn with_message_id(b: Builder, id: String) -> (res: Builder)
    ensures
        res.model() == (HeaderModel { message_id: Some(id@), ..b.model() }),
{
    let ghost m = HeaderModel { message_id: Some(id@), ..b.model@ };
    Builder { b: b.b.message_id(Some(id)), model: Ghost(m) }
}

/// lettre's `MessageBuilder::from`: the mailbox added to `From`.
#[verifier::external_body]
fn with_from(b: Builder, m: ParsedMailbox) -> (res: Builder)
    ensures
        res.model() == (HeaderModel { from: b.model().from.push(m.text()), ..b.model() }),
{
    let ghost h = HeaderModel { from: b.model@.from.push(m.text@), ..b.model@ };
    Builder { b: b.b.from(m.mailbox), model: Ghost(h) }
}

/// lettre's `MessageBuilder::reply_to`: the mailbox added to `Reply-To`.
#[verifier::external_body]
fn with_reply_to(b: Builder, m: ParsedMailbox) -> (res: Builder)
    ensures
        res.model() == (HeaderModel { reply_to: b.model().reply_to.push(m.text()), ..b.model() }),
{
    let ghost h = HeaderModel { reply_to: b.model@.reply_to.push(m.text@), ..b.model@ };
    Builder { b: b.b.reply_to(m.mailbox), model: Ghost(h) }
}

/// lettre's `MessageBuilder::to`: the mailbox added to `To`.
#[verifier::external_body]
fn with_to(b: Builder, m: ParsedMailbox) -> (res: Builder)
    ensures
        res.model() == (HeaderModel { to: b.model().to.push(m.text()), ..b.model() }),
{
    let ghost h = HeaderModel { to: b.model@.to.push(m.text@), ..b.model@ };
    Builder { b: b.b.to(m.mailbox), model: Ghost(h) }
}

/// lettre's `MessageBuilder::cc`: the mailbox added to `Cc`.
#[verifier::external_body]
fn with_cc(b: Builder, m: ParsedMailbox) -> (res: Builder)
    ensures
        res.model() == (HeaderModel { cc: b.model().cc.push(m.text()), ..b.model() }),
{
    let ghost h = HeaderModel { cc: b.model@.cc.push(m.text@), ..b.model@ };
    Builder { b: b.b.cc(m.mailbox), model: Ghost(h) }
}

/// lettre's `MessageBuilder::bcc`: the mailbox added to `Bcc`.
#[verifier::external_body]
fn with_bcc(b: Builder, m: ParsedMailbox) -> (res: Builder)
    ensures
        res.model() == (HeaderModel { bcc: b.model().bcc.push(m.text()), ..b.model() }),
{
    let ghost h = HeaderModel { bcc: b.model@.bcc.push(m.text@), ..b.model@ };
    Builder { b: b.b.bcc(m.mailbox), model: Ghost(h) }
}

/// lettre's `MessageBuilder::subject`: the `Subject` header set.
#[verifier::external_body]
fn with_subject(b: Builder, s: String) -> (res: Builder)
    ensures
        res.model() == (HeaderModel { subject: Some(s@), ..b.model() }),
{
    let ghost h = HeaderModel { subject: Some(s@), ..b.model@ };
    Builder { b: b.b.subject(s), model: Ghost(h) }
}

/// lettre's `MessageBuilder::body`: the message with a plain body, where
/// lettre builds it (`body_accepted`). It refuses one without a `From`
/// mailbox or without any recipient.
#[verifier::external_body]
fn finish_with_body(b: Builder, body: String) -> (res: Option<LettreMessage>)
    ensures
        res is Some <==> body_accepted(b.model().from, b.model().to, b.model().cc, b.model().bcc),
        b.model().from.len() == 0 ==> res is None,
        b.model().to.len() + b.model().cc.len() + b.model().bcc.len() == 0 ==> res is None,
        res matches Some(m) ==> m.headers() == b.model() && m.body() == BodyModel::Text(body@),
{
    let ghost (h, t) = (b.model@, BodyModel::Text(body@));
    match b.b.body(body) {
        Ok(m) => Some(LettreMessage { m, headers: Ghost(h), body: Ghost(t) }),
        Err(_) => None,
    }
}

/// lettre's `MessageBuilder::multipart`: the message with a MIME body,
/// where lettre builds it (`multipart_accepted`). It refuses one without a
/// `From` mailbox or without any recipient.
#[verifier::external_body]
fn finish_with_parts(b: Builder, part: Multi) -> (res: Option<LettreMessage>)
    ensures
        res is Some <==> multipart_accepted(b.model().from, b.model().to, b.model().cc, b.model().bcc),
        b.model().from.len() == 0 ==> res is None,
        b.model().to.len() + b.model().cc.len() + b.model().bcc.len() == 0 ==> res is None,
        res matches Some(m) ==> m.headers() == b.model() && m.body() == BodyModel::Mime(part.model()),
{
    let ghost (h, t) = (b.model@, BodyModel::Mime(part.model@));
    match b.b.multipart(part.m) {
        Ok(m) => Some(LettreMessage { m, headers: Ghost(h), body: Ghost(t) }),
        Err(_) => None,
    }
}

/// lettre's `MultiPart::mixed`: a `multipart/mixed` builder (with a random
/// boundary).
#[verifier::external_body]
fn mixed_builder() -> (res: MultiBuilder)
    ensures
        res.kind() == MultiKind::Mixed,
{
    MultiBuilder { b: MultiPart::mixed(), kind: Ghost(MultiKind::Mixed) }
}

/// lettre's `MultiPart::alternative`: a `multipart/alternative` builder
/// (with a random boundary).
#[verifier::external_body]
fn alternative_builder() -> (res: MultiBuilder)
    ensures
        res.kind() == MultiKind::Alternative,
{
    MultiBuilder { b: MultiPart::alternative(), kind: Ghost(MultiKind::Alternative) }
}

/// lettre's `MultiPart::related`: a `multipart/related` builder (with a
/// random boundary).
#[verifier::external_body]
fn related_builder() -> (res: MultiBuilder)
    ensures
        res.kind() == MultiKind::Related,
{
    MultiBuilder { b: MultiPart::related(), kind: Ghost(MultiKind::Related) }
}

/// lettre's `MultiPartBuilder::build`: a multipart body with no parts yet.
#[verifier::external_body]
fn build_multipart(b: MultiBuilder) -> (res: Multi)
    ensures
        res.model() == MimeModel::Multi(b.kind(), Seq::empty()),
{
    let ghost k = MimeModel::Multi(b.kind@, Seq::empty());
    Multi { m: b.b.build(), model: Ghost(k) }
}

/// lettre's `MultiPart::singlepart`: the part appended.
#[verifier::external_body]
fn push_single(m: Multi, p: Single) -> (res: Multi)
    ensures
        res.model() == push_part(m.model(), p.model()),
{
    let ghost k = push_part(m.model@, p.model@);
    Multi { m: m.m.singlepart(p.p), model: Ghost(k) }
}

/// lettre's `MultiPart::multipart`: the nested multipart appended.
#[verifier::external_body]
fn push_multi(m: Multi, p: Multi) -> (res: Multi)
    ensures
        res.model() == push_part(m.model(), p.model()),
{
    let ghost k = push_part(m.model@, p.model@);
    Multi { m: m.m.multipart(p.m), model: Ghost(k) }
}

/// lettre's `SinglePart::plain`: a `text/plain` part.
#[verifier::external_body]
fn plain_part(s: String) -> (res: Single)
    ensures
        res.model() == MimeModel::Plain(s@),
{
    let ghost k = MimeModel::Plain(s@);
    Single { p: SinglePart::plain(s), model: Ghost(k) }
}

/// lettre's `SinglePart::html`: a `text/html` part.
#[verifier::external_body]
fn html_part(s: String) -> (res: Single)
    ensures
        res.model() == MimeModel::Html(s@),
{
    let ghost k = MimeModel::Html(s@);
    Single { p: SinglePart::html(s), model: Ghost(k) }
}

/// lettre's `Attachment::new`: an attachment with this file name.
#[verifier::external_body]
fn attachment(name: String) -> (res: Attach)
    ensures
        !res.inline() && res.name() == name@,
{
    let ghost n = name@;
    Attach { a: Attachment::new(name), inline: Ghost(false), name: Ghost(n) }
}

/// lettre's `Attachment::new_inline`: an inline attachment with this
/// content id.
#[verifier::external_body]
fn inline_attachment(id: String) -> (res: Attach)
    ensures
        res.inline() && res.name() == id@,
{
    let ghost n = id@;
    Attach { a: Attachment::new_inline(id), inline: Ghost(true), name: Ghost(n) }
}

/// lettre's `Attachment::body`: the part that carries the data with this
/// content type.
#[verifier::external_body]
fn attachment_part(a: Attach, data: Vec<u8>, ct: ParsedType) -> (res: Single)
    ensures
        res.model() == MimeModel::File(a.inline(), a.name(), ct.text(), data@),
{
    let ghost k = MimeModel::File(a.inline@, a.name@, ct.text@, data@);
    Single { p: a.a.body(data, ct.ct), model: Ghost(k) }
}

/// lettre's `Message::formatted`: the bytes of the message as a transport
/// sends them. They carry the date of the build and random MIME boundaries,
/// so nothing is stated of them.
#[verifier::external_body]
fn formatted(m: &LettreMessage) -> Vec<u8> {
    m.m.formatted()
}

/// Whether lettre takes the content type of a file.
pub open spec fn file_accepted(f: FileView) -> bool {
    content_type_accepts(f.mime)
}

/// Whether lettre takes the content types of the files of a part.
pub open spec fn part_accepted(p: PartView) -> bool {
    match p {
        PartView::Alternative(_, _, files) => forall|i: int| 0 <= i < files.len() ==> #[trigger] file_accepted(files[i]),
        PartView::Attachment(f) => file_accepted(f),
        _ => true,
    }
}

/// Whether lettre takes every address and every content type of a message.
pub open spec fn plan_accepted(p: PlanView) -> bool {
    &&& mailbox_accepts(p.from)
    &&& (p.reply_to matches Some(r) ==> mailbox_accepts(r))
    &&& forall|i: int| 0 <= i < p.to.len() ==> #[trigger] mailbox_accepts(p.to[i])
    &&& forall|i: int| 0 <= i < p.cc.len() ==> #[trigger] mailbox_accepts(p.cc[i])
    &&& forall|i: int| 0 <= i < p.bcc.len() ==> #[trigger] mailbox_accepts(p.bcc[i])
    &&& forall|i: int| 0 <= i < p.parts.len() ==> #[trigger] part_accepted(p.parts[i])
}

/// The headers that a composed message hands to lettre: its id, its sender,
/// its reply-to address where it has one, its recipients and its subject.
pub open spec fn plan_headers(p: PlanView) -> HeaderModel {
    HeaderModel {
        message_id: Some(p.message_id),
        from: seq![p.from],
        reply_to: match p.reply_to {
            Some(r) => seq![r],
            None => Seq::empty(),
        },
        to: p.to,
        cc: p.cc,
        bcc: p.bcc,
        subject: Some(p.subject),
    }
}

/// The part that carries a file.
pub open spec fn file_mime(inline: bool, f: FileView) -> MimeModel {
    MimeModel::File(inline, f.name, f.mime, f.data)
}

/// The MIME part that a part of a composed message hands to lettre: an
/// HTML body with a plain text or inline files becomes a
/// `multipart/alternative` part of the text, then the HTML, which with
/// inline files forms a `multipart/related` part with them.
pub open spec fn part_mime(p: PartView) -> MimeModel {
    match p {
        PartView::Plain(t) => MimeModel::Plain(t),
        PartView::Html(h) => MimeModel::Html(h),
        PartView::Alternative(text, html, files) => MimeModel::Multi(
            MultiKind::Alternative,
            match text {
                Some(t) => seq![MimeModel::Plain(t)],
                None => Seq::empty(),
            } + if files.len() == 0 {
                seq![MimeModel::Html(html)]
            } else {
                seq![
                    MimeModel::Multi(
                        MultiKind::Related,
                        seq![MimeModel::Html(html)] + files.map_values(|f: FileView| file_mime(true, f)),
                    ),
                ]
            },
        ),
        PartView::Attachment(f) => file_mime(false, f),
    }
}

/// The body that a composed message hands to lettre: an empty plain body
/// where it has no parts, else a `multipart/mixed` body of its parts in
/// order.
pub open spec fn plan_body(p: PlanView) -> BodyModel {
    if p.parts.len() == 0 {
        BodyModel::Text(Seq::empty())
    } else {
        BodyModel::Mime(MimeModel::Multi(MultiKind::Mixed, p.parts.map_values(|x: PartView| part_mime(x))))
    }
}

/// Whether lettre builds a composed message: it takes every address and
/// content type, and the headers it is given (`body_accepted` without
/// parts, `multipart_accepted` with them).
pub open spec fn plan_builds(p: PlanView) -> bool {
    &&& plan_accepted(p)
    &&& if p.parts.len() == 0 {
        body_accepted(plan_headers(p).from, p.to, p.cc, p.bcc)
    } else {
        multipart_accepted(plan_headers(p).from, p.to, p.cc, p.bcc)
    }
}

/// A header that lists recipients.
enum Recipients {
    To,
    Cc,
    Bcc,
}

/// The header model with texts added to the recipients of `field`.
spec fn add_recipients(h: HeaderModel, field: Recipients, s: Seq<Seq<char>>) -> HeaderModel {
    match field {
        Recipients::To => HeaderModel { to: h.to + s, ..h },
        Recipients::Cc => HeaderModel { cc: h.cc + s, ..h },
        Recipients::Bcc => HeaderModel { bcc: h.bcc + s, ..h },
    }
}

/// The addresses of a list added to the header `field`, in order; `None`
/// where one does not parse.
fn add_mailboxes(b: Builder, list: &Vec<String>, field: Recipients) -> (res: Option<Builder>)
    ensures
        res is Some <==> forall|i: int| 0 <= i < list.len() ==> #[trigger] mailbox_accepts(list@[i]@),
        res matches Some(r) ==> r.model() == add_recipients(b.model(), field, strs(list@)),
{
    let ghost start = b.model();
    let mut b = b;
    let mut i: usize = 0;
    assert(strs(list@.subrange(0, 0)) =~= Seq::<Seq<char>>::empty());
    assert(add_recipients(start, field, Seq::empty()) == start) by {
        assert(start.to + Seq::<Seq<char>>::empty() =~= start.to);
        assert(start.cc + Seq::<Seq<char>>::empty() =~= start.cc);
        assert(start.bcc + Seq::<Seq<char>>::empty() =~= start.bcc);
    }
    while i < list.len()
        invariant
            i <= list.len(),
            forall|j: int| 0 <= j < i ==> #[trigger] mailbox_accepts(list@[j]@),
            b.model() == add_recipients(start, field, strs(list@.subrange(0, i as int))),
        decreases list.len() - i,
    {
        let m = match mailbox_parse(list[i].as_str()) {
            Some(m) => m,
            None => return None,
        };
        let ghost before = strs(list@.subrange(0, i as int));
        b = match field {
            Recipients::To => with_to(b, m),
            Recipients::Cc => with_cc(b, m),
            Recipients::Bcc => with_bcc(b, m),
        };
        proof {
            let after = strs(list@.subrange(0, i + 1));
            assert(after =~= before.push(list@[i as int]@));
            assert(start.to + before.push(list@[i as int]@) =~= (start.to + before).push(list@[i as int]@));
            assert(start.cc + before.push(list@[i as int]@) =~= (start.cc + before).push(list@[i as int]@));
            assert(start.bcc + before.push(list@[i as int]@) =~= (start.bcc + before).push(list@[i as int]@));
        }
        i = i + 1;
    }
    assert(list@.subrange(0, i as int) =~= list@);
    Some(b)
}

/// The part that carries a file, inline (by its name as content id) or
/// attached; `None` where its content type does not parse.
fn file_part(f: &MailFile, inline: bool) -> (res: Option<Single>)
    ensures
        res is Some <==> file_accepted(f.view()),
        res matches Some(p) ==> p.model() == file_mime(inline, f.view()),
{
    let ct = match content_type_parse(f.mime.as_str()) {
        Some(ct) => ct,
        None => return None,
    };
    let a = if inline {
        inline_attachment(f.name.clone())
    } else {
        attachment(f.name.clone())
    };
    Some(attachment_part(a, f.data.clone(), ct))
}

/// The `multipart/alternative` part of an HTML body: the plain text first
/// where there is one, then the HTML, which with inline files forms a
/// `multipart/related` part.
fn alternative_part(text: &Option<String>, html: &String, files: &Vec<MailFile>) -> (res: Option<Multi>)
    ensures
        res is Some <==> forall|i: int| 0 <= i < files.len() ==> #[trigger] file_accepted(files@[i].view()),
        res matches Some(m) ==> m.model() == part_mime(
            PartView::Alternative(
                match text {
                    Some(t) => Some(t@),
                    None => None,
                },
                html@,
                files@.map_values(|x: MailFile| x.view()),
            ),
        ),
{
    let ghost fv = files@.map_values(|x: MailFile| x.view());
    let ghost first: Seq<MimeModel> = match text {
        Some(t) => seq![MimeModel::Plain(t@)],
        None => Seq::empty(),
    };
    let mut alt = build_multipart(alternative_builder());
    if let Some(t) = text {
        alt = push_single(alt, plain_part(t.clone()));
    }
    assert(alt.model() == MimeModel::Multi(MultiKind::Alternative, first)) by {
        if text is Some {
            assert(Seq::<MimeModel>::empty().push(MimeModel::Plain(text->0@)) =~= first);
        }
    }
    if files.len() == 0 {
        let res = push_single(alt, html_part(html.clone()));
        assert(first.push(MimeModel::Html(html@)) =~= first + seq![MimeModel::Html(html@)]);
        return Some(res);
    }
    let mut related = push_single(build_multipart(related_builder()), html_part(html.clone()));
    assert(Seq::<MimeModel>::empty().push(MimeModel::Html(html@)) =~= seq![MimeModel::Html(html@)]);
    let mut i: usize = 0;
    while i < files.len()
        invariant
            i <= files.len(),
            fv == files@.map_values(|x: MailFile| x.view()),
            forall|j: int| 0 <= j < i ==> #[trigger] file_accepted(files@[j].view()),
            related.model() == MimeModel::Multi(
                MultiKind::Related,
                seq![MimeModel::Html(html@)] + fv.subrange(0, i as int).map_values(|f: FileView| file_mime(true, f)),
            ),
        decreases files.len() - i,
    {
        let ghost before = fv.subrange(0, i as int).map_values(|f: FileView| file_mime(true, f));
        match file_part(&files[i], true) {
            Some(p) => {
                related = push_single(related, p);
            },
            None => return None,
        }
        proof {
            let after = fv.subrange(0, i + 1).map_values(|f: FileView| file_mime(true, f));
            assert(after =~= before.push(file_mime(true, files@[i as int].view())));
            assert((seq![MimeModel::Html(html@)] + before).push(file_mime(true, files@[i as int].view()))
                =~= seq![MimeModel::Html(html@)] + after);
        }
        i = i + 1;
    }
    assert(fv.subrange(0, i as int) =~= fv);
    let res = push_multi(alt, related);
    proof {
        let rel = MimeModel::Multi(
            MultiKind::Related,
            seq![MimeModel::Html(html@)] + fv.map_values(|f: FileView| file_mime(true, f)),
        );
        assert(first.push(rel) =~= first + seq![rel]);
    }
    Some(res)
}

impl Mail {
    /// Builds a composed message with lettre: the `Message-ID`, `From`,
    /// `Reply-To`, `To`, `Cc`, `Bcc` and `Subject` headers, then a
    /// `multipart/mixed` body of the parts in order (an empty body where
    /// there are none). `None` exactly where lettre refuses an address, a
    /// content type or the message; never without a recipient.
    pub fn build_message(plan: &MailPlan) -> (res: Option<LettreMessage>)
        ensures
            res is Some <==> plan_builds(plan.view()),
            plan.to.len() + plan.cc.len() + plan.bcc.len() == 0 ==> res is None,
            res matches Some(m) ==> m.headers() == plan_headers(plan.view()) && m.body() == plan_body(plan.view()),
    {
        let ghost pv = plan.view();
        let from = match mailbox_parse(plan.from.as_str()) {
            Some(m) => m,
            None => return None,
        };
        let mut b = with_from(with_message_id(message_builder(), plan.message_id.clone()), from);
        assert(Seq::<Seq<char>>::empty().push(plan.from@) =~= seq![plan.from@]);
        if let Some(r) = &plan.reply_to {
            match mailbox_parse(r.as_str()) {
                Some(m) => {
                    b = with_reply_to(b, m);
                    assert(Seq::<Seq<char>>::empty().push(r@) =~= seq![r@]);
                },
                None => return None,
            }
        }
        b = match add_mailboxes(b, &plan.to, Recipients::To) {
            Some(b) => b,
            None => {
                proof {
                    let k = choose|k: int| 0 <= k < plan.to.len() && !#[trigger] mailbox_accepts(plan.to@[k]@);
                    assert(pv.to[k] == plan.to@[k]@);
                }
                return None;
            },
        };
        b = match add_mailboxes(b, &plan.cc, Recipients::Cc) {
            Some(b) => b,
            None => {
                proof {
                    let k = choose|k: int| 0 <= k < plan.cc.len() && !#[trigger] mailbox_accepts(plan.cc@[k]@);
                    assert(pv.cc[k] == plan.cc@[k]@);
                }
                return None;
            },
        };
        b = match add_mailboxes(b, &plan.bcc, Recipients::Bcc) {
            Some(b) => b,
            None => {
                proof {
                    let k = choose|k: int| 0 <= k < plan.bcc.len() && !#[trigger] mailbox_accepts(plan.bcc@[k]@);
                    assert(pv.bcc[k] == plan.bcc@[k]@);
                }
                return None;
            },
        };
        b = with_subject(b, plan.subject.clone());
        assert(Seq::<Seq<char>>::empty() + pv.to =~= pv.to);
        assert(Seq::<Seq<char>>::empty() + pv.cc =~= pv.cc);
        assert(Seq::<Seq<char>>::empty() + pv.bcc =~= pv.bcc);
        assert(b.model() == plan_headers(pv));
        if plan.parts.len() == 0 {
            return finish_with_body(b, String::new());
        }
        let ghost parts = pv.parts;
        let mut mixed = build_multipart(mixed_builder());
        let mut i: usize = 0;
        assert(parts.subrange(0, 0).map_values(|x: PartView| part_mime(x)) =~= Seq::<MimeModel>::empty());
        while i < plan.parts.len()
            invariant
                i <= plan.parts.len(),
                parts == pv.parts,
                pv == plan.view(),
                forall|j: int| 0 <= j < i ==> #[trigger] part_accepted(parts[j]),
                mixed.model() == MimeModel::Multi(
                    MultiKind::Mixed,
                    parts.subrange(0, i as int).map_values(|x: PartView| part_mime(x)),
                ),
            decreases plan.parts.len() - i,
        {
            let ghost before = parts.subrange(0, i as int).map_values(|x: PartView| part_mime(x));
            assert(parts[i as int] == plan.parts@[i as int].view());
            mixed = match &plan.parts[i] {
                MailPart::Plain(t) => push_single(mixed, plain_part(t.clone())),
                MailPart::Html(h) => push_single(mixed, html_part(h.clone())),
                MailPart::Alternative(text, html, files) => match alternative_part(text, html, files) {
                    Some(alt) => push_multi(mixed, alt),
                    None => {
                        proof {
                            let k = choose|k: int| 0 <= k < files.len() && !#[trigger] file_accepted(files@[k].view());
                            let fv = files@.map_values(|x: MailFile| x.view());
                            assert(fv[k] == files@[k].view());
                            assert(!part_accepted(parts[i as int]));
                        }
                        return None;
                    },
                },
                MailPart::Attachment(f) => match file_part(f, false) {
                    Some(p) => push_single(mixed, p),
                    None => {
                        assert(!part_accepted(parts[i as int]));
                        return None;
                    },
                },
            };
            proof {
                let after = parts.subrange(0, i + 1).map_values(|x: PartView| part_mime(x));
                assert(after =~= before.push(part_mime(parts[i as int])));
                match plan.parts@[i as int] {
                    MailPart::Alternative(_, _, files) => {
                        let fv = files@.map_values(|x: MailFile| x.view());
                        assert forall|k: int| 0 <= k < fv.len() implies #[trigger] file_accepted(fv[k]) by {
                            assert(fv[k] == files@[k].view());
                        }
                    },
                    _ => {},
                }
                assert(part_accepted(parts[i as int]));
            }
            i = i + 1;
        }
        assert(parts.subrange(0, i as int) =~= parts);
        finish_with_parts(b, mixed)
    }

    /// Builds a composed message with lettre (see `build_message`) and gives
    /// its bytes as a transport sends them. `None` exactly where lettre
    /// refuses an address, a content type or the message, and never without
    /// a recipient. The bytes carry the date of the build and random MIME
    /// boundaries, so nothing more is stated of them.
    pub fn message_bytes(plan: &MailPlan) -> (res: Option<Vec<u8>>)
        ensures
            res is Some <==> plan_builds(plan.view()),
            plan.to.len() + plan.cc.len() + plan.bcc.len() == 0 ==> res is None,
    {
        match Mail::build_message(plan) {
            Some(m) => Some(formatted(&m)),
            None => None,
        }
    }
}

} // verus!
