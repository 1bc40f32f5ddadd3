//! Building the message a composed mail is sent as.
//!
//! To and Cc become headers. Bcc never becomes one: bcc recipients ride only
//! in the envelope, so no copy of the message can name them.

use vstd::prelude::*;
use crate::mailto::{address_list, addresses};
use crate::model::{views, views_push, OutgoingMail, OutgoingView};
use crate::path::{extension, extension_of_path, file_name, file_name_of};
use crate::text::{ascii_lower, lower, opt_text, same, texts, texts_push};

verus! {

// ---------------------------------------------------------------------------
// Addresses

/// A mailbox: a display name, if it has one, and an address.
#[derive(Debug, Clone, PartialEq)]
pub struct Recipient {
    pub name: Option<String>,
    pub address: String,
}

#[verifier::ext_equal]
pub ghost struct RecipientView {
    pub name: Option<Seq<char>>,
    pub address: Seq<char>,
}

impl View for Recipient {
    type V = RecipientView;

    open spec fn view(&self) -> RecipientView {
        RecipientView { name: opt_text(self.name), address: self.address@ }
    }
}

/// The mailbox a text names, or why it names none.
pub uninterp spec fn mailbox_of(s: Seq<char>) -> Result<RecipientView, Seq<char>>;

pub open spec fn parsed_view(r: Result<Recipient, String>) -> Result<RecipientView, Seq<char>> {
    match r {
        Ok(m) => Ok(m@),
        Err(e) => Err(e@),
    }
}

/// `str::parse` for `lettre::message::Mailbox`, as its name and address, or
/// the text of its error. The contract claims no more than that this depends
/// on the text alone.
#[verifier::external_body]
fn parse_mailbox(s: &str) -> (r: Result<Recipient, String>)
    ensures
        parsed_view(r) == mailbox_of(s@),
{
    match s.parse::<lettre::message::Mailbox>() {
        Ok(m) => Ok(Recipient { name: m.name, address: m.email.to_string() }),
        Err(e) => Err(e.to_string()),
    }
}

/// An address as it was typed, and what it was read as.
#[derive(Debug, PartialEq)]
pub struct ParsedAddress {
    pub text: String,
    pub result: Result<Recipient, String>,
}

#[verifier::ext_equal]
pub ghost struct ParsedAddressView {
    pub text: Seq<char>,
    pub result: Result<RecipientView, Seq<char>>,
}

impl View for ParsedAddress {
    type V = ParsedAddressView;

    open spec fn view(&self) -> ParsedAddressView {
        ParsedAddressView { text: self.text@, result: parsed_view(self.result) }
    }
}

pub open spec fn parsed_list(ts: Seq<Seq<char>>) -> Seq<ParsedAddressView> {
    ts.map_values(|t: Seq<char>| ParsedAddressView { text: t, result: mailbox_of(t) })
}

/// The first address of a field that is none.
pub open spec fn first_invalid(label: Seq<char>, list: Seq<ParsedAddressView>) -> Option<Seq<char>>
    decreases list.len(),
{
    if list.len() == 0 {
        None
    } else {
        match list[0].result {
            Err(e) => Some("Invalid "@ + label + " address "@ + list[0].text + ": "@ + e),
            Ok(_) => first_invalid(label, list.drop_first()),
        }
    }
}

/// The addresses of a field, without names.
pub open spec fn bare_addresses(list: Seq<ParsedAddressView>) -> Seq<Seq<char>> {
    list.map_values(
        |a: ParsedAddressView|
            match a.result {
                Ok(m) => m.address,
                Err(_) => Seq::empty(),
            },
    )
}

/// Whom a mail is delivered to, or why it cannot be.
pub open spec fn delivery(
    from: Result<RecipientView, Seq<char>>,
    to: Seq<ParsedAddressView>,
    cc: Seq<ParsedAddressView>,
    bcc: Seq<ParsedAddressView>,
) -> Result<Seq<Seq<char>>, Seq<char>> {
    if from is Err {
        Err("Invalid From address: "@ + from->Err_0)
    } else if let Some(e) = first_invalid("To"@, to) {
        Err(e)
    } else if let Some(e) = first_invalid("Cc"@, cc) {
        Err(e)
    } else if let Some(e) = first_invalid("Bcc"@, bcc) {
        Err(e)
    } else if to.len() == 0 && cc.len() == 0 && bcc.len() == 0 {
        Err("No recipients"@)
    } else {
        Ok(bare_addresses(to) + bare_addresses(cc) + bare_addresses(bcc))
    }
}

fn find_invalid(label: &str, list: &Vec<ParsedAddress>) -> (r: Option<String>)
    ensures
        opt_text(r) == first_invalid(label@, views(list@)),
        r is None ==> forall|i: int|
            0 <= i < list@.len() ==> (#[trigger] views(list@)[i]).result is Ok,
{
    let ghost all = views(list@);
    let mut i: usize = 0;
    assert(all.skip(0) =~= all);
    while i < list.len()
        invariant
            i <= list@.len(),
            all == views(list@),
            first_invalid(label@, all) == first_invalid(label@, all.skip(i as int)),
            forall|k: int| 0 <= k < i ==> (#[trigger] all[k]).result is Ok,
        decreases list@.len() - i,
    {
        assert(all.skip(i as int)[0] == list@[i as int]@);
        if let Err(e) = &list[i].result {
            let mut out = "Invalid ".to_owned();
            out.append(label);
            out.append(" address ");
            out.append(list[i].text.as_str());
            out.append(": ");
            out.append(e.as_str());
            return Some(out);
        }
        assert(all.skip(i as int).drop_first() =~= all.skip(i + 1));
        i = i + 1;
    }
    None
}

fn push_addresses(out: &mut Vec<String>, list: &Vec<ParsedAddress>)
    ensures
        texts(final(out)@) == texts(old(out)@) + bare_addresses(views(list@)),
{
    let ghost start = texts(out@);
    let ghost more = bare_addresses(views(list@));
    let mut i: usize = 0;
    assert(start + more.take(0) =~= start);
    while i < list.len()
        invariant
            i <= list@.len(),
            more == bare_addresses(views(list@)),
            texts(out@) == start + more.take(i as int),
        decreases list@.len() - i,
    {
        broadcast use texts_push;

        let a = match &list[i].result {
            Ok(m) => m.address.clone(),
            Err(_) => {
                let empty = String::new();
                assert(empty@ =~= Seq::<char>::empty());
                empty
            },
        };
        out.push(a);
        assert(more[i as int] == out@.last()@);
        assert(start + more.take(i + 1) =~= (start + more.take(i as int)).push(more[i as int]));
        i = i + 1;
    }
    assert(more.take(i as int) =~= more);
}

/// Decide whom a mail is delivered to, once its addresses are read.
pub fn delivery_list(
    from: &Result<Recipient, String>,
    to: &Vec<ParsedAddress>,
    cc: &Vec<ParsedAddress>,
    bcc: &Vec<ParsedAddress>,
) -> (r: Result<Vec<String>, String>)
    ensures
        delivery(parsed_view(*from), views(to@), views(cc@), views(bcc@)) == (match r {
            Ok(v) => Ok(texts(v@)),
            Err(e) => Err(e@),
        }),
{
    if let Err(e) = from {
        let mut out = "Invalid From address: ".to_owned();
        out.append(e.as_str());
        return Err(out);
    }
    if let Some(e) = find_invalid("To", to) {
        return Err(e);
    }
    if let Some(e) = find_invalid("Cc", cc) {
        return Err(e);
    }
    if let Some(e) = find_invalid("Bcc", bcc) {
        return Err(e);
    }
    if to.len() == 0 && cc.len() == 0 && bcc.len() == 0 {
        return Err("No recipients".to_owned());
    }
    let mut out: Vec<String> = Vec::new();
    push_addresses(&mut out, to);
    push_addresses(&mut out, cc);
    push_addresses(&mut out, bcc);
    proof {
        let a = bare_addresses(views(to@));
        assert(Seq::<Seq<char>>::empty() + a =~= a);
        assert(texts(Seq::<String>::empty()) =~= Seq::empty());
    }
    Ok(out)
}

/// The addresses of a field, each read.
fn parse_field(field: &str) -> (r: Vec<ParsedAddress>)
    ensures
        views(r@) == parsed_list(address_list(field@)),
{
    let ts = addresses(field);
    let ghost all = parsed_list(texts(ts@));
    let mut out: Vec<ParsedAddress> = Vec::new();
    let mut i: usize = 0;
    while i < ts.len()
        invariant
            i <= ts@.len(),
            all == parsed_list(texts(ts@)),
            views(out@) =~= all.take(i as int),
        decreases ts@.len() - i,
    {
        broadcast use views_push;

        let result = parse_mailbox(ts[i].as_str());
        let a = ParsedAddress { text: ts[i].clone(), result };
        assert(all[i as int] == a@);
        out.push(a);
        assert(all.take(i + 1) =~= all.take(i as int).push(all[i as int]));
        i = i + 1;
    }
    assert(all.take(i as int) =~= all);
    out
}

// ---------------------------------------------------------------------------
// Attachments

/// Content type for an attachment, by extension. Anything unlisted is
/// `application/octet-stream`, which every receiver treats as "download it".
pub open spec fn content_type_of(path: Seq<char>) -> Seq<char> {
    match extension(path) {
        Some(e) => {
            let ext = lower(e);
            if ext == "png"@ {
                "image/png"@
            } else if ext == "jpg"@ || ext == "jpeg"@ {
                "image/jpeg"@
            } else if ext == "gif"@ {
                "image/gif"@
            } else if ext == "webp"@ {
                "image/webp"@
            } else if ext == "svg"@ {
                "image/svg+xml"@
            } else if ext == "pdf"@ {
                "application/pdf"@
            } else if ext == "txt"@ || ext == "md"@ || ext == "log"@ {
                "text/plain"@
            } else if ext == "html"@ || ext == "htm"@ {
                "text/html"@
            } else if ext == "json"@ {
                "application/json"@
            } else if ext == "zip"@ {
                "application/zip"@
            } else if ext == "gz"@ || ext == "tgz"@ {
                "application/gzip"@
            } else {
                "application/octet-stream"@
            }
        },
        None => "application/octet-stream"@,
    }
}

pub fn attachment_content_type(path: &str) -> (r: &'static str)
    ensures
        r@ == content_type_of(path@),
{
    let ext = match extension_of_path(path) {
        Some(e) => ascii_lower(e.as_str()),
        None => {
            return "application/octet-stream";
        },
    };
    let e = ext.as_str();
    if same(e, "png") {
        "image/png"
    } else if same(e, "jpg") || same(e, "jpeg") {
        "image/jpeg"
    } else if same(e, "gif") {
        "image/gif"
    } else if same(e, "webp") {
        "image/webp"
    } else if same(e, "svg") {
        "image/svg+xml"
    } else if same(e, "pdf") {
        "application/pdf"
    } else if same(e, "txt") || same(e, "md") || same(e, "log") {
        "text/plain"
    } else if same(e, "html") || same(e, "htm") {
        "text/html"
    } else if same(e, "json") {
        "application/json"
    } else if same(e, "zip") {
        "application/zip"
    } else if same(e, "gz") || same(e, "tgz") {
        "application/gzip"
    } else {
        "application/octet-stream"
    }
}

/// The name an attachment is sent under.
pub open spec fn sent_name(path: Seq<char>) -> Seq<char> {
    match file_name(path) {
        Some(n) => n,
        None => "attachment"@,
    }
}

pub fn attachment_name(path: &str) -> (r: String)
    ensures
        r@ == sent_name(path@),
{
    match file_name_of(path) {
        Some(n) => n,
        None => "attachment".to_owned(),
    }
}

// ---------------------------------------------------------------------------
// The message and its parts, as the `lettre` crate keeps them

#[verifier::external_type_specification]
#[verifier::external_body]
pub struct ExEnvelope(lettre::address::Envelope);

#[verifier::external_type_specification]
#[verifier::external_body]
pub struct ExMessageBuilder(lettre::message::MessageBuilder);

#[verifier::external_type_specification]
#[verifier::external_body]
pub struct ExMultiPart(lettre::message::MultiPart);

#[verifier::external_type_specification]
#[verifier::external_body]
pub struct ExMessage(lettre::Message);

/// The sender an envelope names, if it names one.
pub uninterp spec fn envelope_from(e: lettre::address::Envelope) -> Option<Seq<char>>;

/// The recipients an envelope lists.
pub uninterp spec fn envelope_to(e: lettre::address::Envelope) -> Seq<Seq<char>>;

/// The headers a builder holds: their raw values, by name.
pub uninterp spec fn builder_headers(b: lettre::message::MessageBuilder) -> Map<
    Seq<char>,
    Seq<char>,
>;

/// The sender a builder was given, if it was given one.
pub uninterp spec fn builder_from(b: lettre::message::MessageBuilder) -> Option<Seq<char>>;

/// The recipients a builder was given.
pub uninterp spec fn builder_to(b: lettre::message::MessageBuilder) -> Seq<Seq<char>>;

/// The parts of a multipart body, each as it is written.
pub uninterp spec fn parts_of(m: lettre::message::MultiPart) -> Seq<Seq<u8>>;

/// The headers a message holds: their raw values, by name.
pub uninterp spec fn message_headers(m: lettre::Message) -> Map<Seq<char>, Seq<char>>;

/// The sender a message is delivered for, if there is one.
pub uninterp spec fn message_from(m: lettre::Message) -> Option<Seq<char>>;

/// The recipients a message is delivered to.
pub uninterp spec fn message_to(m: lettre::Message) -> Seq<Seq<char>>;

/// The body of a message: its parts, or the one body it has.
pub uninterp spec fn message_parts(m: lettre::Message) -> Seq<Seq<u8>>;

/// The value of a From header with one mailbox.
pub uninterp spec fn from_header(mailbox: Seq<char>) -> Seq<char>;

/// The value of a To header after a mailbox was added to what it was.
pub uninterp spec fn to_header(before: Option<Seq<char>>, mailbox: Seq<char>) -> Seq<char>;

/// The value of a Cc header after a mailbox was added to what it was.
pub uninterp spec fn cc_header(before: Option<Seq<char>>, mailbox: Seq<char>) -> Seq<char>;

/// A plain text part as it is written.
pub uninterp spec fn plain_part(text: Seq<char>) -> Seq<u8>;

/// An attachment part as it is written.
pub uninterp spec fn attachment_part(
    name: Seq<char>,
    content_type: Seq<char>,
    bytes: Seq<u8>,
) -> Seq<u8>;

/// Why a text is no content type, if it is none.
pub uninterp spec fn content_type_problem(content_type: Seq<char>) -> Option<Seq<char>>;

/// A text body as it is written.
pub uninterp spec fn encoded_body(text: Seq<char>) -> Seq<u8>;

/// Why a message with this From and Sender and a text body cannot be built, if
/// it cannot.
pub uninterp spec fn body_problem(
    from: Option<Seq<char>>,
    sender: Option<Seq<char>>,
) -> Option<Seq<char>>;

/// Why a message with this From and Sender and a multipart body cannot be
/// built, if it cannot.
pub uninterp spec fn multipart_problem(
    from: Option<Seq<char>>,
    sender: Option<Seq<char>>,
) -> Option<Seq<char>>;

/// A header's value, if it is there.
pub open spec fn header_in(h: Map<Seq<char>, Seq<char>>, name: Seq<char>) -> Option<Seq<char>> {
    if h.contains_key(name) {
        Some(h[name])
    } else {
        None
    }
}

pub open spec fn all_mailboxes(ts: Seq<Seq<char>>) -> bool {
    forall|i: int| 0 <= i < ts.len() ==> mailbox_of(#[trigger] ts[i]) is Ok
}

pub open spec fn mailbox_addresses(ts: Seq<Seq<char>>) -> Seq<Seq<char>> {
    ts.map_values(|t: Seq<char>| mailbox_of(t)->Ok_0.address)
}

/// `lettre::address::Envelope::new`, with the addresses of mailboxes given as
/// text: an envelope that names the sender's and lists the recipients' in
/// order. It fails only where there is no recipient.
#[verifier::external_body]
fn make_envelope(from: &str, to: &Vec<String>) -> (r: Result<lettre::address::Envelope, String>)
    requires
        mailbox_of(from@) is Ok,
        all_mailboxes(texts(to@)),
    ensures
        match r {
            Ok(e) => to@.len() > 0 && envelope_from(e) == Some(mailbox_of(from@)->Ok_0.address)
                && envelope_to(e) == mailbox_addresses(texts(to@)),
            Err(_) => to@.len() == 0,
        },
{
    let address = |s: &str| s.parse::<lettre::message::Mailbox>().expect("a mailbox").email;
    let list = to.iter().map(|s| address(s)).collect();
    lettre::address::Envelope::new(Some(address(from)), list).map_err(|e| e.to_string())
}

pub open spec fn no_headers() -> Map<Seq<char>, Seq<char>> {
    Map::empty()
}

/// `lettre::Message::builder`: no headers, no sender, no recipients.
#[verifier::external_body]
fn new_builder() -> (r: lettre::message::MessageBuilder)
    ensures
        builder_headers(r) == no_headers(),
        builder_from(r) is None,
        builder_to(r) == Seq::<Seq<char>>::empty(),
{
    lettre::Message::builder()
}

/// `MessageBuilder::from` on a builder without a From header, for a mailbox
/// given as text: sets From to a value that depends on the mailbox alone.
#[verifier::external_body]
fn add_from(b: lettre::message::MessageBuilder, mailbox: &str) -> (r: lettre::message::MessageBuilder)
    requires
        mailbox_of(mailbox@) is Ok,
        !builder_headers(b).contains_key("From"@),
    ensures
        builder_headers(r) == builder_headers(b).insert("From"@, from_header(mailbox@)),
        builder_from(r) == builder_from(b),
        builder_to(r) == builder_to(b),
{
    b.from(mailbox.parse().expect("a mailbox"))
}

/// `MessageBuilder::envelope`: the envelope is what the message is delivered
/// by.
#[verifier::external_body]
fn set_envelope(
    b: lettre::message::MessageBuilder,
    e: lettre::address::Envelope,
) -> (r: lettre::message::MessageBuilder)
    ensures
        builder_headers(r) == builder_headers(b),
        builder_from(r) == envelope_from(e),
        builder_to(r) == envelope_to(e),
{
    b.envelope(e)
}

/// `MessageBuilder::subject`: sets Subject to the text.
#[verifier::external_body]
fn set_subject(
    b: lettre::message::MessageBuilder,
    subject: &str,
) -> (r: lettre::message::MessageBuilder)
    ensures
        builder_headers(r) == builder_headers(b).insert("Subject"@, subject@),
        builder_from(r) == builder_from(b),
        builder_to(r) == builder_to(b),
{
    b.subject(subject)
}

/// `MessageBuilder::to`, for a mailbox given as text: adds it to the To
/// header, whose new value depends on the old one and the mailbox alone.
#[verifier::external_body]
fn add_to(b: lettre::message::MessageBuilder, mailbox: &str) -> (r: lettre::message::MessageBuilder)
    requires
        mailbox_of(mailbox@) is Ok,
    ensures
        builder_headers(r) == builder_headers(b).insert(
            "To"@,
            to_header(header_in(builder_headers(b), "To"@), mailbox@),
        ),
        builder_from(r) == builder_from(b),
        builder_to(r) == builder_to(b),
{
    b.to(mailbox.parse().expect("a mailbox"))
}

/// `MessageBuilder::cc`, for a mailbox given as text: adds it to the Cc
/// header, whose new value depends on the old one and the mailbox alone.
#[verifier::external_body]
fn add_cc(b: lettre::message::MessageBuilder, mailbox: &str) -> (r: lettre::message::MessageBuilder)
    requires
        mailbox_of(mailbox@) is Ok,
    ensures
        builder_headers(r) == builder_headers(b).insert(
            "Cc"@,
            cc_header(header_in(builder_headers(b), "Cc"@), mailbox@),
        ),
        builder_from(r) == builder_from(b),
        builder_to(r) == builder_to(b),
{
    b.cc(mailbox.parse().expect("a mailbox"))
}

/// `MultiPart::mixed` with one `SinglePart::plain`: a body of one text part,
/// which depends on the text alone.
#[verifier::external_body]
fn mixed_with_text(text: &str) -> (r: lettre::message::MultiPart)
    ensures
        parts_of(r) == seq![plain_part(text@)],
{
    let part = lettre::message::SinglePart::plain(text.to_string());
    lettre::message::MultiPart::mixed().singlepart(part)
}

/// `MultiPart::singlepart` with an `Attachment` of a `ContentType::parse`d
/// type: appends a part that depends on name, type and contents alone. It
/// fails only where the type does not parse, which depends on its text alone.
#[verifier::external_body]
fn add_attachment(
    m: lettre::message::MultiPart,
    name: &str,
    content_type: &str,
    bytes: &Vec<u8>,
) -> (r: Result<lettre::message::MultiPart, String>)
    ensures
        match r {
            Ok(p) => content_type_problem(content_type@) is None && parts_of(p) == parts_of(m).push(
                attachment_part(name@, content_type@, bytes@),
            ),
            Err(e) => content_type_problem(content_type@) == Some(e@),
        },
{
    let parsed = lettre::message::header::ContentType::parse(content_type);
    let ct = parsed.map_err(|e| e.to_string())?;
    let part = lettre::message::Attachment::new(name.to_string()).body(bytes.clone(), ct);
    Ok(m.singlepart(part))
}

/// What building keeps of a builder's headers: From, To, Cc and Subject; and
/// what it does not add: Bcc.
pub open spec fn keeps_fields(h: Map<Seq<char>, Seq<char>>, k: Map<Seq<char>, Seq<char>>) -> bool {
    &&& header_in(k, "From"@) == header_in(h, "From"@)
    &&& header_in(k, "To"@) == header_in(h, "To"@)
    &&& header_in(k, "Cc"@) == header_in(h, "Cc"@)
    &&& header_in(k, "Subject"@) == header_in(h, "Subject"@)
    &&& header_in(h, "Bcc"@) is None ==> header_in(k, "Bcc"@) is None
}

/// Why a message was not built, if it was not.
pub open spec fn built_problem(r: Result<lettre::Message, String>) -> Option<Seq<char>> {
    match r {
        Ok(_) => None,
        Err(e) => Some(e@),
    }
}

/// `MessageBuilder::body` for a text, on a builder that was given recipients
/// and no transfer encoding: keeps its fields and adds a date and an encoding.
/// Whether it fails, and how, depends on From and Sender alone.
#[verifier::external_body]
fn build_with_text(
    b: lettre::message::MessageBuilder,
    text: &str,
) -> (r: Result<lettre::Message, String>)
    requires
        builder_to(b).len() > 0,
        !builder_headers(b).contains_key("Content-Transfer-Encoding"@),
    ensures
        r matches Ok(m) ==> keeps_fields(builder_headers(b), message_headers(m)) && message_from(m)
            == builder_from(b) && message_to(m) == builder_to(b) && message_parts(m) == seq![encoded_body(text@)],
        built_problem(r) == body_problem(
            header_in(builder_headers(b), "From"@),
            header_in(builder_headers(b), "Sender"@),
        ),
{
    b.body(text.to_string()).map_err(|e| e.to_string())
}

/// `MessageBuilder::multipart`, on a builder that was given recipients: keeps
/// its fields and adds a date and a version. Whether it fails, and how, depends
/// on From and Sender alone.
#[verifier::external_body]
fn build_with_parts(
    b: lettre::message::MessageBuilder,
    parts: lettre::message::MultiPart,
) -> (r: Result<lettre::Message, String>)
    requires
        builder_to(b).len() > 0,
    ensures
        r matches Ok(m) ==> keeps_fields(builder_headers(b), message_headers(m)) && message_from(m)
            == builder_from(b) && message_to(m) == builder_to(b) && message_parts(m) == parts_of(parts),
        built_problem(r) == multipart_problem(
            header_in(builder_headers(b), "From"@),
            header_in(builder_headers(b), "Sender"@),
        ),
{
    b.multipart(parts).map_err(|e| e.to_string())
}

// ---------------------------------------------------------------------------
// Building

/// An attachment's contents, or why they could not be read.
pub type FileContents = Result<Vec<u8>, String>;

/// The value of the To header for these mailboxes.
pub open spec fn to_value(ts: Seq<Seq<char>>) -> Option<Seq<char>>
    decreases ts.len(),
{
    if ts.len() == 0 {
        None
    } else {
        Some(to_header(to_value(ts.drop_last()), ts.last()))
    }
}

/// The value of the Cc header for these mailboxes.
pub open spec fn cc_value(ts: Seq<Seq<char>>) -> Option<Seq<char>>
    decreases ts.len(),
{
    if ts.len() == 0 {
        None
    } else {
        Some(cc_header(cc_value(ts.drop_last()), ts.last()))
    }
}

pub open spec fn with_header(
    h: Map<Seq<char>, Seq<char>>,
    name: Seq<char>,
    value: Option<Seq<char>>,
) -> Map<Seq<char>, Seq<char>> {
    match value {
        Some(v) => h.insert(name, v),
        None => h,
    }
}

/// The headers of a mail, before a date and its encoding join them.
pub open spec fn outgoing_headers(from: Seq<char>, mail: OutgoingView) -> Map<
    Seq<char>,
    Seq<char>,
> {
    let h = no_headers().insert("From"@, from_header(from)).insert("Subject"@, mail.subject);
    with_header(
        with_header(h, "To"@, to_value(address_list(mail.to))),
        "Cc"@,
        cc_value(address_list(mail.cc)),
    )
}

/// Whom a mail goes to, or why it cannot be sent.
pub open spec fn outgoing_delivery(from: Seq<char>, mail: OutgoingView) -> Result<
    Seq<Seq<char>>,
    Seq<char>,
> {
    delivery(
        mailbox_of(from),
        parsed_list(address_list(mail.to)),
        parsed_list(address_list(mail.cc)),
        parsed_list(address_list(mail.bcc)),
    )
}

/// Why the first `n` attachments cannot be attached, if one cannot.
pub open spec fn attachment_problem(
    paths: Seq<Seq<char>>,
    files: Seq<FileContents>,
    n: nat,
) -> Option<Seq<char>>
    decreases n,
{
    if n == 0 || n > paths.len() {
        None
    } else {
        match attachment_problem(paths, files, (n - 1) as nat) {
            Some(e) => Some(e),
            None => match files[n - 1] {
                Err(e) => Some("Cannot read "@ + paths[n - 1] + ": "@ + e@),
                Ok(_) => match content_type_problem(content_type_of(paths[n - 1])) {
                    Some(e) => Some("Bad content type: "@ + e),
                    None => None,
                },
            },
        }
    }
}

/// The body of a mail: its text alone, or its text and its attachments.
pub open spec fn outgoing_parts(mail: OutgoingView, files: Seq<FileContents>) -> Seq<Seq<u8>> {
    if mail.attachments.len() == 0 {
        seq![encoded_body(mail.body)]
    } else {
        parts_up_to(mail, files, mail.attachments.len())
    }
}

/// The text part and the first `n` attachments.
pub open spec fn parts_up_to(mail: OutgoingView, files: Seq<FileContents>, n: nat) -> Seq<
    Seq<u8>,
>
    decreases n,
{
    if n == 0 {
        seq![plain_part(mail.body)]
    } else {
        let path = mail.attachments[n - 1];
        parts_up_to(mail, files, (n - 1) as nat).push(
            attachment_part(sent_name(path), content_type_of(path), files[n - 1]->Ok_0@),
        )
    }
}

/// Why a mail cannot be built, if it cannot.
pub open spec fn outgoing_problem(
    from: Seq<char>,
    mail: OutgoingView,
    files: Seq<FileContents>,
) -> Option<Seq<char>> {
    match outgoing_delivery(from, mail) {
        Err(e) => Some(e),
        Ok(_) => {
            let late = if mail.attachments.len() == 0 {
                body_problem(Some(from_header(from)), None)
            } else {
                multipart_problem(Some(from_header(from)), None)
            };
            match attachment_problem(mail.attachments, files, mail.attachments.len()) {
                Some(e) => Some(e),
                None => match late {
                    Some(e) => Some("Failed to build message: "@ + e),
                    None => None,
                },
            }
        },
    }
}

/// What a built mail is.
pub open spec fn is_outgoing(
    m: lettre::Message,
    from: Seq<char>,
    mail: OutgoingView,
    files: Seq<FileContents>,
) -> bool {
    &&& message_from(m) == Some(mailbox_of(from)->Ok_0.address)
    &&& outgoing_delivery(from, mail) == Ok::<Seq<Seq<char>>, Seq<char>>(message_to(m))
    &&& keeps_fields(outgoing_headers(from, mail), message_headers(m))
    &&& header_in(message_headers(m), "Bcc"@) is None
    &&& message_parts(m) == outgoing_parts(mail, files)
}

proof fn lemma_all_valid(label: Seq<char>, ts: Seq<Seq<char>>)
    requires
        first_invalid(label, parsed_list(ts)) is None,
    ensures
        all_mailboxes(ts),
        bare_addresses(parsed_list(ts)) == mailbox_addresses(ts),
    decreases ts.len(),
{
    if ts.len() > 0 {
        let t = ts.drop_first();
        assert(parsed_list(ts).drop_first() =~= parsed_list(t));
        lemma_all_valid(label, t);
        assert forall|i: int| 0 <= i < ts.len() implies mailbox_of(#[trigger] ts[i]) is Ok by {
            if i > 0 {
                assert(t[i - 1] == ts[i]);
            } else {
                assert(parsed_list(ts)[0].result is Ok);
            }
        }
    }
    assert(bare_addresses(parsed_list(ts)) =~= mailbox_addresses(ts));
}

proof fn lemma_first_valid_parts(
    from: Seq<char>,
    mail: OutgoingView,
)
    requires
        outgoing_delivery(from, mail) is Ok,
    ensures
        mailbox_of(from) is Ok,
        all_mailboxes(address_list(mail.to)),
        all_mailboxes(address_list(mail.cc)),
        all_mailboxes(address_list(mail.bcc)),
        outgoing_delivery(from, mail)->Ok_0 == mailbox_addresses(address_list(mail.to))
            + mailbox_addresses(address_list(mail.cc)) + mailbox_addresses(
            address_list(mail.bcc),
        ),
        outgoing_delivery(from, mail)->Ok_0.len() > 0,
{
    lemma_all_valid("To"@, address_list(mail.to));
    lemma_all_valid("Cc"@, address_list(mail.cc));
    lemma_all_valid("Bcc"@, address_list(mail.bcc));
}

/// What tells the header names apart.
proof fn reveal_names()
    ensures
        "From"@.len() == 4,
        "To"@.len() == 2 && "To"@[0] == 'T',
        "Cc"@.len() == 2 && "Cc"@[0] == 'C',
        "Subject"@.len() == 7,
        "Bcc"@.len() == 3,
        "Sender"@.len() == 6,
        "Content-Transfer-Encoding"@.len() == 25,
{
    reveal_strlit("From");
    reveal_strlit("To");
    reveal_strlit("Cc");
    reveal_strlit("Subject");
    reveal_strlit("Bcc");
    reveal_strlit("Sender");
    reveal_strlit("Content-Transfer-Encoding");
}

fn add_all_to(
    b: lettre::message::MessageBuilder,
    ts: &Vec<String>,
) -> (r: lettre::message::MessageBuilder)
    requires
        all_mailboxes(texts(ts@)),
        !builder_headers(b).contains_key("To"@),
    ensures
        builder_headers(r) == with_header(builder_headers(b), "To"@, to_value(texts(ts@))),
        builder_from(r) == builder_from(b),
        builder_to(r) == builder_to(b),
{
    let ghost start = builder_headers(b);
    let ghost all = texts(ts@);
    let mut b = b;
    let ghost sender = builder_from(b);
    let ghost to = builder_to(b);
    let mut i: usize = 0;
    while i < ts.len()
        invariant
            i <= ts@.len(),
            all == texts(ts@),
            all_mailboxes(all),
            !start.contains_key("To"@),
            builder_headers(b) == with_header(start, "To"@, to_value(all.take(i as int))),
            builder_from(b) == sender,
            builder_to(b) == to,
        decreases ts@.len() - i,
    {
        let ghost h = builder_headers(b);
        assert(mailbox_of(all[i as int]) is Ok);
        b = add_to(b, ts[i].as_str());
        proof {
            assert(all.take(i + 1).drop_last() =~= all.take(i as int));
            assert(header_in(h, "To"@) == to_value(all.take(i as int)));
            assert(builder_headers(b) =~= with_header(start, "To"@, to_value(all.take(i + 1))));
        }
        i = i + 1;
    }
    assert(all.take(i as int) =~= all);
    b
}

fn add_all_cc(
    b: lettre::message::MessageBuilder,
    ts: &Vec<String>,
) -> (r: lettre::message::MessageBuilder)
    requires
        all_mailboxes(texts(ts@)),
        !builder_headers(b).contains_key("Cc"@),
    ensures
        builder_headers(r) == with_header(builder_headers(b), "Cc"@, cc_value(texts(ts@))),
        builder_from(r) == builder_from(b),
        builder_to(r) == builder_to(b),
{
    let ghost start = builder_headers(b);
    let ghost all = texts(ts@);
    let mut b = b;
    let ghost sender = builder_from(b);
    let ghost to = builder_to(b);
    let mut i: usize = 0;
    while i < ts.len()
        invariant
            i <= ts@.len(),
            all == texts(ts@),
            all_mailboxes(all),
            !start.contains_key("Cc"@),
            builder_headers(b) == with_header(start, "Cc"@, cc_value(all.take(i as int))),
            builder_from(b) == sender,
            builder_to(b) == to,
        decreases ts@.len() - i,
    {
        let ghost h = builder_headers(b);
        assert(mailbox_of(all[i as int]) is Ok);
        b = add_cc(b, ts[i].as_str());
        proof {
            assert(all.take(i + 1).drop_last() =~= all.take(i as int));
            assert(header_in(h, "Cc"@) == cc_value(all.take(i as int)));
            assert(builder_headers(b) =~= with_header(start, "Cc"@, cc_value(all.take(i + 1))));
        }
        i = i + 1;
    }
    assert(all.take(i as int) =~= all);
    b
}

fn build_parts(mail: &OutgoingMail, files: &Vec<FileContents>) -> (r: Result<
    lettre::message::MultiPart,
    String,
>)
    requires
        files@.len() == mail.attachments@.len(),
    ensures
        match r {
            Ok(m) => attachment_problem(mail@.attachments, files@, files@.len()) is None
                && parts_of(m) == parts_up_to(mail@, files@, files@.len()),
            Err(e) => attachment_problem(mail@.attachments, files@, files@.len()) == Some(e@),
        },
{
    let ghost paths = mail@.attachments;
    let mut parts = mixed_with_text(mail.body.as_str());
    let mut i: usize = 0;
    while i < mail.attachments.len()
        invariant
            i <= mail.attachments@.len(),
            files@.len() == mail.attachments@.len(),
            paths == mail@.attachments,
            attachment_problem(paths, files@, i as nat) is None,
            parts_of(parts) == parts_up_to(mail@, files@, i as nat),
        decreases mail.attachments@.len() - i,
    {
        let path = mail.attachments[i].as_str();
        assert(paths[i as int] == path@);
        match &files[i] {
            Err(e) => {
                let mut out = "Cannot read ".to_owned();
                out.append(path);
                out.append(": ");
                out.append(e.as_str());
                proof {
                    assert(attachment_problem(paths, files@, (i + 1) as nat) == Some(out@));
                    lemma_problem_stays(paths, files@, (i + 1) as nat, files@.len());
                }
                return Err(out);
            },
            Ok(bytes) => {
                let name = attachment_name(path);
                match add_attachment(parts, name.as_str(), attachment_content_type(path), bytes) {
                    Ok(more) => {
                        parts = more;
                    },
                    Err(e) => {
                        let mut out = "Bad content type: ".to_owned();
                        out.append(e.as_str());
                        proof {
                            assert(attachment_problem(paths, files@, (i + 1) as nat) == Some(out@));
                            lemma_problem_stays(paths, files@, (i + 1) as nat, files@.len());
                        }
                        return Err(out);
                    },
                }
            },
        }
        i = i + 1;
    }
    Ok(parts)
}

/// The first problem is the problem.
proof fn lemma_problem_stays(
    paths: Seq<Seq<char>>,
    files: Seq<FileContents>,
    k: nat,
    n: nat,
)
    requires
        k <= n <= paths.len(),
        attachment_problem(paths, files, k) is Some,
    ensures
        attachment_problem(paths, files, n) == attachment_problem(paths, files, k),
    decreases n,
{
    if k < n {
        lemma_problem_stays(paths, files, k, (n - 1) as nat);
    }
}

fn finish_build(r: Result<lettre::Message, String>) -> (out: Result<lettre::Message, String>)
    ensures
        match r {
            Ok(m) => out == Ok::<lettre::Message, String>(m),
            Err(e) => out matches Err(t) && t@ == "Failed to build message: "@ + e@,
        },
{
    match r {
        Ok(m) => Ok(m),
        Err(e) => {
            let mut out = "Failed to build message: ".to_owned();
            out.append(e.as_str());
            Err(out)
        },
    }
}

/// Build the message for a mail, whose attachments were read into `files`.
///
/// It is delivered for the sender's address to To, Cc and Bcc; its headers name
/// To and Cc alone.
pub fn build_outgoing(
    from: &str,
    mail: &OutgoingMail,
    files: &Vec<FileContents>,
) -> (r: Result<lettre::Message, String>)
    requires
        files@.len() == mail.attachments@.len(),
    ensures
        match r {
            Ok(m) => outgoing_problem(from@, mail@, files@) is None && is_outgoing(
                m,
                from@,
                mail@,
                files@,
            ),
            Err(e) => outgoing_problem(from@, mail@, files@) == Some(e@),
        },
{
    let sender = parse_mailbox(from);
    let to = parse_field(mail.to.as_str());
    let cc = parse_field(mail.cc.as_str());
    let bcc = parse_field(mail.bcc.as_str());
    if let Err(e) = delivery_list(&sender, &to, &cc, &bcc) {
        return Err(e);
    }
    proof {
        lemma_first_valid_parts(from@, mail@);
    }
    let to_texts = addresses(mail.to.as_str());
    let cc_texts = addresses(mail.cc.as_str());
    let mut all = addresses(mail.to.as_str());
    let mut more = addresses(mail.cc.as_str());
    let mut hidden = addresses(mail.bcc.as_str());
    let ghost a = texts(all@);
    let ghost b = texts(more@);
    let ghost c = texts(hidden@);
    all.append(&mut more);
    all.append(&mut hidden);
    proof {
        assert(texts(all@) =~= a + b + c);
        assert(mailbox_addresses(a + b + c) =~= mailbox_addresses(a) + mailbox_addresses(b)
            + mailbox_addresses(c));
        assert(mailbox_addresses(texts(all@)).len() == all@.len());
        assert(all_mailboxes(a + b + c)) by {
            assert forall|i: int| 0 <= i < (a + b + c).len() implies mailbox_of(
                #[trigger] (a + b + c)[i],
            ) is Ok by {
                if i < a.len() {
                    assert((a + b + c)[i] == a[i]);
                } else if i < a.len() + b.len() {
                    assert((a + b + c)[i] == b[i - a.len()]);
                } else {
                    assert((a + b + c)[i] == c[i - a.len() - b.len()]);
                }
            }
        }
    }
    let envelope = match make_envelope(from, &all) {
        Ok(e) => e,
        Err(e) => {
            let mut out = "Invalid envelope: ".to_owned();
            out.append(e.as_str());
            return Err(out);
        },
    };
    proof {
        reveal_names();
    }
    let b0 = add_from(new_builder(), from);
    let b1 = set_subject(set_envelope(b0, envelope), mail.subject.as_str());
    let b2 = add_all_to(b1, &to_texts);
    let b3 = add_all_cc(b2, &cc_texts);
    proof {
        assert(builder_headers(b3) =~= outgoing_headers(from@, mail@));
    }
    if mail.attachments.len() == 0 {
        finish_build(build_with_text(b3, mail.body.as_str()))
    } else {
        match build_parts(mail, files) {
            Ok(parts) => finish_build(build_with_parts(b3, parts)),
            Err(e) => Err(e),
        }
    }
}

// ---------------------------------------------------------------------------
// Laws

/// Bcc recipients get the mail, and nothing else of it knows of them: the
/// headers and the body are those of the same mail without a bcc.
pub proof fn bcc_is_delivered_but_never_named(
    from: Seq<char>,
    mail: OutgoingView,
    files: Seq<FileContents>,
    i: int,
)
    requires
        outgoing_delivery(from, mail) is Ok,
        0 <= i < address_list(mail.bcc).len(),
    ensures
        outgoing_delivery(from, mail)->Ok_0.contains(
            mailbox_of(address_list(mail.bcc)[i])->Ok_0.address,
        ),
        ({
            let open = OutgoingView { bcc: Seq::empty(), ..mail };
            outgoing_headers(from, mail) == outgoing_headers(from, open) && outgoing_parts(
                mail,
                files,
            ) == outgoing_parts(open, files)
        }),
{
    lemma_first_valid_parts(from, mail);
    let a = mailbox_addresses(address_list(mail.to));
    let b = mailbox_addresses(address_list(mail.cc));
    let c = mailbox_addresses(address_list(mail.bcc));
    let all = outgoing_delivery(from, mail)->Ok_0;
    assert(all[a.len() + b.len() + i] == c[i]);
    let open = OutgoingView { bcc: Seq::empty(), ..mail };
    lemma_parts_ignore_bcc(mail, open, files, mail.attachments.len());
}

proof fn lemma_parts_ignore_bcc(
    mail: OutgoingView,
    open: OutgoingView,
    files: Seq<FileContents>,
    n: nat,
)
    requires
        open == (OutgoingView { bcc: Seq::empty(), ..mail }),
    ensures
        parts_up_to(mail, files, n) == parts_up_to(open, files, n),
    decreases n,
{
    if n > 0 {
        lemma_parts_ignore_bcc(mail, open, files, (n - 1) as nat);
    }
}

/// A mail is refused for want of recipients exactly where all its fields are
/// empty and its sender is an address: bcc alone is enough.
pub proof fn any_recipient_will_do(from: Seq<char>, mail: OutgoingView)
    requires
        mailbox_of(from) is Ok,
        all_mailboxes(address_list(mail.to)),
        all_mailboxes(address_list(mail.cc)),
        all_mailboxes(address_list(mail.bcc)),
    ensures
        outgoing_delivery(from, mail) is Ok <==> address_list(mail.to).len() + address_list(
            mail.cc,
        ).len() + address_list(mail.bcc).len() > 0,
{
    lemma_none_invalid("To"@, address_list(mail.to));
    lemma_none_invalid("Cc"@, address_list(mail.cc));
    lemma_none_invalid("Bcc"@, address_list(mail.bcc));
}

proof fn lemma_none_invalid(label: Seq<char>, ts: Seq<Seq<char>>)
    requires
        all_mailboxes(ts),
    ensures
        first_invalid(label, parsed_list(ts)) is None,
    decreases ts.len(),
{
    if ts.len() > 0 {
        let t = ts.drop_first();
        assert(parsed_list(ts).drop_first() =~= parsed_list(t));
        assert forall|i: int| 0 <= i < t.len() implies mailbox_of(#[trigger] t[i]) is Ok by {
            assert(t[i] == ts[i + 1]);
        }
        assert(mailbox_of(ts[0]) is Ok);
        lemma_none_invalid(label, t);
    }
}

} // verus!
