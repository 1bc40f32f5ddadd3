//! Reading downloaded mail: headers for the list, text for the detail pane,
//! bytes for an attachment.

use vstd::prelude::*;
use vstd::utf8::encode_utf8;
use crate::intake::{can_be_parsed, find_least, has_least, is_parsable};
use crate::model::opt_view;
use crate::number::{decimal, decimal_text, padded, padded_text};
use crate::scan::{
    ellipsize, ellipsized, lines, replace, replace_text, split_lines, trim, trim_end, trim_end_text,
    trim_text,
};
use crate::structure::{TextPartSpec, TextPartView};
use crate::text::{ascii_lower, chars_of, lower, opt_text, same, texts};

verus! {

// ---------------------------------------------------------------------------
// A parsed message

/// An address with whatever parts of it the header gave.
#[derive(Debug, Clone, PartialEq)]
pub struct Person {
    pub name: Option<String>,
    pub address: Option<String>,
}

pub ghost struct PersonView {
    pub name: Option<Seq<char>>,
    pub address: Option<Seq<char>>,
}

impl View for Person {
    type V = PersonView;

    open spec fn view(&self) -> PersonView {
        PersonView { name: opt_text(self.name), address: opt_text(self.address) }
    }
}

/// The parts of a date that are shown.
#[derive(Debug, Clone, Copy, PartialEq, Eq, Structural)]
pub struct MailDate {
    pub month: u8,
    pub day: u8,
    pub hour: u8,
    pub minute: u8,
}

/// What is read off a parsed message.
#[derive(Debug, Clone, PartialEq)]
pub struct MailMessage {
    /// The first From address.
    pub from: Option<Person>,
    /// The first To address.
    pub to: Option<Person>,
    pub subject: Option<String>,
    pub date: Option<MailDate>,
    /// The first text body.
    pub text: Option<String>,
    /// The first HTML body.
    pub html: Option<String>,
    /// The decoded contents of the first attachment.
    pub attachment: Option<Vec<u8>>,
}

#[verifier::ext_equal]
pub ghost struct MailView {
    pub from: Option<PersonView>,
    pub to: Option<PersonView>,
    pub subject: Option<Seq<char>>,
    pub date: Option<MailDate>,
    pub text: Option<Seq<char>>,
    pub html: Option<Seq<char>>,
    pub attachment: Option<Seq<u8>>,
}

impl View for MailMessage {
    type V = MailView;

    open spec fn view(&self) -> MailView {
        MailView {
            from: opt_view(self.from),
            to: opt_view(self.to),
            subject: opt_text(self.subject),
            date: self.date,
            text: opt_text(self.text),
            html: opt_text(self.html),
            attachment: opt_view(self.attachment),
        }
    }
}

/// The first From address, the first To address, the subject and the date.
pub type Headers = (Option<Person>, Option<Person>, Option<String>, Option<MailDate>);

/// The first body as text and as HTML, and the contents of the first
/// attachment.
pub type Contents = (Option<String>, Option<String>, Option<Vec<u8>>);

pub type HeadersSeen = (Option<PersonView>, Option<PersonView>, Option<Seq<char>>, Option<MailDate>);

pub type ContentsSeen = (Option<Seq<char>>, Option<Seq<char>>, Option<Seq<u8>>);

pub open spec fn headers_seen(o: Option<Headers>) -> Option<HeadersSeen> {
    match o {
        Some(h) => Some((opt_view(h.0), opt_view(h.1), opt_text(h.2), h.3)),
        None => None,
    }
}

pub open spec fn contents_seen(o: Option<Contents>) -> Option<ContentsSeen> {
    match o {
        Some(c) => Some((opt_text(c.0), opt_text(c.1), opt_view(c.2))),
        None => None,
    }
}

// ---------------------------------------------------------------------------
// Messages of a single part

/// A text without a line break.
pub open spec fn one_line(s: Seq<char>) -> bool {
    forall|i: int| 0 <= i < s.len() ==> (#[trigger] s[i]) != '\r' && s[i] != '\n'
}

fn is_one_line(s: &str) -> (r: bool)
    ensures
        r == one_line(s@),
{
    let cs = chars_of(s);
    let mut i: usize = 0;
    while i < cs.len()
        invariant
            i <= cs@.len(),
            cs@ == s@,
            forall|j: int| 0 <= j < i ==> (#[trigger] s@[j]) != '\r' && s@[j] != '\n',
        decreases cs@.len() - i,
    {
        if cs[i] == '\r' || cs[i] == '\n' {
            assert(s@[i as int] == cs@[i as int]);
            return false;
        }
        i = i + 1;
    }
    true
}

/// The header of a single-part message that holds a text part's bytes.
pub open spec fn part_header(p: TextPartView) -> Seq<char> {
    let charset = match p.charset {
        Some(c) => c,
        None => "utf-8"@,
    };
    "MIME-Version: 1.0\r\nContent-Type: text/"@ + p.subtype + "; charset=\""@ + charset
        + "\"\r\nContent-Transfer-Encoding: "@ + p.encoding + "\r\n\r\n"@
}

/// The header of a message that is one attachment.
pub open spec fn attachment_header(enc: Seq<char>) -> Seq<char> {
    "MIME-Version: 1.0\r\nContent-Type: application/octet-stream\r\nContent-Transfer-Encoding: "@
        + enc + "\r\nContent-Disposition: attachment\r\n\r\n"@
}

/// Whether nothing of a text part's description breaks its header's lines.
pub open spec fn has_plain_header(p: TextPartView) -> bool {
    one_line(p.subtype) && one_line(p.encoding) && match p.charset {
        Some(c) => one_line(c),
        None => true,
    }
}

/// A message that its own header makes a single text.
pub open spec fn is_text_message(raw: Seq<u8>) -> bool {
    exists|p: TextPartView, bytes: Seq<u8>|
        has_plain_header(p) && raw == #[trigger] (encode_utf8(part_header(p)) + bytes)
}

/// A message that its own header makes a single attachment.
pub open spec fn is_attachment_message(raw: Seq<u8>) -> bool {
    exists|enc: Seq<char>, bytes: Seq<u8>|
        one_line(enc) && raw == #[trigger] (encode_utf8(attachment_header(enc)) + bytes)
}

// ---------------------------------------------------------------------------
// Parsing

/// The headers that `mail_parser::MessageParser::parse_headers` reads off a
/// message's bytes; `None` where it reads none.
pub uninterp spec fn parsed_headers(raw: Seq<u8>) -> Option<HeadersSeen>;

/// The contents that `mail_parser::MessageParser::parse` reads off a message's
/// bytes; `None` where it reads no message.
pub uninterp spec fn parsed_contents(raw: Seq<u8>) -> Option<ContentsSeen>;

/// `mail_parser::MessageParser::parse_headers`, which leaves the body alone,
/// and off its result the first From and To address, the subject and the date.
/// The contract claims no more than that all of this depends on the bytes
/// alone. The parser counts characters in 32 bits with a sign, so a longer
/// input is left out; and of the zone in a Received header, a number of 64
/// bits, it takes the absolute value, so the least such number is left out.
#[verifier::external_body]
fn parse_headers(raw: &[u8]) -> (r: Option<Headers>)
    requires
        raw@.len() <= i32::MAX,
        !has_least(raw@),
    ensures
        headers_seen(r) == parsed_headers(raw@),
{
    let m = mail_parser::MessageParser::default().parse_headers(raw)?;
    let own = |s: &str| s.to_string();
    let person = |a: &mail_parser::Addr| Person { name: a.name().map(own), address: a.address().map(own) };
    let date = |d: &mail_parser::DateTime| MailDate { month: d.month, day: d.day, hour: d.hour, minute: d.minute };
    let from = m.from().and_then(|a| a.first()).map(person);
    let to = m.to().and_then(|a| a.first()).map(person);
    Some((from, to, m.subject().map(own), m.date().map(date)))
}

/// `mail_parser::MessageParser::parse`, and off its result the first body as
/// text and as HTML, and the contents of the first attachment. The contract
/// claims no more than that all of this depends on the bytes alone.
///
/// These inputs are left out. The parser counts characters in 32 bits with a
/// sign, so none is longer. It takes the absolute value of the zone in a
/// Received header, so none holds the least number of 64 bits. Its result
/// nests as deep as messages within messages do and is dropped by recursion, so
/// none may nest deeper than a thread's stack allows: a level takes a
/// Content-Type header of its own, which names `rfc822`, `global` or, for a
/// part that names none, the `digest` it is in. An encoded message would hide
/// all this, so none is encoded. And where a boundary follows a
/// quoted-printable line that is cut short, the decoder may take away more than
/// it has, so no encoded input has dashes there. A message whose own header
/// makes it a single text or attachment has no Received header, no message in
/// it, and no boundary.
#[verifier::external_body]
fn parse_contents(raw: &[u8]) -> (r: Option<Contents>)
    requires
        raw@.len() <= i32::MAX,
        is_parsable(raw@) || is_text_message(raw@) || is_attachment_message(raw@),
    ensures
        contents_seen(r) == parsed_contents(raw@),
{
    let m = mail_parser::MessageParser::default().parse(raw)?;
    let text = m.body_text(0).map(|t| t.into_owned());
    let html = m.body_html(0).map(|t| t.into_owned());
    let attachment = m.attachments().next().map(|a| a.contents().to_vec());
    Some((text, html, attachment))
}

/// What is read off any header: nothing, where it is too long or not fit to be
/// parsed.
pub open spec fn readable_headers(raw: Seq<u8>) -> Option<HeadersSeen> {
    if raw.len() <= i32::MAX && !has_least(raw) {
        parsed_headers(raw)
    } else {
        None
    }
}

/// What is read off the contents of any message: nothing, where it is too long
/// or not fit to be parsed. `single` says that its own header makes it a
/// single part.
pub open spec fn readable_contents(raw: Seq<u8>, single: bool) -> Option<ContentsSeen> {
    if raw.len() <= i32::MAX && (single || is_parsable(raw)) {
        parsed_contents(raw)
    } else {
        None
    }
}

/// Contents make a message, with whatever headers it has.
pub open spec fn mail_of(h: Option<HeadersSeen>, c: Option<ContentsSeen>) -> Option<MailView> {
    match c {
        Some(c) => Some(
            MailView {
                from: match h {
                    Some(h) => h.0,
                    None => None,
                },
                to: match h {
                    Some(h) => h.1,
                    None => None,
                },
                subject: match h {
                    Some(h) => h.2,
                    None => None,
                },
                date: match h {
                    Some(h) => h.3,
                    None => None,
                },
                text: c.0,
                html: c.1,
                attachment: c.2,
            },
        ),
        None => None,
    }
}

/// A message of which the headers alone are known.
pub open spec fn headers_alone(h: Option<HeadersSeen>) -> Option<MailView> {
    match h {
        Some(_) => mail_of(h, Some((None, None, None))),
        None => None,
    }
}

/// What is read off a message's bytes.
pub open spec fn readable_mail(raw: Seq<u8>) -> Option<MailView> {
    mail_of(readable_headers(raw), readable_contents(raw, false))
}

fn headers_of(raw: &[u8]) -> (r: Option<Headers>)
    ensures
        headers_seen(r) == readable_headers(raw@),
{
    if raw.len() as u64 <= i32::MAX as u64 && !find_least(raw) {
        parse_headers(raw)
    } else {
        None
    }
}

/// The contents of a message; `single` says that its own header makes it a
/// single part.
fn contents_of(raw: &[u8], single: bool) -> (r: Option<Contents>)
    requires
        single ==> is_text_message(raw@) || is_attachment_message(raw@),
    ensures
        contents_seen(r) == readable_contents(raw@, single),
{
    if raw.len() as u64 <= i32::MAX as u64 && (single || can_be_parsed(raw)) {
        parse_contents(raw)
    } else {
        None
    }
}

fn join_parsed(h: Option<Headers>, c: Option<Contents>) -> (r: Option<MailMessage>)
    ensures
        opt_view(r) == mail_of(headers_seen(h), contents_seen(c)),
{
    match c {
        Some((text, html, attachment)) => match h {
            Some((from, to, subject, date)) => Some(
                MailMessage { from, to, subject, date, text, html, attachment },
            ),
            None => Some(
                MailMessage {
                    from: None,
                    to: None,
                    subject: None,
                    date: None,
                    text,
                    html,
                    attachment,
                },
            ),
        },
        None => None,
    }
}

/// Parse a message.
pub fn parse_mail(raw: &[u8]) -> (r: Option<MailMessage>)
    ensures
        opt_view(r) == readable_mail(raw@),
{
    let h = headers_of(raw);
    let c = contents_of(raw, false);
    join_parsed(h, c)
}

// ---------------------------------------------------------------------------
// Headers

/// "Name <addr>", falling back through the parts.
pub open spec fn person_text(p: Option<PersonView>, fallback: Seq<char>) -> Seq<char> {
    match p {
        Some(a) => match (a.name, a.address) {
            (Some(n), Some(addr)) => n + " <"@ + addr + ">"@,
            (None, Some(addr)) => addr,
            (Some(n), None) => n,
            (None, None) => fallback,
        },
        None => fallback,
    }
}

fn format_person(p: &Option<Person>, fallback: &str) -> (r: String)
    ensures
        r@ == person_text(opt_view(*p), fallback@),
{
    match p {
        Some(a) => match (&a.name, &a.address) {
            (Some(n), Some(addr)) => {
                let mut out = n.clone();
                out.append(" <");
                out.append(addr.as_str());
                out.append(">");
                out
            },
            (None, Some(addr)) => addr.clone(),
            (Some(n), None) => n.clone(),
            (None, None) => fallback.to_owned(),
        },
        None => fallback.to_owned(),
    }
}

/// Display form of the From address.
pub fn format_from(msg: &MailMessage) -> (r: String)
    ensures
        r@ == person_text(msg@.from, "Unknown"@),
{
    format_person(&msg.from, "Unknown")
}

/// Display form of the To address; sent-folder rows lead with this. Falls
/// back to the account's own address.
pub fn format_to(msg: &MailMessage, fallback: &str) -> (r: String)
    ensures
        r@ == person_text(msg@.to, fallback@),
{
    format_person(&msg.to, fallback)
}

pub open spec fn month_name(m: u8) -> Seq<char> {
    if m == 1 {
        "Jan"@
    } else if m == 2 {
        "Feb"@
    } else if m == 3 {
        "Mar"@
    } else if m == 4 {
        "Apr"@
    } else if m == 5 {
        "May"@
    } else if m == 6 {
        "Jun"@
    } else if m == 7 {
        "Jul"@
    } else if m == 8 {
        "Aug"@
    } else if m == 9 {
        "Sep"@
    } else if m == 10 {
        "Oct"@
    } else if m == 11 {
        "Nov"@
    } else if m == 12 {
        "Dec"@
    } else {
        "?"@
    }
}

/// "Jul 23 10:50".
pub open spec fn date_text(d: Option<MailDate>) -> Seq<char> {
    match d {
        Some(d) => month_name(d.month) + " "@ + decimal(d.day as nat) + " "@ + padded(
            d.hour as nat,
        ) + ":"@ + padded(d.minute as nat),
        None => "Unknown"@,
    }
}

fn month_str(m: u8) -> (r: &'static str)
    ensures
        r@ == month_name(m),
{
    match m {
        1 => "Jan",
        2 => "Feb",
        3 => "Mar",
        4 => "Apr",
        5 => "May",
        6 => "Jun",
        7 => "Jul",
        8 => "Aug",
        9 => "Sep",
        10 => "Oct",
        11 => "Nov",
        12 => "Dec",
        _ => "?",
    }
}

pub fn format_date(date: Option<MailDate>) -> (r: String)
    ensures
        r@ == date_text(date),
{
    match date {
        Some(d) => {
            let mut out = month_str(d.month).to_owned();
            out.append(" ");
            out.append(decimal_text(d.day as u64).as_str());
            out.append(" ");
            out.append(padded_text(d.hour as u64).as_str());
            out.append(":");
            out.append(padded_text(d.minute as u64).as_str());
            out
        },
        None => "Unknown".to_owned(),
    }
}

/// The header fields a list row shows.
#[derive(Debug)]
pub struct HeaderFields {
    pub from: String,
    pub to: String,
    pub subject: String,
    pub date: String,
}

#[verifier::ext_equal]
pub ghost struct HeaderView {
    pub from: Seq<char>,
    pub to: Seq<char>,
    pub subject: Seq<char>,
    pub date: Seq<char>,
}

impl View for HeaderFields {
    type V = HeaderView;

    open spec fn view(&self) -> HeaderView {
        HeaderView {
            from: self.from@,
            to: self.to@,
            subject: self.subject@,
            date: self.date@,
        }
    }
}

pub open spec fn headers_shown(m: Option<MailView>, account: Seq<char>) -> HeaderView {
    match m {
        Some(m) => HeaderView {
            from: person_text(m.from, "Unknown"@),
            to: person_text(m.to, account),
            subject: match m.subject {
                Some(s) => s,
                None => "(No Subject)"@,
            },
            date: date_text(m.date),
        },
        None => HeaderView {
            from: "Unknown"@,
            to: account,
            subject: "(No Subject)"@,
            date: "Unknown"@,
        },
    }
}

/// The fields to show for a header that was parsed, or could not be.
pub fn header_fields(msg: &Option<MailMessage>, account: &str) -> (r: HeaderFields)
    ensures
        r@ == headers_shown(opt_view(*msg), account@),
{
    match msg {
        Some(m) => HeaderFields {
            from: format_from(m),
            to: format_to(m, account),
            subject: match &m.subject {
                Some(s) => s.clone(),
                None => "(No Subject)".to_owned(),
            },
            date: format_date(m.date),
        },
        None => HeaderFields {
            from: "Unknown".to_owned(),
            to: account.to_owned(),
            subject: "(No Subject)".to_owned(),
            date: "Unknown".to_owned(),
        },
    }
}

/// The fields to show for a raw header, if it came.
pub open spec fn headers_read(raw: Option<Seq<u8>>, account: Seq<char>) -> HeaderView {
    headers_shown(
        match raw {
            Some(b) => headers_alone(readable_headers(b)),
            None => None,
        },
        account,
    )
}

/// The fields to show for a message's raw header, if it came.
pub fn read_header(raw: Option<&[u8]>, account: &str) -> (r: HeaderFields)
    ensures
        r@ == headers_read(
            match raw {
                Some(b) => Some(b@),
                None => None,
            },
            account@,
        ),
{
    let msg = match raw {
        Some(b) => match headers_of(b) {
            Some(h) => join_parsed(Some(h), Some((None, None, None))),
            None => None,
        },
        None => None,
    };
    header_fields(&msg, account)
}

// ---------------------------------------------------------------------------
// HTML as text

/// Whether a tag is open after `s`.
pub open spec fn in_tag(s: Seq<char>) -> bool
    decreases s.len(),
{
    if s.len() == 0 {
        false
    } else if s.last() == '<' {
        true
    } else if s.last() == '>' {
        false
    } else {
        in_tag(s.drop_last())
    }
}

/// What stands outside the tags.
pub open spec fn untagged(s: Seq<char>) -> Seq<char>
    decreases s.len(),
{
    if s.len() == 0 {
        s
    } else if s.last() == '<' || s.last() == '>' || in_tag(s.drop_last()) {
        untagged(s.drop_last())
    } else {
        untagged(s.drop_last()).push(s.last())
    }
}

/// The common entities decoded.
pub open spec fn entities_decoded(s: Seq<char>) -> Seq<char> {
    let s = replace(s, "&nbsp;"@, " "@);
    let s = replace(s, "&amp;"@, "&"@);
    let s = replace(s, "&lt;"@, "<"@);
    let s = replace(s, "&gt;"@, ">"@);
    let s = replace(s, "&quot;"@, "\""@);
    replace(s, "&#39;"@, "'"@)
}

pub open spec fn is_blank(line: Seq<char>) -> bool {
    trim(line).len() == 0
}

/// The lines without trailing white space, of each run of blank ones the
/// first alone.
pub open spec fn collapsed(ls: Seq<Seq<char>>) -> Seq<char>
    decreases ls.len(),
{
    if ls.len() == 0 {
        Seq::empty()
    } else if is_blank(ls.last()) && ls.len() > 1 && is_blank(ls[ls.len() - 2]) {
        collapsed(ls.drop_last())
    } else {
        collapsed(ls.drop_last()) + trim_end(ls.last()) + "\n"@
    }
}

pub open spec fn html_text(html: Seq<char>) -> Seq<char> {
    collapsed(lines(entities_decoded(untagged(html))))
}

fn drop_tags(html: &str) -> (r: String)
    ensures
        r@ == untagged(html@),
{
    let mut out = String::new();
    let mut open = false;
    for c in it: html.chars()
        invariant
            it.seq() == html@,
            out@ == untagged(it.seq().take(it.index())),
            open == in_tag(it.seq().take(it.index())),
    {
        let ghost done = it.seq().take(it.index());
        if c == '<' {
            open = true;
        } else if c == '>' {
            open = false;
        } else if !open {
            out.push(c);
        }
        proof {
            let more = it.seq().take(it.index() + 1);
            assert(more.drop_last() =~= done);
            assert(more.last() == c);
        }
    }
    proof {
        assert(html@.take(html@.len() as int) =~= html@);
    }
    out
}

fn decode_entities(s: &str) -> (r: String)
    ensures
        r@ == entities_decoded(s@),
{
    proof {
        reveal_strlit("&nbsp;");
        reveal_strlit("&amp;");
        reveal_strlit("&lt;");
        reveal_strlit("&gt;");
        reveal_strlit("&quot;");
        reveal_strlit("&#39;");
    }
    let s = replace_text(s, "&nbsp;", " ");
    let s = replace_text(s.as_str(), "&amp;", "&");
    let s = replace_text(s.as_str(), "&lt;", "<");
    let s = replace_text(s.as_str(), "&gt;", ">");
    let s = replace_text(s.as_str(), "&quot;", "\"");
    replace_text(s.as_str(), "&#39;", "'")
}

/// Last-resort HTML-to-text: drop tags, decode the common entities, collapse
/// blank-line runs.
pub fn strip_html(html: &str) -> (r: String)
    ensures
        r@ == html_text(html@),
{
    let bare = drop_tags(html);
    let decoded = decode_entities(bare.as_str());
    let ls = split_lines(decoded.as_str());
    let mut out = String::new();
    let mut after_blank = false;
    let mut i: usize = 0;
    while i < ls.len()
        invariant
            i <= ls@.len(),
            out@ == collapsed(texts(ls@).take(i as int)),
            after_blank == (i > 0 && is_blank(texts(ls@)[i - 1])),
        decreases ls@.len() - i,
    {
        let ghost all = texts(ls@);
        proof {
            assert(all.take(i + 1).drop_last() =~= all.take(i as int));
        }
        let blank = trim_text(ls[i].as_str()).as_str().is_empty();
        if !(blank && after_blank) {
            out.append(trim_end_text(ls[i].as_str()).as_str());
            out.append("\n");
        }
        after_blank = blank;
        i = i + 1;
    }
    proof {
        assert(texts(ls@).take(i as int) =~= texts(ls@));
    }
    out
}

/// Dropping tags leaves no angle bracket behind.
pub proof fn untagged_has_no_brackets(s: Seq<char>)
    ensures
        forall|i: int|
            0 <= i < untagged(s).len() ==> untagged(s)[i] != '<' && untagged(s)[i] != '>',
    decreases s.len(),
{
    if s.len() > 0 {
        let before = untagged(s.drop_last());
        untagged_has_no_brackets(s.drop_last());
        assert forall|i: int| 0 <= i < untagged(s).len() implies untagged(s)[i] != '<' && untagged(
            s,
        )[i] != '>' by {
            if i < before.len() {
                assert(untagged(s)[i] == before[i]);
            }
        }
    }
}

// ---------------------------------------------------------------------------
// Bodies

/// How much of a body is kept.
pub const BODY_CAP: usize = 1200;

/// The readable body: the text, else what the HTML says, without trailing
/// white space and capped.
pub open spec fn body_shown(m: MailView) -> Seq<char> {
    let body = match (m.text, m.html) {
        (Some(t), _) => t,
        (None, Some(h)) => html_text(h),
        (None, None) => Seq::empty(),
    };
    ellipsized(trim_end(body), BODY_CAP as nat)
}

pub fn extract_body(msg: &MailMessage) -> (r: String)
    ensures
        r@ == body_shown(msg@),
{
    let body = match (&msg.text, &msg.html) {
        (Some(t), _) => t.clone(),
        (None, Some(h)) => strip_html(h.as_str()),
        (None, None) => {
            let empty = String::new();
            assert(empty@ =~= Seq::<char>::empty());
            empty
        },
    };
    ellipsize(trim_end_text(body.as_str()).as_str(), BODY_CAP)
}

/// A body is never longer than the cap and its ellipsis.
pub proof fn body_is_capped(m: MailView)
    ensures
        body_shown(m).len() <= 1203,
{
    let body = match (m.text, m.html) {
        (Some(t), _) => t,
        (None, Some(h)) => html_text(h),
        (None, None) => Seq::empty(),
    };
    crate::scan::ellipsized_is_bounded(trim_end(body), BODY_CAP as nat);
}

/// The body of a message that was parsed, or empty.
pub open spec fn body_or_empty(m: Option<MailView>) -> Seq<char> {
    match m {
        Some(m) => body_shown(m),
        None => Seq::empty(),
    }
}

pub fn body_of(msg: &Option<MailMessage>) -> (r: String)
    ensures
        r@ == body_or_empty(opt_view(*msg)),
{
    match msg {
        Some(m) => extract_body(m),
        None => {
            let empty = String::new();
            assert(empty@ =~= Seq::<char>::empty());
            empty
        },
    }
}

/// `bytes` behind a header text.
fn behind(header: &str, bytes: &[u8]) -> (r: Vec<u8>)
    ensures
        r@ == encode_utf8(header@) + bytes@,
{
    let mut raw: Vec<u8> = Vec::new();
    raw.extend_from_slice(header.as_bytes());
    raw.extend_from_slice(bytes);
    assert(raw@ =~= encode_utf8(header@) + bytes@);
    raw
}

impl TextPartSpec {
    /// Wrap raw, still transfer-encoded part bytes in a minimal single-part
    /// message, so that the parser handles transfer encoding and charset.
    pub fn synthesize(&self, part_bytes: &[u8]) -> (r: Vec<u8>)
        ensures
            r@ == encode_utf8(part_header(self@)) + part_bytes@,
    {
        let mut h = "MIME-Version: 1.0\r\nContent-Type: text/".to_owned();
        h.append(self.subtype.as_str());
        h.append("; charset=\"");
        match &self.charset {
            Some(c) => h.append(c.as_str()),
            None => h.append("utf-8"),
        }
        h.append("\"\r\nContent-Transfer-Encoding: ");
        h.append(self.encoding.as_str());
        h.append("\r\n\r\n");
        behind(h.as_str(), part_bytes)
    }
}

/// A text part as a message of its own.
pub open spec fn part_mail(p: TextPartView, bytes: Seq<u8>) -> Option<MailView> {
    mail_of(
        None,
        readable_contents(encode_utf8(part_header(p)) + bytes, has_plain_header(p)),
    )
}

/// The body of a downloaded text part.
pub fn part_body(spec: &TextPartSpec, bytes: &[u8]) -> (r: String)
    ensures
        r@ == body_or_empty(part_mail(spec@, bytes@)),
{
    let raw = spec.synthesize(bytes);
    let plain = is_one_line(spec.subtype.as_str()) && is_one_line(spec.encoding.as_str())
        && match &spec.charset {
        Some(c) => is_one_line(c.as_str()),
        None => true,
    };
    let c = contents_of(raw.as_slice(), plain);
    body_of(&join_parsed(None, c))
}

/// The contents of a message downloaded whole.
pub open spec fn whole_mail(raw: Seq<u8>) -> Option<MailView> {
    mail_of(None, readable_contents(raw, false))
}

/// The body of a message downloaded whole.
pub fn message_body(raw: &[u8]) -> (r: String)
    ensures
        r@ == body_or_empty(whole_mail(raw@)),
{
    let c = contents_of(raw, false);
    body_of(&join_parsed(None, c))
}

// ---------------------------------------------------------------------------
// Attachments

/// Encodings that leave bytes as they are.
pub open spec fn is_plain_encoding(enc: Seq<char>) -> bool {
    lower(enc) == "7bit"@ || lower(enc) == "8bit"@ || lower(enc) == "binary"@ || lower(enc) == ""@
}

pub open spec fn contents_or(m: Option<MailView>, bytes: Seq<u8>) -> Seq<u8> {
    match m {
        Some(m) => match m.attachment {
            Some(a) => a,
            None => bytes,
        },
        None => bytes,
    }
}

/// The contents of a message's attachment; `bytes` where it has none.
pub fn attachment_contents(msg: Option<MailMessage>, bytes: &[u8]) -> (r: Vec<u8>)
    ensures
        r@ == contents_or(opt_view(msg), bytes@),
{
    match msg {
        Some(m) => match m.attachment {
            Some(a) => a,
            None => bytes_of(bytes),
        },
        None => bytes_of(bytes),
    }
}

fn bytes_of(bytes: &[u8]) -> (r: Vec<u8>)
    ensures
        r@ == bytes@,
{
    let mut out: Vec<u8> = Vec::new();
    out.extend_from_slice(bytes);
    assert(out@ =~= bytes@);
    out
}

/// An encoded attachment as a message of its own.
pub open spec fn attachment_mail(enc: Seq<char>, bytes: Seq<u8>) -> Option<MailView> {
    mail_of(None, readable_contents(encode_utf8(attachment_header(enc)) + bytes, one_line(enc)))
}

/// A part's contents, its transfer encoding undone.
pub open spec fn decoded(encoding: Seq<char>, bytes: Seq<u8>) -> Seq<u8> {
    if is_plain_encoding(encoding) {
        bytes
    } else {
        contents_or(attachment_mail(lower(encoding), bytes), bytes)
    }
}

/// Decode fetched part bytes per their transfer encoding.
pub fn decode_part_bytes(encoding: &str, bytes: &[u8]) -> (r: Vec<u8>)
    ensures
        r@ == decoded(encoding@, bytes@),
{
    let enc = ascii_lower(encoding);
    if same(enc.as_str(), "7bit") || same(enc.as_str(), "8bit") || same(enc.as_str(), "binary")
        || same(enc.as_str(), "") {
        return bytes_of(bytes);
    }
    let mut h =
        "MIME-Version: 1.0\r\nContent-Type: application/octet-stream\r\nContent-Transfer-Encoding: ".to_owned();
    h.append(enc.as_str());
    h.append("\r\nContent-Disposition: attachment\r\n\r\n");
    let raw = behind(h.as_str(), bytes);
    assert(raw@ == encode_utf8(attachment_header(enc@)) + bytes@);
    let c = contents_of(raw.as_slice(), is_one_line(enc.as_str()));
    attachment_contents(join_parsed(None, c), bytes)
}

} // verus!
