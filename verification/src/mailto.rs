//! `mailto:` URLs as compose-dialog prefills.

use vstd::prelude::*;
use vstd::utf8::{decode_utf8, encode_utf8, valid_utf8};
use crate::scan::{
    join, join_all, split, split_at_first, split_once, split_text, strip_prefix, trim, trim_text,
    without_prefix,
};
use crate::text::{ascii_lower, lower, same, texts, texts_push};

verus! {

// ---------------------------------------------------------------------------
// Percent-decoding

pub open spec fn is_hex(b: u8) -> bool {
    48 <= b <= 57 || 65 <= b <= 70 || 97 <= b <= 102
}

pub open spec fn hex_digit(b: u8) -> int {
    if b <= 57 {
        b - 48
    } else if b <= 70 {
        b - 55
    } else {
        b - 87
    }
}

/// A percent sign and two hex digits.
pub open spec fn is_escape(b: Seq<u8>) -> bool {
    b.len() >= 3 && b[0] == 37 && is_hex(b[1]) && is_hex(b[2])
}

/// The bytes with every escape replaced by the byte it stands for. Any other
/// percent sign is a literal one.
pub open spec fn unescaped(b: Seq<u8>) -> Seq<u8>
    decreases b.len(),
{
    if b.len() == 0 {
        b
    } else if is_escape(b) {
        seq![(hex_digit(b[1]) * 16 + hex_digit(b[2])) as u8] + unescaped(b.skip(3))
    } else {
        seq![b[0]] + unescaped(b.skip(1))
    }
}

/// The text of bytes that may not be UTF-8.
pub uninterp spec fn lossy_text(b: Seq<u8>) -> Seq<char>;

/// `String::from_utf8_lossy`: bytes that are UTF-8 give the text they encode.
/// Of others the contract claims no more than that the text depends on the
/// bytes alone.
#[verifier::external_body]
fn text_lossy(b: &[u8]) -> (r: String)
    ensures
        r@ == lossy_text(b@),
        valid_utf8(b@) ==> r@ == decode_utf8(b@),
{
    String::from_utf8_lossy(b).into_owned()
}

/// The text with its escapes replaced: exactly what they encode, where that is
/// UTF-8.
pub open spec fn percent_decoded(s: Seq<char>) -> Seq<char> {
    let b = unescaped(encode_utf8(s));
    if valid_utf8(b) {
        decode_utf8(b)
    } else {
        lossy_text(b)
    }
}

fn hex_value(b: u8) -> (r: Option<u8>)
    ensures
        r is Some == is_hex(b),
        r matches Some(v) ==> v == hex_digit(b) && v < 16,
{
    if 48 <= b && b <= 57 {
        Some(b - 48)
    } else if 65 <= b && b <= 70 {
        Some(b - 55)
    } else if 97 <= b && b <= 102 {
        Some(b - 87)
    } else {
        None
    }
}

/// Replace the escapes of `b` by the bytes they stand for.
pub fn unescape(b: &[u8]) -> (r: Vec<u8>)
    ensures
        r@ == unescaped(b@),
{
    let mut out: Vec<u8> = Vec::new();
    let mut i: usize = 0;
    proof {
        assert(b@.skip(0) =~= b@);
        assert(out@ + unescaped(b@) =~= unescaped(b@));
    }
    while i < b.len()
        invariant
            i <= b@.len(),
            out@ + unescaped(b@.skip(i as int)) == unescaped(b@),
        decreases b@.len() - i,
    {
        let ghost rest = b@.skip(i as int);
        let ghost before = out@;
        if b[i] == 37 && b.len() - i >= 3 {
            if let Some(hi) = hex_value(b[i + 1]) {
                if let Some(lo) = hex_value(b[i + 2]) {
                    let v: u8 = hi * 16 + lo;
                    out.push(v);
                    i = i + 3;
                    proof {
                        assert(rest.skip(3) =~= b@.skip(i as int));
                        let tail = unescaped(b@.skip(i as int));
                        assert(before + (seq![v] + tail) =~= before.push(v) + tail);
                    }
                    continue;
                }
            }
        }
        out.push(b[i]);
        i = i + 1;
        proof {
            assert(!is_escape(rest));
            assert(rest.skip(1) =~= b@.skip(i as int));
            let tail = unescaped(b@.skip(i as int));
            assert(before + (seq![rest[0]] + tail) =~= before.push(rest[0]) + tail);
        }
    }
    proof {
        assert(b@.skip(i as int) =~= Seq::empty());
        assert(out@ + Seq::<u8>::empty() =~= out@);
    }
    out
}

/// Percent-decoding as `mailto:` has it: unlike in form encoding, `+` is a
/// literal plus, so only `%XX` decodes. Decoding happens on bytes, since an
/// encoded text may hold multi-byte characters split across several escapes.
pub fn percent_decode(s: &str) -> (r: String)
    ensures
        r@ == percent_decoded(s@),
{
    let bytes = unescape(s.as_bytes());
    text_lossy(bytes.as_slice())
}

// ---------------------------------------------------------------------------
// Prefills

/// What a `mailto:` URL prefills into the compose dialog.
#[derive(Debug, Clone, PartialEq)]
pub struct MailtoPrefill {
    pub to: String,
    pub cc: String,
    pub bcc: String,
    pub subject: String,
    pub body: String,
}

#[verifier::ext_equal]
pub ghost struct PrefillView {
    pub to: Seq<char>,
    pub cc: Seq<char>,
    pub bcc: Seq<char>,
    pub subject: Seq<char>,
    pub body: Seq<char>,
}

impl View for MailtoPrefill {
    type V = PrefillView;

    open spec fn view(&self) -> PrefillView {
        PrefillView {
            to: self.to@,
            cc: self.cc@,
            bcc: self.bcc@,
            subject: self.subject@,
            body: self.body@,
        }
    }
}

/// The texts of a list, trimmed, without those that are empty then.
pub open spec fn nonblank(parts: Seq<Seq<char>>) -> Seq<Seq<char>>
    decreases parts.len(),
{
    if parts.len() == 0 {
        parts
    } else if trim(parts.last()).len() == 0 {
        nonblank(parts.drop_last())
    } else {
        nonblank(parts.drop_last()).push(trim(parts.last()))
    }
}

/// The addresses of a comma-separated list.
pub open spec fn address_list(s: Seq<char>) -> Seq<Seq<char>> {
    nonblank(split(s, ','))
}

/// The addresses of a comma-separated list, without blanks around them.
pub fn addresses(s: &str) -> (r: Vec<String>)
    ensures
        texts(r@) == address_list(s@),
{
    let parts = split_text(s, ',');
    let ghost all = texts(parts@);
    let mut out: Vec<String> = Vec::new();
    let mut i: usize = 0;
    proof {
        assert(texts(out@) =~= all.take(0));
    }
    while i < parts.len()
        invariant
            i <= parts@.len(),
            all == texts(parts@),
            texts(out@) == nonblank(all.take(i as int)),
        decreases parts@.len() - i,
    {
        broadcast use texts_push;

        assert(all.take(i + 1).drop_last() =~= all.take(i as int));
        let a = trim_text(parts[i].as_str());
        if !a.as_str().is_empty() {
            out.push(a);
        }
        i = i + 1;
    }
    assert(all.take(i as int) =~= all);
    out
}

/// What the query of a URL has said so far.
#[verifier::ext_equal]
pub ghost struct Fields {
    pub to: Seq<Seq<char>>,
    pub cc: Seq<Seq<char>>,
    pub bcc: Seq<Seq<char>>,
    pub subject: Seq<char>,
    pub body: Seq<char>,
}

/// A query pair's name and value.
pub open spec fn key_value(pair: Seq<char>) -> (Seq<char>, Seq<char>) {
    match split_once(pair, '=') {
        Some(kv) => kv,
        None => (pair, Seq::empty()),
    }
}

/// What one pair of the query adds. Names are matched in any case; unknown
/// ones are ignored.
pub open spec fn with_pair(f: Fields, pair: Seq<char>) -> Fields {
    let kv = key_value(pair);
    let key = lower(kv.0);
    let value = percent_decoded(kv.1);
    if key == "to"@ {
        Fields { to: f.to + address_list(value), ..f }
    } else if key == "cc"@ {
        Fields { cc: f.cc + address_list(value), ..f }
    } else if key == "bcc"@ {
        Fields { bcc: f.bcc + address_list(value), ..f }
    } else if key == "subject"@ {
        Fields { subject: value, ..f }
    } else if key == "body"@ {
        Fields { body: value, ..f }
    } else {
        f
    }
}

pub open spec fn with_pairs(f: Fields, pairs: Seq<Seq<char>>) -> Fields
    decreases pairs.len(),
{
    if pairs.len() == 0 {
        f
    } else {
        with_pair(with_pairs(f, pairs.drop_last()), pairs.last())
    }
}

/// What a URL without its scheme says: addresses before the question mark,
/// pairs behind it.
pub open spec fn fields_of(rest: Seq<char>) -> Fields {
    let (path, pairs) = match split_once(rest, '?') {
        Some(pq) => (pq.0, split(pq.1, '&')),
        None => (rest, Seq::empty()),
    };
    with_pairs(
        Fields {
            to: address_list(percent_decoded(path)),
            cc: Seq::empty(),
            bcc: Seq::empty(),
            subject: Seq::empty(),
            body: Seq::empty(),
        },
        pairs,
    )
}

pub open spec fn prefill_of(f: Fields) -> PrefillView {
    PrefillView {
        to: join(f.to, ", "@),
        cc: join(f.cc, ", "@),
        bcc: join(f.bcc, ", "@),
        subject: f.subject,
        body: f.body,
    }
}

/// A `mailto:` URL without its scheme.
pub open spec fn after_scheme(arg: Seq<char>) -> Option<Seq<char>> {
    match without_prefix(arg, "mailto:"@) {
        Some(rest) => Some(rest),
        None => without_prefix(arg, "MAILTO:"@),
    }
}

pub open spec fn mailto_prefill(arg: Seq<char>) -> Option<PrefillView> {
    match after_scheme(arg) {
        Some(rest) => Some(prefill_of(fields_of(rest))),
        None => None,
    }
}

struct Query {
    to: Vec<String>,
    cc: Vec<String>,
    bcc: Vec<String>,
    subject: String,
    body: String,
}

impl Query {
    spec fn fields(&self) -> Fields {
        Fields {
            to: texts(self.to@),
            cc: texts(self.cc@),
            bcc: texts(self.bcc@),
            subject: self.subject@,
            body: self.body@,
        }
    }

    fn take_pair(&mut self, pair: &str)
        ensures
            final(self).fields() == with_pair(old(self).fields(), pair@),
    {
        let ghost before = self.fields();
        let (k, v) = match split_at_first(pair, '=') {
            Some(kv) => kv,
            None => {
                let empty = String::new();
                assert(empty@ =~= Seq::<char>::empty());
                (pair.to_owned(), empty)
            },
        };
        let key = ascii_lower(k.as_str());
        proof {
            assert((k@, v@) == key_value(pair@));
            reveal_keys();
        }
        if same(key.as_str(), "to") {
            let mut more = addresses(percent_decode(v.as_str()).as_str());
            self.to.append(&mut more);
            assert(self.fields() =~= with_pair(before, pair@));
        } else if same(key.as_str(), "cc") {
            let mut more = addresses(percent_decode(v.as_str()).as_str());
            self.cc.append(&mut more);
            assert(self.fields() =~= with_pair(before, pair@));
        } else if same(key.as_str(), "bcc") {
            let mut more = addresses(percent_decode(v.as_str()).as_str());
            self.bcc.append(&mut more);
            assert(self.fields() =~= with_pair(before, pair@));
        } else if same(key.as_str(), "subject") {
            self.subject = percent_decode(v.as_str());
        } else if same(key.as_str(), "body") {
            self.body = percent_decode(v.as_str());
        }
    }
}

/// What tells the header names apart.
proof fn reveal_keys()
    ensures
        "to"@.len() == 2 && "to"@[0] == 't',
        "cc"@.len() == 2 && "cc"@[0] == 'c',
        "bcc"@.len() == 3,
        "subject"@.len() == 7,
        "body"@.len() == 4,
{
    reveal_strlit("to");
    reveal_strlit("cc");
    reveal_strlit("bcc");
    reveal_strlit("subject");
    reveal_strlit("body");
}

/// Parse a `mailto:` URL into compose-dialog prefills.
///
/// Recipients come from the path and any `to` query key; `cc` and `bcc` keep
/// their own fields, since bcc folded anywhere visible would defeat what bcc is
/// for. Header names are case-insensitive; unknown ones are ignored.
pub fn parse_mailto(arg: &str) -> (r: Option<MailtoPrefill>)
    ensures
        crate::model::opt_view(r) == mailto_prefill(arg@),
{
    let lower_scheme = strip_prefix(arg, "mailto:");
    let stripped = if lower_scheme.is_some() {
        lower_scheme
    } else {
        strip_prefix(arg, "MAILTO:")
    };
    let rest = match stripped {
        Some(rest) => rest,
        None => {
            return None;
        },
    };
    let (path, pairs) = match split_at_first(rest.as_str(), '?') {
        Some((p, q)) => (p, split_text(q.as_str(), '&')),
        None => {
            let none: Vec<String> = Vec::new();
            assert(texts(none@) =~= Seq::empty());
            (rest, none)
        },
    };
    let mut query = Query {
        to: addresses(percent_decode(path.as_str()).as_str()),
        cc: Vec::new(),
        bcc: Vec::new(),
        subject: String::new(),
        body: String::new(),
    };
    let ghost start = query.fields();
    let ghost all = texts(pairs@);
    proof {
        assert(start.cc =~= Seq::empty());
        assert(start.bcc =~= Seq::empty());
        assert(start.subject =~= Seq::empty());
        assert(start.body =~= Seq::empty());
    }
    let mut i: usize = 0;
    while i < pairs.len()
        invariant
            i <= pairs@.len(),
            all == texts(pairs@),
            query.fields() == with_pairs(start, all.take(i as int)),
        decreases pairs@.len() - i,
    {
        assert(all.take(i + 1).drop_last() =~= all.take(i as int));
        query.take_pair(pairs[i].as_str());
        i = i + 1;
    }
    assert(all.take(i as int) =~= all);
    Some(
        MailtoPrefill {
            to: join_all(&query.to, ", "),
            cc: join_all(&query.cc, ", "),
            bcc: join_all(&query.bcc, ", "),
            subject: query.subject,
            body: query.body,
        },
    )
}

// ---------------------------------------------------------------------------
// Laws

/// Bytes without a percent sign are left alone.
pub proof fn unescaped_without_percent(b: Seq<u8>)
    requires
        forall|i: int| 0 <= i < b.len() ==> b[i] != 37,
    ensures
        unescaped(b) == b,
    decreases b.len(),
{
    if b.len() > 0 {
        let t = b.skip(1);
        assert forall|i: int| 0 <= i < t.len() implies t[i] != 37 by {
            assert(t[i] == b[i + 1]);
        }
        unescaped_without_percent(t);
        assert(seq![b[0]] + t =~= b);
    }
}

proof fn lemma_scalar_bytes(c: u32)
    requires
        c != 37,
        vstd::utf8::is_scalar(c),
    ensures
        forall|i: int|
            0 <= i < vstd::utf8::encode_scalar(c).len() ==> vstd::utf8::encode_scalar(c)[i] != 37,
{
    assert(c <= 0x7f && c != 37 ==> (c & 0x7F) as u8 != 37) by (bit_vector);
    assert((0xC0 | ((c >> 6) & 0x1F) as u8) != 37) by (bit_vector);
    assert((0xE0 | ((c >> 12) & 0x0F) as u8) != 37) by (bit_vector);
    assert((0xF0 | ((c >> 18) & 0x7) as u8) != 37) by (bit_vector);
    assert((0x80 | (c & 0x3F) as u8) != 37) by (bit_vector);
    assert((0x80 | ((c >> 6) & 0x3F) as u8) != 37) by (bit_vector);
    assert((0x80 | ((c >> 12) & 0x3F) as u8) != 37) by (bit_vector);
}

proof fn lemma_no_percent_bytes(s: Seq<char>)
    requires
        forall|i: int| 0 <= i < s.len() ==> s[i] != '%',
    ensures
        forall|i: int| 0 <= i < encode_utf8(s).len() ==> encode_utf8(s)[i] != 37,
    decreases s.len(),
{
    if s.len() > 0 {
        let t = s.drop_first();
        assert forall|i: int| 0 <= i < t.len() implies t[i] != '%' by {
            assert(t[i] == s[i + 1]);
        }
        lemma_no_percent_bytes(t);
        vstd::utf8::char_is_scalar(s[0]);
        let u = s[0] as u32;
        vstd::utf8::char_u32_cast(s[0], u);
        assert(u == 37 ==> u as char == '%');
        lemma_scalar_bytes(u);
        let head = vstd::utf8::encode_scalar(s[0] as u32);
        let b = encode_utf8(s);
        assert forall|i: int| 0 <= i < b.len() implies b[i] != 37 by {
            if i < head.len() {
                assert(b[i] == head[i]);
            } else {
                assert(b[i] == encode_utf8(t)[i - head.len()]);
            }
        }
    }
}

/// A text without a percent sign decodes to itself: a plus stays a plus.
pub proof fn text_without_percent_is_literal(s: Seq<char>)
    requires
        forall|i: int| 0 <= i < s.len() ==> s[i] != '%',
    ensures
        unescaped(encode_utf8(s)) == encode_utf8(s),
        valid_utf8(unescaped(encode_utf8(s))),
        decode_utf8(unescaped(encode_utf8(s))) == s,
{
    lemma_no_percent_bytes(s);
    unescaped_without_percent(encode_utf8(s));
    vstd::utf8::encode_utf8_valid_utf8(s);
    vstd::utf8::encode_utf8_decode_utf8(s);
}

pub open spec fn upper_hex(d: int) -> u8 {
    if d < 10 {
        (48 + d) as u8
    } else {
        (55 + d) as u8
    }
}

/// Every byte written as an escape.
pub open spec fn escaped(b: Seq<u8>) -> Seq<u8>
    decreases b.len(),
{
    if b.len() == 0 {
        b
    } else {
        seq![37u8, upper_hex(b[0] as int / 16), upper_hex(b[0] as int % 16)] + escaped(
            b.drop_first(),
        )
    }
}

/// Decoding undoes encoding, for any bytes.
pub proof fn unescaping_undoes_escaping(b: Seq<u8>)
    ensures
        unescaped(escaped(b)) == b,
    decreases b.len(),
{
    if b.len() > 0 {
        unescaping_undoes_escaping(b.drop_first());
        let e = escaped(b);
        assert(e.skip(3) =~= escaped(b.drop_first()));
        assert(is_escape(e));
        assert(hex_digit(e[1]) * 16 + hex_digit(e[2]) == b[0]);
        assert(seq![b[0]] + b.drop_first() =~= b);
    }
}

/// A text whose bytes are all escaped decodes to itself.
pub proof fn decoding_undoes_encoding(s: Seq<char>, encoded: Seq<char>)
    requires
        encode_utf8(encoded) == escaped(encode_utf8(s)),
    ensures
        percent_decoded(encoded) == s,
{
    unescaping_undoes_escaping(encode_utf8(s));
    vstd::utf8::encode_utf8_valid_utf8(s);
    vstd::utf8::encode_utf8_decode_utf8(s);
}

/// A bcc pair adds to the bcc field and shows nowhere else.
pub proof fn bcc_stays_in_its_own_field(f: Fields, pair: Seq<char>)
    requires
        lower(key_value(pair).0) == "bcc"@,
    ensures
        with_pair(f, pair) == (Fields {
            bcc: f.bcc + address_list(percent_decoded(key_value(pair).1)),
            ..f
        }),
{
    reveal_keys();
}

/// A pair with an unknown name changes nothing.
pub proof fn unknown_names_are_ignored(f: Fields, pair: Seq<char>)
    requires
        ({
            let key = lower(key_value(pair).0);
            key != "to"@ && key != "cc"@ && key != "bcc"@ && key != "subject"@ && key != "body"@
        }),
    ensures
        with_pair(f, pair) == f,
{
}

} // verus!
