//! JSON documents, built value by value.

use vstd::prelude::*;
use crate::number::decimal;
use crate::scan::join;
use crate::text::texts;

verus! {

/// A JSON value of the `serde_json` crate.
#[verifier::external_type_specification]
#[verifier::external_body]
pub struct ExValue(serde_json::Value);

/// The compact text of a value: what `Display` for `serde_json::Value` writes.
pub uninterp spec fn value_text(v: serde_json::Value) -> Seq<char>;

pub open spec fn hex_char(n: int) -> char {
    if n < 10 {
        ('0' as int + n) as char
    } else {
        ('a' as int + n - 10) as char
    }
}

/// A character within a JSON string. Quotes, backslashes and control characters
/// are escaped, some of these by a letter of their own.
pub open spec fn escaped_char(c: char) -> Seq<char> {
    if c == '"' || c == '\\' {
        seq!['\\', c]
    } else if c == '\x08' {
        seq!['\\', 'b']
    } else if c == '\t' {
        seq!['\\', 't']
    } else if c == '\n' {
        seq!['\\', 'n']
    } else if c == '\x0c' {
        seq!['\\', 'f']
    } else if c == '\r' {
        seq!['\\', 'r']
    } else if (c as int) < 32 {
        seq!['\\', 'u', '0', '0', hex_char(c as int / 16), hex_char(c as int % 16)]
    } else {
        seq![c]
    }
}

pub open spec fn escaped_text(s: Seq<char>) -> Seq<char>
    decreases s.len(),
{
    if s.len() == 0 {
        s
    } else {
        escaped_char(s[0]) + escaped_text(s.drop_first())
    }
}

/// A text as a JSON string, quoted and escaped.
pub open spec fn json_string(s: Seq<char>) -> Seq<char> {
    seq!['"'] + escaped_text(s) + seq!['"']
}

pub open spec fn value_texts(vs: Seq<serde_json::Value>) -> Seq<Seq<char>> {
    Seq::new(vs.len(), |i: int| value_text(vs[i]))
}

/// An array of items given by their texts.
pub open spec fn array_text(items: Seq<Seq<char>>) -> Seq<char> {
    "["@ + join(items, ","@) + "]"@
}

pub open spec fn members_of(fields: Seq<(String, serde_json::Value)>) -> Seq<Seq<char>> {
    Seq::new(fields.len(), |i: int| member(fields[i].0@, value_text(fields[i].1)))
}

/// A member of an object.
pub open spec fn member(key: Seq<char>, value: Seq<char>) -> Seq<char> {
    json_string(key) + ":"@ + value
}

/// An object of members given by their texts.
pub open spec fn object_text(members: Seq<Seq<char>>) -> Seq<char> {
    "{"@ + join(members, ","@) + "}"@
}

pub open spec fn keys_distinct(fields: Seq<(String, serde_json::Value)>) -> bool {
    forall|i: int, j: int|
        0 <= i < j < fields.len() ==> (#[trigger] fields[i]).0@ != (#[trigger] fields[j]).0@
}

/// The text of a signed number.
pub open spec fn signed_decimal(n: int) -> Seq<char> {
    if n < 0 {
        "-"@ + decimal((-n) as nat)
    } else {
        decimal(n as nat)
    }
}

/// `serde_json::Value::Null`, which is written `null`.
#[verifier::external_body]
pub(crate) fn json_null() -> (r: serde_json::Value)
    ensures
        value_text(r) == "null"@,
{
    serde_json::Value::Null
}

/// `serde_json::Value::Bool`, which is written `true` or `false`.
#[verifier::external_body]
pub(crate) fn json_bool(b: bool) -> (r: serde_json::Value)
    ensures
        value_text(r) == if b {
            "true"@
        } else {
            "false"@
        },
{
    serde_json::Value::Bool(b)
}

/// `serde_json::Value::from` for `u64`, which is written in decimal.
#[verifier::external_body]
pub(crate) fn json_number(n: u64) -> (r: serde_json::Value)
    ensures
        value_text(r) == decimal(n as nat),
{
    serde_json::Value::from(n)
}

/// `serde_json::Value::from` for `i64`, which is written in decimal, with a
/// minus sign where it is negative.
#[verifier::external_body]
pub(crate) fn json_signed(n: i64) -> (r: serde_json::Value)
    ensures
        value_text(r) == signed_decimal(n as int),
{
    serde_json::Value::from(n)
}

/// `serde_json::Value::String`, which is written as a quoted and escaped
/// string.
#[verifier::external_body]
pub(crate) fn json_text(s: &str) -> (r: serde_json::Value)
    ensures
        value_text(r) == json_string(s@),
{
    serde_json::Value::String(s.to_string())
}

/// `serde_json::Value::Array`, which is written as its items, in brackets,
/// with commas between them.
#[verifier::external_body]
pub(crate) fn json_array(items: Vec<serde_json::Value>) -> (r: serde_json::Value)
    ensures
        value_text(r) == array_text(value_texts(items@)),
{
    serde_json::Value::Array(items)
}

/// `serde_json::Value::Object` of a `serde_json::Map` collected from its
/// members. The map keeps the order in which they were inserted, so that it is
/// written as its members, in braces, with commas between them.
#[verifier::external_body]
pub(crate) fn json_object(fields: Vec<(String, serde_json::Value)>) -> (r: serde_json::Value)
    requires
        keys_distinct(fields@),
    ensures
        value_text(r) == object_text(members_of(fields@)),
{
    serde_json::Value::Object(fields.into_iter().collect())
}

/// `to_string` of a `serde_json::Value`: its compact text.
#[verifier::external_body]
pub(crate) fn json_to_string(v: &serde_json::Value) -> (r: String)
    ensures
        r@ == value_text(*v),
{
    v.to_string()
}

pub open spec fn optional_text(o: Option<Seq<char>>) -> Seq<char> {
    match o {
        Some(s) => json_string(s),
        None => "null"@,
    }
}

pub open spec fn optional_number(o: Option<nat>) -> Seq<char> {
    match o {
        Some(n) => decimal(n),
        None => "null"@,
    }
}

pub(crate) fn json_opt_text(o: &Option<String>) -> (r: serde_json::Value)
    ensures
        value_text(r) == optional_text(crate::text::opt_text(*o)),
{
    match o {
        Some(s) => json_text(s.as_str()),
        None => json_null(),
    }
}

pub open spec fn as_nat(o: Option<u64>) -> Option<nat> {
    match o {
        Some(n) => Some(n as nat),
        None => None,
    }
}

pub(crate) fn json_opt_number(o: Option<u64>) -> (r: serde_json::Value)
    ensures
        value_text(r) == optional_number(as_nat(o)),
{
    match o {
        Some(n) => json_number(n),
        None => json_null(),
    }
}

/// The strings of a list, as JSON.
pub open spec fn strings(s: Seq<Seq<char>>) -> Seq<Seq<char>> {
    s.map_values(|t: Seq<char>| json_string(t))
}

pub(crate) fn json_texts(v: &Vec<String>) -> (r: serde_json::Value)
    ensures
        value_text(r) == array_text(strings(texts(v@))),
{
    let mut items: Vec<serde_json::Value> = Vec::new();
    let mut i: usize = 0;
    while i < v.len()
        invariant
            i <= v@.len(),
            items@.len() == i,
            forall|k: int| 0 <= k < i ==> value_text(#[trigger] items@[k]) == json_string(v@[k]@),
        decreases v@.len() - i,
    {
        items.push(json_text(v[i].as_str()));
        i = i + 1;
    }
    proof {
        assert(value_texts(items@) =~= strings(texts(v@)));
    }
    json_array(items)
}

// ---------------------------------------------------------------------------
// Reading

pub open spec fn opt_value_text(o: Option<serde_json::Value>) -> Option<Seq<char>> {
    match o {
        Some(v) => Some(value_text(v)),
        None => None,
    }
}

/// The compact text of the document that some bytes hold; `None` where they
/// hold none.
pub uninterp spec fn document_text(bytes: Seq<u8>) -> Option<Seq<char>>;

/// The compact text of a document's member; `None` where it has none of that
/// name, or is no object.
pub uninterp spec fn member_of(document: Seq<char>, key: Seq<char>) -> Option<Seq<char>>;

/// The text that a document is the JSON string of; `None` if it is no string.
pub open spec fn string_in(document: Seq<char>) -> Option<Seq<char>> {
    if exists|s: Seq<char>| document == json_string(s) {
        Some(choose|s: Seq<char>| document == json_string(s))
    } else {
        None
    }
}

/// The number that a document is; `None` if it is none, or does not fit.
pub open spec fn number_in(document: Seq<char>) -> Option<u64> {
    if exists|n: u64| document == decimal(n as nat) {
        Some(choose|n: u64| document == decimal(n as nat))
    } else {
        None
    }
}

/// `serde_json::from_slice` into a `serde_json::Value`. What it reads depends
/// on the bytes alone.
#[verifier::external_body]
pub(crate) fn json_parse(bytes: &[u8]) -> (r: Option<serde_json::Value>)
    ensures
        opt_value_text(r) == document_text(bytes@),
{
    serde_json::from_slice(bytes).ok()
}

/// `serde_json::Value::get` with a name. What it finds depends on the document
/// and the name alone.
#[verifier::external_body]
pub(crate) fn json_member(v: &serde_json::Value, key: &str) -> (r: Option<serde_json::Value>)
    ensures
        opt_value_text(r) == member_of(value_text(*v), key@),
{
    v.get(key).cloned()
}

/// `serde_json::Value::as_str`: the text of a string, nothing of any other
/// value.
#[verifier::external_body]
pub(crate) fn json_as_text(v: &serde_json::Value) -> (r: Option<String>)
    ensures
        crate::text::opt_text(r) == string_in(value_text(*v)),
{
    v.as_str().map(|s| s.to_string())
}

/// `serde_json::Value::as_u64`: an integer that fits, nothing of any other
/// value.
#[verifier::external_body]
pub(crate) fn json_as_number(v: &serde_json::Value) -> (r: Option<u64>)
    ensures
        r == number_in(value_text(*v)),
{
    v.as_u64()
}

// ---------------------------------------------------------------------------
// Reading back

/// No character's escape begins another's.
proof fn escapes_differ(x: char, y: char, rest_x: Seq<char>, rest_y: Seq<char>)
    requires
        escaped_char(x) + rest_x == escaped_char(y) + rest_y,
    ensures
        x == y,
        rest_x == rest_y,
{
    let ex = escaped_char(x);
    let ey = escaped_char(y);
    let e = ex + rest_x;
    assert forall|i: int| 0 <= i < ex.len() implies e[i] == ex[i] by {}
    assert forall|i: int| 0 <= i < ey.len() implies e[i] == ey[i] by {
        assert((ey + rest_y)[i] == ey[i]);
    }
    assert(ex[0] == ey[0]);
    if ex.len() > 1 && ey.len() > 1 {
        assert(ex[1] == ey[1]);
        if ex.len() > 2 && ey.len() > 2 {
            assert(ex[4] == ey[4]);
            assert(ex[5] == ey[5]);
        }
    }
    assert(x == y);
    assert(rest_x =~= e.skip(ex.len() as int));
    assert(rest_y =~= (ey + rest_y).skip(ey.len() as int));
}

proof fn escaped_texts_differ(a: Seq<char>, b: Seq<char>)
    requires
        escaped_text(a) == escaped_text(b),
    ensures
        a == b,
    decreases a.len(),
{
    if a.len() > 0 && b.len() > 0 {
        escapes_differ(
            a[0],
            b[0],
            escaped_text(a.drop_first()),
            escaped_text(b.drop_first()),
        );
        escaped_texts_differ(a.drop_first(), b.drop_first());
        assert(a =~= seq![a[0]] + a.drop_first());
        assert(b =~= seq![b[0]] + b.drop_first());
    } else {
        assert(a.len() > 0 ==> escaped_text(a).len() > 0);
        assert(b.len() > 0 ==> escaped_text(b).len() > 0);
        assert(a =~= b);
    }
}

/// A text is read back off its JSON string, whatever it holds.
pub proof fn strings_read_back(s: Seq<char>)
    ensures
        string_in(json_string(s)) == Some(s),
{
    let d = json_string(s);
    assert(exists|t: Seq<char>| d == json_string(t));
    let t = choose|t: Seq<char>| d == json_string(t);
    assert(d.subrange(1, d.len() - 1) =~= escaped_text(s));
    assert(d.subrange(1, d.len() - 1) =~= escaped_text(t));
    escaped_texts_differ(s, t);
}

} // verus!
