//! What the mail parser can be given.
//!
//! The parser drops its result by recursion, and some of its arithmetic is
//! unchecked, so some inputs would end the program. They are told by their
//! lines and left unparsed.

use vstd::prelude::*;
use crate::text::{ascii_lower_char, chars_of, lower_char};

verus! {

/// How many headers of a mail may name a type that makes a part of it a message.
pub const NESTING_CAP: usize = 512;

// ---------------------------------------------------------------------------
// Words

/// Whether `word` stands in `raw` from `i` on, in either case.
pub open spec fn word_at(raw: Seq<u8>, word: Seq<char>, i: int) -> bool {
    &&& 0 <= i <= raw.len() - word.len()
    &&& forall|k: int| 0 <= k < word.len() ==> lower_char(raw[i + k] as char) == #[trigger] word[k]
}

pub open spec fn has_word(raw: Seq<u8>, word: Seq<char>) -> bool {
    exists|i: int| word_at(raw, word, i)
}

fn stands_at(raw: &[u8], word: &Vec<char>, i: usize) -> (r: bool)
    requires
        i + word@.len() <= raw@.len(),
    ensures
        r == word_at(raw@, word@, i as int),
{
    let len: usize = raw.len();
    let mut k: usize = 0;
    while k < word.len()
        invariant
            k <= word@.len(),
            i + word@.len() <= len == raw@.len(),
            forall|j: int| 0 <= j < k ==> lower_char(raw@[i + j] as char) == #[trigger] word@[j],
        decreases word@.len() - k,
    {
        if ascii_lower_char(raw[i + k] as char) != word[k] {
            assert(lower_char(raw@[i + k] as char) != word@[k as int]);
            return false;
        }
        k = k + 1;
    }
    true
}

fn find_word(raw: &[u8], word: &str) -> (r: bool)
    ensures
        r == has_word(raw@, word@),
{
    let cs = chars_of(word);
    if raw.len() < cs.len() {
        return false;
    }
    let last: usize = raw.len() - cs.len();
    let mut i: usize = 0;
    loop
        invariant
            cs@ == word@,
            last == raw@.len() - cs@.len(),
            i <= last,
            forall|j: int| 0 <= j < i ==> !word_at(raw@, word@, j),
        decreases last - i,
    {
        if stands_at(raw, &cs, i) {
            return true;
        }
        if i == last {
            return false;
        }
        i = i + 1;
    }
}

pub open spec fn is_space_byte(b: u8) -> bool {
    b as char == ' ' || b as char == '\t' || b as char == '\n' || b as char == '\x0c' || b as char
        == '\r'
}

pub open spec fn unspaced(raw: Seq<u8>) -> Seq<u8> {
    raw.filter(|b: u8| !is_space_byte(b))
}

fn is_space(b: u8) -> (r: bool)
    ensures
        r == is_space_byte(b),
{
    let c = b as char;
    c == ' ' || c == '\t' || c == '\n' || c == '\x0c' || c == '\r'
}

fn without_spaces(raw: &[u8]) -> (out: Vec<u8>)
    ensures
        out@ == unspaced(raw@),
{
    let mut out: Vec<u8> = Vec::new();
    let mut i: usize = 0;
    let ghost p = |b: u8| !is_space_byte(b);
    proof {
        reveal(Seq::filter);
    }
    while i < raw.len()
        invariant
            i <= raw@.len(),
            p == (|b: u8| !is_space_byte(b)),
            out@ == raw@.take(i as int).filter(p),
        decreases raw@.len() - i,
    {
        proof {
            reveal(Seq::filter);
            assert(raw@.take(i + 1).drop_last() =~= raw@.take(i as int));
        }
        if !is_space(raw[i]) {
            out.push(raw[i]);
        }
        i = i + 1;
    }
    assert(raw@.take(i as int) =~= raw@);
    out
}

// ---------------------------------------------------------------------------
// The least number

/// Whether `s` ends in a minus sign and any zeros.
pub open spec fn ends_negative(s: Seq<u8>) -> bool
    decreases s.len(),
{
    s.len() > 0 && (s.last() as char == '-' || (s.last() as char == '0' && ends_negative(
        s.drop_last(),
    )))
}

pub open spec fn least_at(raw: Seq<u8>, i: int) -> bool {
    word_at(raw, "9223372036854775808"@, i) && ends_negative(raw.take(i))
}

/// Whether the least number of 64 bits stands in `raw`, with any zeros before
/// it.
pub open spec fn has_least(raw: Seq<u8>) -> bool {
    exists|i: int| least_at(raw, i)
}

pub fn find_least(raw: &[u8]) -> (r: bool)
    ensures
        r == has_least(raw@),
{
    let cs = chars_of("9223372036854775808");
    proof {
        reveal_strlit("9223372036854775808");
    }
    if raw.len() < cs.len() {
        return false;
    }
    let last: usize = raw.len() - cs.len();
    let mut negative = false;
    let mut i: usize = 0;
    loop
        invariant
            cs@ == "9223372036854775808"@,
            last == raw@.len() - cs@.len(),
            cs@.len() > 0,
            i <= last,
            negative == ends_negative(raw@.take(i as int)),
            forall|j: int| 0 <= j < i ==> !least_at(raw@, j),
        decreases last - i,
    {
        if negative && stands_at(raw, &cs, i) {
            assert(least_at(raw@, i as int));
            return true;
        }
        assert(!least_at(raw@, i as int));
        if i == last {
            return false;
        }
        let c = raw[i] as char;
        proof {
            assert(raw@.take(i + 1).drop_last() =~= raw@.take(i as int));
            assert(raw@.take(i + 1).last() == raw@[i as int]);
        }
        negative = c == '-' || (c == '0' && negative);
        i = i + 1;
    }
}

// ---------------------------------------------------------------------------
// Headers by their lines

/// The lines of `raw`, each without its line feed.
pub open spec fn byte_lines(raw: Seq<u8>) -> Seq<Seq<u8>>
    decreases raw.len(),
{
    if raw.len() == 0 {
        seq![Seq::empty()]
    } else {
        let before = byte_lines(raw.drop_last());
        if raw.last() as char == '\n' {
            before.push(Seq::empty())
        } else {
            before.drop_last().push(before.last().push(raw.last()))
        }
    }
}

/// What is known of a mail behind some of its lines. Any line that may be one
/// of a header counts as one, wherever it stands.
#[derive(Clone, Copy)]
pub struct HeaderScan {
    /// In the header that states a type.
    pub in_type: bool,
    /// In the header that states a transfer encoding.
    pub in_coding: bool,
    /// In a header that holds a date.
    pub in_date: bool,
    /// Behind a date that may take in the line break behind it.
    pub open_date: bool,
    /// The headers since the last blank line name the type of a message.
    pub nests: bool,
    /// The headers since the last blank line name an encoding that hides what
    /// it encodes.
    pub coded: bool,
    /// Some header names an encoding that hides what it encodes.
    pub ever_coded: bool,
    /// Some header names the type of a digest.
    pub ever_digest: bool,
    /// Some headers name both the type of a message and an encoding.
    pub hides: bool,
}

pub open spec fn no_lines() -> HeaderScan {
    HeaderScan {
        in_type: false,
        in_coding: false,
        in_date: false,
        open_date: false,
        nests: false,
        coded: false,
        ever_coded: false,
        ever_digest: false,
        hides: false,
    }
}

/// The line that ends the headers.
pub open spec fn is_blank(line: Seq<u8>) -> bool {
    line.len() == 0 || (line.len() == 1 && line[0] as char == '\r')
}

/// A line that goes on with the header before it.
pub open spec fn is_folded(line: Seq<u8>) -> bool {
    line.len() > 0 && (line[0] as char == ' ' || line[0] as char == '\t')
}

pub open spec fn is_letter_byte(b: u8) -> bool {
    'a' <= lower_char(b as char) <= 'z'
}

/// Whether a word starts at `p`.
pub open spec fn starts_word(line: Seq<u8>, p: int) -> bool {
    0 <= p < line.len() && is_letter_byte(line[p]) && (p == 0 || !is_letter_byte(line[p - 1]))
}

/// A line that ends in a word of one or two bytes: as a zone it is read with a
/// third byte, which is the line break.
pub open spec fn ends_in_short_word(line: Seq<u8>) -> bool {
    starts_word(line, line.len() - 1) || starts_word(line, line.len() - 2)
}

pub open spec fn line_in_type(s: HeaderScan, line: Seq<u8>) -> bool {
    has_word(unspaced(line), "content-type:"@) || (s.in_type && is_folded(line))
}

pub open spec fn line_in_coding(s: HeaderScan, line: Seq<u8>) -> bool {
    has_word(unspaced(line), "transfer-encoding:"@) || (s.in_coding && is_folded(line))
}

pub open spec fn line_in_date(s: HeaderScan, line: Seq<u8>) -> bool {
    has_word(unspaced(line), "date:"@) || (s.in_date && (is_folded(line) || s.open_date))
}

pub open spec fn names_message(line: Seq<u8>) -> bool {
    has_word(line, "rfc822"@) || has_word(line, "global"@)
}

pub open spec fn names_digest(line: Seq<u8>) -> bool {
    has_word(line, "digest"@)
}

/// An encoding is named outright or as an encoded word.
pub open spec fn names_coding(line: Seq<u8>) -> bool {
    has_word(line, "base64"@) || has_word(line, "quoted-printable"@) || has_word(line, "=?"@)
}

/// One line further.
pub open spec fn stepped(s: HeaderScan, line: Seq<u8>) -> HeaderScan {
    if is_blank(line) {
        if s.open_date {
            HeaderScan { in_type: false, in_coding: false, ..s }
        } else {
            HeaderScan {
                in_type: false,
                in_coding: false,
                in_date: false,
                nests: false,
                coded: false,
                ..s
            }
        }
    } else {
        let in_type = line_in_type(s, line);
        let in_coding = line_in_coding(s, line);
        let in_date = line_in_date(s, line);
        let nests = s.nests || (in_type && names_message(line));
        let coded = s.coded || (in_coding && names_coding(line));
        HeaderScan {
            in_type,
            in_coding,
            in_date,
            open_date: in_date && ends_in_short_word(line),
            nests,
            coded,
            ever_coded: s.ever_coded || coded,
            ever_digest: s.ever_digest || (in_type && names_digest(line)),
            hides: s.hides || (nests && coded),
        }
    }
}

pub open spec fn scanned(lines: Seq<Seq<u8>>) -> HeaderScan
    decreases lines.len(),
{
    if lines.len() == 0 {
        no_lines()
    } else {
        stepped(scanned(lines.drop_last()), lines.last())
    }
}

/// Whether a line of a header names a type that makes a part a message, or the
/// parts of a digest messages.
pub open spec fn adds_level(s: HeaderScan, line: Seq<u8>) -> bool {
    !is_blank(line) && line_in_type(s, line) && (names_message(line) || names_digest(line))
}

/// How deep messages may lie within one another: each takes a header of its
/// own.
pub open spec fn levels(lines: Seq<Seq<u8>>) -> nat
    decreases lines.len(),
{
    if lines.len() == 0 {
        0
    } else {
        levels(lines.drop_last()) + if adds_level(scanned(lines.drop_last()), lines.last()) {
            1nat
        } else {
            0nat
        }
    }
}

/// Whether an encoding may hide a message: its type is named beside the
/// encoding, or is that of the parts of a digest, which need name none.
pub open spec fn may_hide(s: HeaderScan) -> bool {
    s.hides || (s.ever_coded && s.ever_digest)
}

fn is_letter(b: u8) -> (r: bool)
    ensures
        r == is_letter_byte(b),
{
    let c = ascii_lower_char(b as char);
    'a' <= c && c <= 'z'
}

fn word_starts(line: &[u8], p: usize) -> (r: bool)
    requires
        p < line@.len(),
    ensures
        r == starts_word(line@, p as int),
{
    is_letter(line[p]) && (p == 0 || !is_letter(line[p - 1]))
}

fn short_word_ends(line: &[u8]) -> (r: bool)
    ensures
        r == ends_in_short_word(line@),
{
    let n: usize = line.len();
    (n > 0 && word_starts(line, n - 1)) || (n > 1 && word_starts(line, n - 2))
}

/// One line further, and whether it names a type that holds messages.
fn step(s: HeaderScan, line: &[u8]) -> (r: (HeaderScan, bool))
    ensures
        r.0 == stepped(s, line@),
        r.1 == adds_level(s, line@),
{
    let n: usize = line.len();
    if n == 0 || (n == 1 && line[0] as char == '\r') {
        if s.open_date {
            return (HeaderScan { in_type: false, in_coding: false, ..s }, false);
        }
        return (
            HeaderScan {
                in_type: false,
                in_coding: false,
                in_date: false,
                nests: false,
                coded: false,
                ..s
            },
            false,
        );
    }
    let folded = line[0] as char == ' ' || line[0] as char == '\t';
    let name = without_spaces(line);
    let in_type = find_word(name.as_slice(), "content-type:") || (s.in_type && folded);
    let in_coding = find_word(name.as_slice(), "transfer-encoding:") || (s.in_coding && folded);
    let in_date = find_word(name.as_slice(), "date:") || (s.in_date && (folded || s.open_date));
    let message = in_type && (find_word(line, "rfc822") || find_word(line, "global"));
    let digest = in_type && find_word(line, "digest");
    let coded = s.coded || (in_coding && (find_word(line, "base64") || find_word(
        line,
        "quoted-printable",
    ) || find_word(line, "=?")));
    let nests = s.nests || message;
    (
        HeaderScan {
            in_type,
            in_coding,
            in_date,
            open_date: in_date && short_word_ends(line),
            nests,
            coded,
            ever_coded: s.ever_coded || coded,
            ever_digest: s.ever_digest || digest,
            hides: s.hides || (nests && coded),
        },
        message || digest,
    )
}

/// What a mail's lines show, and how many of them name a type that holds
/// messages.
fn scan(raw: &[u8]) -> (r: (HeaderScan, usize))
    ensures
        r.0 == scanned(byte_lines(raw@)),
        r.1 == levels(byte_lines(raw@)),
{
    let len: usize = raw.len();
    let mut s = HeaderScan {
        in_type: false,
        in_coding: false,
        in_date: false,
        open_date: false,
        nests: false,
        coded: false,
        ever_coded: false,
        ever_digest: false,
        hides: false,
    };
    let mut count: usize = 0;
    let mut line: Vec<u8> = Vec::new();
    let mut i: usize = 0;
    let ghost mut done: Seq<Seq<u8>> = Seq::empty();
    assert(byte_lines(raw@.take(0)) =~= done.push(line@));
    while i < len
        invariant
            i <= len == raw@.len(),
            count + line@.len() <= i,
            s == scanned(done),
            count == levels(done),
            byte_lines(raw@.take(i as int)) == done.push(line@),
        decreases len - i,
    {
        let b = raw[i];
        proof {
            assert(raw@.take(i + 1).drop_last() =~= raw@.take(i as int));
            assert(raw@.take(i + 1).last() == b);
            assert(done.push(line@).drop_last() =~= done);
        }
        if b as char == '\n' {
            let (next, level) = step(s, line.as_slice());
            proof {
                done = done.push(line@);
            }
            s = next;
            if level {
                count = count + 1;
            }
            line = Vec::new();
            assert(line@ =~= Seq::empty());
        } else {
            line.push(b);
        }
        i = i + 1;
    }
    let (next, level) = step(s, line.as_slice());
    proof {
        assert(raw@.take(i as int) =~= raw@);
        assert(done.push(line@).drop_last() =~= done);
    }
    (next, if level { count + 1 } else { count })
}

// ---------------------------------------------------------------------------
// Cut lines before a boundary

/// The line that `s` ends in, without its spaces.
pub open spec fn last_line(s: Seq<u8>) -> Seq<u8>
    decreases s.len(),
{
    if s.len() == 0 || s.last() as char == '\n' {
        Seq::empty()
    } else if is_space_byte(s.last()) {
        last_line(s.drop_last())
    } else {
        last_line(s.drop_last()).push(s.last())
    }
}

/// A line that is cut by a trailing `=` and holds one character before it at
/// the most, be it an encoded one.
pub open spec fn is_cut_short(line: Seq<u8>) -> bool {
    &&& line.len() > 0
    &&& line.last() as char == '='
    &&& line.len() <= 2 || (line.len() == 4 && line[0] as char == '=')
}

pub open spec fn cut_at(raw: Seq<u8>, i: int) -> bool {
    &&& 0 <= i < raw.len() - 2
    &&& raw[i] as char == '\n'
    &&& raw[i + 1] as char == '-'
    &&& raw[i + 2] as char == '-'
    &&& is_cut_short(last_line(raw.take(i)))
}

/// Whether two dashes, as before a boundary, stand behind a line that is cut
/// short.
pub open spec fn has_cut_dashes(raw: Seq<u8>) -> bool {
    exists|i: int| cut_at(raw, i)
}

fn find_cut_dashes(raw: &[u8]) -> (r: bool)
    ensures
        r == has_cut_dashes(raw@),
{
    let len: usize = raw.len();
    let mut line: Vec<u8> = Vec::new();
    let mut i: usize = 0;
    assert(line@ =~= last_line(raw@.take(0)));
    while i < len
        invariant
            i <= len == raw@.len(),
            line@ == last_line(raw@.take(i as int)),
            forall|j: int| 0 <= j < i ==> !cut_at(raw@, j),
        decreases len - i,
    {
        let b = raw[i];
        let n: usize = line.len();
        let short = n > 0 && line[n - 1] as char == '=' && (n <= 2 || (n == 4 && line[0] as char
            == '='));
        if short && b as char == '\n' && len - i > 2 && raw[i + 1] as char == '-' && raw[i
            + 2] as char == '-' {
            assert(cut_at(raw@, i as int));
            return true;
        }
        proof {
            assert(raw@.take(i + 1).drop_last() =~= raw@.take(i as int));
            assert(raw@.take(i + 1).last() == b);
            assert(!cut_at(raw@, i as int));
        }
        if b as char == '\n' {
            line = Vec::new();
            assert(line@ =~= Seq::empty());
        } else if !is_space(b) {
            line.push(b);
        }
        i = i + 1;
    }
    false
}

// ---------------------------------------------------------------------------
// All of it

/// A mail that can be parsed: the least number does not stand in it, no encoding
/// hides a message in it, its messages do not nest too deep, and where it is
/// encoded no boundary follows a line that is cut short.
pub open spec fn is_parsable(raw: Seq<u8>) -> bool {
    let s = scanned(byte_lines(raw));
    &&& !has_least(raw)
    &&& !may_hide(s)
    &&& levels(byte_lines(raw)) <= NESTING_CAP
    &&& !s.ever_coded || !has_cut_dashes(raw)
}

pub fn can_be_parsed(raw: &[u8]) -> (r: bool)
    ensures
        r == is_parsable(raw@),
{
    if find_least(raw) {
        return false;
    }
    let (s, count) = scan(raw);
    !(s.hides || (s.ever_coded && s.ever_digest)) && count <= NESTING_CAP && (!s.ever_coded
        || !find_cut_dashes(raw))
}

// ---------------------------------------------------------------------------
// What is not left out

proof fn lines_present(raw: Seq<u8>)
    ensures
        byte_lines(raw).len() > 0,
    decreases raw.len(),
{
    if raw.len() > 0 {
        lines_present(raw.drop_last());
    }
}

/// Where a line of `raw` stands in it.
proof fn line_place(raw: Seq<u8>, j: int) -> (o: int)
    requires
        0 <= j < byte_lines(raw).len(),
    ensures
        0 <= o <= raw.len() - byte_lines(raw)[j].len(),
        byte_lines(raw)[j] =~= raw.subrange(o, o + byte_lines(raw)[j].len()),
        j == byte_lines(raw).len() - 1 ==> o == raw.len() - byte_lines(raw)[j].len(),
    decreases raw.len(),
{
    if raw.len() == 0 {
        0
    } else {
        if j == byte_lines(raw).len() - 1 && raw.last() as char == '\n' {
            raw.len() as int
        } else {
            lines_present(raw.drop_last());
            line_place(raw.drop_last(), j)
        }
    }
}

proof fn line_words(raw: Seq<u8>, j: int, word: Seq<char>)
    requires
        0 <= j < byte_lines(raw).len(),
        has_word(byte_lines(raw)[j], word),
    ensures
        has_word(raw, word),
{
    let o = line_place(raw, j);
    let line = byte_lines(raw)[j];
    let i = choose|i: int| word_at(line, word, i);
    assert forall|k: int| 0 <= k < word.len() implies lower_char(raw[o + i + k] as char)
        == #[trigger] word[k] by {
        assert(line[i + k] == raw[o + i + k]);
    }
    assert(word_at(raw, word, o + i));
}

proof fn uncoded_lines(raw: Seq<u8>, n: int)
    requires
        0 <= n <= byte_lines(raw).len(),
        !names_coding(raw),
    ensures
        ({
            let s = scanned(byte_lines(raw).take(n));
            !s.coded && !s.ever_coded && !s.hides
        }),
    decreases n,
{
    let lines = byte_lines(raw);
    if n > 0 {
        uncoded_lines(raw, n - 1);
        assert(lines.take(n).drop_last() =~= lines.take(n - 1));
        assert(lines.take(n).last() == lines[n - 1]);
        if names_coding(lines[n - 1]) {
            if has_word(lines[n - 1], "base64"@) {
                line_words(raw, n - 1, "base64"@);
            } else if has_word(lines[n - 1], "quoted-printable"@) {
                line_words(raw, n - 1, "quoted-printable"@);
            } else {
                line_words(raw, n - 1, "=?"@);
            }
        }
    }
}

proof fn untyped_lines(raw: Seq<u8>, n: int)
    requires
        0 <= n <= byte_lines(raw).len(),
        !names_message(raw),
        !names_digest(raw),
    ensures
        ({
            let s = scanned(byte_lines(raw).take(n));
            !s.nests && !s.ever_digest && !s.hides
        }),
        levels(byte_lines(raw).take(n)) == 0,
    decreases n,
{
    let lines = byte_lines(raw);
    if n > 0 {
        untyped_lines(raw, n - 1);
        assert(lines.take(n).drop_last() =~= lines.take(n - 1));
        assert(lines.take(n).last() == lines[n - 1]);
        if has_word(lines[n - 1], "rfc822"@) {
            line_words(raw, n - 1, "rfc822"@);
        }
        if has_word(lines[n - 1], "global"@) {
            line_words(raw, n - 1, "global"@);
        }
        if has_word(lines[n - 1], "digest"@) {
            line_words(raw, n - 1, "digest"@);
        }
    }
}

/// A mail of any length that names no encoding is left out for its depth alone,
/// or for the least number.
pub proof fn uncoded_mail_is_parsable(raw: Seq<u8>)
    requires
        !names_coding(raw),
        !has_least(raw),
    ensures
        is_parsable(raw) == (levels(byte_lines(raw)) <= NESTING_CAP),
{
    let lines = byte_lines(raw);
    uncoded_lines(raw, lines.len() as int);
    assert(lines.take(lines.len() as int) =~= lines);
}

/// A mail of any length and encoding that names no type of a message or a
/// digest can be parsed, unless a boundary follows a line that is cut short or
/// the least number stands in it.
pub proof fn mail_of_no_messages_is_parsable(raw: Seq<u8>)
    requires
        !names_message(raw),
        !names_digest(raw),
        !has_cut_dashes(raw),
        !has_least(raw),
    ensures
        is_parsable(raw),
{
    let lines = byte_lines(raw);
    untyped_lines(raw, lines.len() as int);
    assert(lines.take(lines.len() as int) =~= lines);
}

} // verus!
