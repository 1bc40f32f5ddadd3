//! Taking texts apart and putting them together.

use vstd::prelude::*;
use crate::text::{chars_of, is_space, is_whitespace, text_range, texts, texts_push};

verus! {

// ---------------------------------------------------------------------------
// Finding

/// Where `c` first stands in `s`; the length of `s` when it does not.
pub open spec fn until(s: Seq<char>, c: char) -> nat
    decreases s.len(),
{
    if s.len() == 0 || s[0] == c {
        0
    } else {
        1 + until(s.drop_first(), c)
    }
}

/// How many characters of `s` come before its first white space.
pub open spec fn until_space(s: Seq<char>) -> nat
    decreases s.len(),
{
    if s.len() == 0 || is_space(s[0]) {
        0
    } else {
        1 + until_space(s.drop_first())
    }
}

pub proof fn lemma_until(s: Seq<char>, c: char)
    ensures
        until(s, c) <= s.len(),
        forall|i: int| 0 <= i < until(s, c) ==> s[i] != c,
        until(s, c) < s.len() ==> s[until(s, c) as int] == c,
    decreases s.len(),
{
    if s.len() != 0 && s[0] != c {
        lemma_until(s.drop_first(), c);
        assert forall|i: int| 0 <= i < until(s, c) implies s[i] != c by {
            if i > 0 {
                assert(s.drop_first()[i - 1] == s[i]);
            }
        }
    }
}

/// `until` is the only index with its properties.
pub proof fn lemma_until_is(s: Seq<char>, c: char, n: nat)
    requires
        n <= s.len(),
        forall|i: int| 0 <= i < n ==> s[i] != c,
        n < s.len() ==> s[n as int] == c,
    ensures
        until(s, c) == n,
{
    lemma_until(s, c);
    if until(s, c) < n {
        assert(s[until(s, c) as int] != c);
    }
    if n < until(s, c) {
        assert(s[n as int] != c);
    }
}

pub proof fn lemma_until_space(s: Seq<char>)
    ensures
        until_space(s) <= s.len(),
        forall|i: int| 0 <= i < until_space(s) ==> !is_space(s[i]),
        until_space(s) < s.len() ==> is_space(s[until_space(s) as int]),
    decreases s.len(),
{
    if s.len() != 0 && !is_space(s[0]) {
        lemma_until_space(s.drop_first());
        assert forall|i: int| 0 <= i < until_space(s) implies !is_space(s[i]) by {
            if i > 0 {
                assert(s.drop_first()[i - 1] == s[i]);
            }
        }
    }
}

pub proof fn lemma_until_space_is(s: Seq<char>, n: nat)
    requires
        n <= s.len(),
        forall|i: int| 0 <= i < n ==> !is_space(s[i]),
        n < s.len() ==> is_space(s[n as int]),
    ensures
        until_space(s) == n,
{
    lemma_until_space(s);
    if until_space(s) < n {
        assert(!is_space(s[until_space(s) as int]));
    }
    if n < until_space(s) {
        assert(!is_space(s[n as int]));
    }
}

/// The first index from `from` on that holds `c`, else the length.
pub fn find_char(cs: &Vec<char>, from: usize, c: char) -> (r: usize)
    requires
        from <= cs@.len(),
    ensures
        from <= r <= cs@.len(),
        r == from + until(cs@.skip(from as int), c),
{
    let mut i: usize = from;
    while i < cs.len() && cs[i] != c
        invariant
            from <= i <= cs@.len(),
            forall|k: int| from <= k < i ==> cs@[k] != c,
        decreases cs@.len() - i,
    {
        i = i + 1;
    }
    proof {
        lemma_until_is(cs@.skip(from as int), c, (i - from) as nat);
    }
    i
}

/// The last place of `c` in `s`, if it has one.
pub open spec fn last_index(s: Seq<char>, c: char) -> Option<int>
    decreases s.len(),
{
    if s.len() == 0 {
        None
    } else if s.last() == c {
        Some(s.len() - 1)
    } else {
        last_index(s.drop_last(), c)
    }
}

pub proof fn lemma_last_index(s: Seq<char>, c: char)
    ensures
        last_index(s, c) matches Some(k) ==> 0 <= k < s.len() && s[k] == c && forall|i: int|
            k < i < s.len() ==> s[i] != c,
        last_index(s, c) is None ==> forall|i: int| 0 <= i < s.len() ==> s[i] != c,
    decreases s.len(),
{
    if s.len() != 0 && s.last() != c {
        lemma_last_index(s.drop_last(), c);
        assert forall|i: int| 0 <= i < s.len() - 1 implies #[trigger] s[i] == s.drop_last()[i] by {}
    }
}

/// `str::rfind` for one character, in characters.
pub fn find_last(cs: &Vec<char>, c: char) -> (r: Option<usize>)
    ensures
        last_index(cs@, c) == (match r {
            Some(k) => Some(k as int),
            None => None,
        }),
        r matches Some(k) ==> k < cs@.len() && cs@[k as int] == c,
{
    let mut i: usize = cs.len();
    proof {
        assert(cs@.take(cs@.len() as int) =~= cs@);
    }
    while i > 0
        invariant
            i <= cs@.len(),
            last_index(cs@, c) == last_index(cs@.take(i as int), c),
        decreases i,
    {
        proof {
            assert(cs@.take(i as int).drop_last() =~= cs@.take(i - 1));
        }
        if cs[i - 1] == c {
            return Some(i - 1);
        }
        i = i - 1;
    }
    None
}

// ---------------------------------------------------------------------------
// Splitting

/// `str::split` on one character: the pieces between its occurrences.
pub open spec fn split(s: Seq<char>, c: char) -> Seq<Seq<char>>
    decreases s.len(),
{
    let n = until(s, c);
    if n < s.len() {
        seq![s.take(n as int)] + split(s.skip(n as int + 1), c)
    } else {
        seq![s]
    }
}

/// `str::split_whitespace`: the runs of characters that are not white space.
pub open spec fn words(s: Seq<char>) -> Seq<Seq<char>>
    decreases s.len(),
{
    if s.len() == 0 {
        Seq::empty()
    } else if is_space(s[0]) {
        words(s.drop_first())
    } else {
        let n = until_space(s);
        if n <= s.len() {
            seq![s.take(n as int)] + words(s.skip(n as int))
        } else {
            Seq::empty()
        }
    }
}

/// `str::lines`: the pieces that end in a line feed, without it and without a
/// carriage return before it, and what follows the last one, if anything does.
pub open spec fn lines(s: Seq<char>) -> Seq<Seq<char>>
    decreases s.len(),
{
    let n = until(s, '\n');
    if s.len() == 0 {
        Seq::empty()
    } else if n < s.len() {
        seq![without_cr(s.take(n as int))] + lines(s.skip(n as int + 1))
    } else {
        seq![s]
    }
}

pub open spec fn without_cr(s: Seq<char>) -> Seq<char> {
    if s.len() > 0 && s.last() == '\r' {
        s.drop_last()
    } else {
        s
    }
}

pub fn split_chars(cs: &Vec<char>, c: char) -> (r: Vec<String>)
    ensures
        texts(r@) == split(cs@, c),
        r@.len() > 0,
{
    broadcast use texts_push;

    let mut out: Vec<String> = Vec::new();
    let mut i: usize = 0;
    proof {
        assert(cs@.skip(0) =~= cs@);
        assert(texts(out@) + split(cs@, c) =~= split(cs@, c));
    }
    loop
        invariant
            i <= cs@.len(),
            texts(out@) + split(cs@.skip(i as int), c) == split(cs@, c),
        decreases cs@.len() - i,
    {
        let n = find_char(cs, i, c);
        let ghost rest = cs@.skip(i as int);
        let ghost before = texts(out@);
        out.push(text_range(cs, i, n));
        proof {
            assert(cs@.subrange(i as int, n as int) =~= rest.take(n - i));
        }
        if n == cs.len() {
            proof {
                assert(rest.take(n - i) =~= rest);
                assert(before + seq![rest] =~= before.push(rest));
            }
            return out;
        }
        proof {
            assert(rest.skip(n - i + 1) =~= cs@.skip(n + 1));
            let tail = split(cs@.skip(n + 1), c);
            assert(before + (seq![rest.take(n - i)] + tail) =~= before.push(rest.take(n - i))
                + tail);
        }
        i = n + 1;
    }
}

pub fn split_text(s: &str, c: char) -> (r: Vec<String>)
    ensures
        texts(r@) == split(s@, c),
        r@.len() > 0,
{
    let cs = chars_of(s);
    split_chars(&cs, c)
}

pub fn split_words(s: &str) -> (r: Vec<String>)
    ensures
        texts(r@) == words(s@),
{
    broadcast use texts_push;

    let cs = chars_of(s);
    let mut out: Vec<String> = Vec::new();
    let mut i: usize = 0;
    proof {
        assert(cs@.skip(0) =~= cs@);
        assert(texts(out@) + words(cs@) =~= words(cs@));
    }
    while i < cs.len()
        invariant
            i <= cs@.len(),
            cs@ == s@,
            texts(out@) + words(cs@.skip(i as int)) == words(cs@),
        decreases cs@.len() - i,
    {
        let ghost rest = cs@.skip(i as int);
        if is_whitespace(cs[i]) {
            proof {
                assert(rest.drop_first() =~= cs@.skip(i + 1));
            }
            i = i + 1;
        } else {
            let ghost before = texts(out@);
            let mut n: usize = i;
            while n < cs.len() && !is_whitespace(cs[n])
                invariant
                    i <= n <= cs@.len(),
                    i < cs@.len(),
                    !is_space(cs@[i as int]),
                    forall|k: int| i <= k < n ==> !is_space(cs@[k]),
                decreases cs@.len() - n,
            {
                n = n + 1;
            }
            out.push(text_range(&cs, i, n));
            proof {
                lemma_until_space_is(rest, (n - i) as nat);
                assert(cs@.subrange(i as int, n as int) =~= rest.take(n - i));
                assert(rest.skip(n - i) =~= cs@.skip(n as int));
                let tail = words(cs@.skip(n as int));
                assert(before + (seq![rest.take(n - i)] + tail) =~= before.push(rest.take(n - i))
                    + tail);
            }
            i = n;
        }
    }
    proof {
        assert(cs@.skip(i as int) =~= Seq::empty());
        assert(texts(out@) + Seq::<Seq<char>>::empty() =~= texts(out@));
    }
    out
}

pub fn split_lines(s: &str) -> (r: Vec<String>)
    ensures
        texts(r@) == lines(s@),
{
    broadcast use texts_push;

    let cs = chars_of(s);
    let mut out: Vec<String> = Vec::new();
    let mut i: usize = 0;
    proof {
        assert(cs@.skip(0) =~= cs@);
        assert(texts(out@) + lines(cs@) =~= lines(cs@));
    }
    while i < cs.len()
        invariant
            i <= cs@.len(),
            cs@ == s@,
            texts(out@) + lines(cs@.skip(i as int)) == lines(cs@),
        decreases cs@.len() - i,
    {
        let ghost rest = cs@.skip(i as int);
        let ghost before = texts(out@);
        let n = find_char(&cs, i, '\n');
        if n == cs.len() {
            out.push(text_range(&cs, i, n));
            proof {
                assert(cs@.subrange(i as int, n as int) =~= rest);
                assert(before + seq![rest] =~= before.push(rest));
            }
            return out;
        }
        let end: usize = if n > i && cs[n - 1] == '\r' {
            n - 1
        } else {
            n
        };
        out.push(text_range(&cs, i, end));
        proof {
            let line = rest.take(n - i);
            assert(line.len() > 0 ==> line.last() == cs@[n - 1]);
            assert(cs@.subrange(i as int, end as int) =~= without_cr(line));
            assert(rest.skip(n - i + 1) =~= cs@.skip(n + 1));
            let tail = lines(cs@.skip(n + 1));
            assert(before + (seq![without_cr(line)] + tail) =~= before.push(without_cr(line))
                + tail);
        }
        i = n + 1;
    }
    proof {
        assert(cs@.skip(i as int) =~= Seq::empty());
        assert(texts(out@) + Seq::<Seq<char>>::empty() =~= texts(out@));
    }
    out
}

// ---------------------------------------------------------------------------
// Joining

/// `[str]::join`.
pub open spec fn join(parts: Seq<Seq<char>>, sep: Seq<char>) -> Seq<char>
    decreases parts.len(),
{
    if parts.len() == 0 {
        Seq::empty()
    } else if parts.len() == 1 {
        parts[0]
    } else {
        join(parts.drop_last(), sep) + sep + parts.last()
    }
}

/// One more part is one more separator and the part.
pub proof fn lemma_join_push(parts: Seq<Seq<char>>, sep: Seq<char>, last: Seq<char>)
    ensures
        parts.len() == 0 ==> join(parts.push(last), sep) == last,
        parts.len() > 0 ==> join(parts.push(last), sep) == join(parts, sep) + sep + last,
{
    assert(parts.push(last).drop_last() =~= parts);
}

pub fn join_from(parts: &Vec<String>, from: usize, sep: &str) -> (r: String)
    requires
        from <= parts@.len(),
    ensures
        r@ == join(texts(parts@).skip(from as int), sep@),
{
    let mut out = String::new();
    let mut i: usize = from;
    let ghost all = texts(parts@).skip(from as int);
    while i < parts.len()
        invariant
            from <= i <= parts@.len(),
            all == texts(parts@).skip(from as int),
            out@ == join(all.take(i - from), sep@),
        decreases parts@.len() - i,
    {
        if i > from {
            out.append(sep);
        }
        out.append(parts[i].as_str());
        proof {
            lemma_join_push(all.take(i - from), sep@, parts@[i as int]@);
            assert(all.take(i - from).push(parts@[i as int]@) =~= all.take(i + 1 - from));
            assert(Seq::<char>::empty() + parts@[i as int]@ =~= parts@[i as int]@);
        }
        i = i + 1;
    }
    proof {
        assert(all.take(i - from) =~= all);
    }
    out
}

pub fn join_all(parts: &Vec<String>, sep: &str) -> (r: String)
    ensures
        r@ == join(texts(parts@), sep@),
{
    let r = join_from(parts, 0, sep);
    proof {
        assert(texts(parts@).skip(0) =~= texts(parts@));
    }
    r
}

// ---------------------------------------------------------------------------
// Trimming

pub open spec fn trim_start(s: Seq<char>) -> Seq<char>
    decreases s.len(),
{
    if s.len() > 0 && is_space(s[0]) {
        trim_start(s.drop_first())
    } else {
        s
    }
}

pub open spec fn trim_end(s: Seq<char>) -> Seq<char>
    decreases s.len(),
{
    if s.len() > 0 && is_space(s.last()) {
        trim_end(s.drop_last())
    } else {
        s
    }
}

/// `str::trim`.
pub open spec fn trim(s: Seq<char>) -> Seq<char> {
    trim_end(trim_start(s))
}

/// The end of `cs[from..]` without trailing white space.
fn end_of_text(cs: &Vec<char>, from: usize) -> (r: usize)
    requires
        from <= cs@.len(),
    ensures
        from <= r <= cs@.len(),
        cs@.subrange(from as int, r as int) == trim_end(cs@.skip(from as int)),
{
    let mut end: usize = cs.len();
    proof {
        assert(cs@.subrange(from as int, end as int) =~= cs@.skip(from as int));
    }
    while end > from && is_whitespace(cs[end - 1])
        invariant
            from <= end <= cs@.len(),
            trim_end(cs@.subrange(from as int, end as int)) == trim_end(cs@.skip(from as int)),
        decreases end,
    {
        proof {
            assert(cs@.subrange(from as int, end as int).drop_last() =~= cs@.subrange(
                from as int,
                end - 1,
            ));
        }
        end = end - 1;
    }
    end
}

pub fn trim_text(s: &str) -> (r: String)
    ensures
        r@ == trim(s@),
{
    let cs = chars_of(s);
    let mut i: usize = 0;
    proof {
        assert(cs@.skip(0) =~= cs@);
    }
    while i < cs.len() && is_whitespace(cs[i])
        invariant
            i <= cs@.len(),
            cs@ == s@,
            trim_start(cs@.skip(i as int)) == trim_start(s@),
        decreases cs@.len() - i,
    {
        proof {
            assert(cs@.skip(i as int).drop_first() =~= cs@.skip(i + 1));
        }
        i = i + 1;
    }
    let end = end_of_text(&cs, i);
    text_range(&cs, i, end)
}

pub fn trim_end_text(s: &str) -> (r: String)
    ensures
        r@ == trim_end(s@),
{
    let cs = chars_of(s);
    let end = end_of_text(&cs, 0);
    proof {
        assert(cs@.skip(0) =~= cs@);
    }
    text_range(&cs, 0, end)
}

/// A trimmed text has no white space at either end and is a part of what it
/// was taken from.
pub proof fn trim_is_a_part_without_outer_space(s: Seq<char>)
    ensures
        trim(s).len() > 0 ==> !is_space(trim(s)[0]) && !is_space(trim(s).last()),
        exists|i: int, j: int| 0 <= i <= j <= s.len() && trim(s) == #[trigger] s.subrange(i, j),
{
    let i = lemma_trim_start(s);
    let j = lemma_trim_end(trim_start(s));
    assert(s.subrange(i, i + j) =~= s.skip(i).take(j));
}

proof fn lemma_trim_start(s: Seq<char>) -> (i: int)
    ensures
        0 <= i <= s.len(),
        trim_start(s) == s.skip(i),
        trim_start(s).len() > 0 ==> !is_space(trim_start(s)[0]),
    decreases s.len(),
{
    if s.len() > 0 && is_space(s[0]) {
        let i = lemma_trim_start(s.drop_first());
        assert(s.drop_first().skip(i) =~= s.skip(i + 1));
        i + 1
    } else {
        assert(s.skip(0) =~= s);
        0
    }
}

proof fn lemma_trim_end(s: Seq<char>) -> (j: int)
    ensures
        0 <= j <= s.len(),
        trim_end(s) == s.take(j),
        trim_end(s).len() > 0 ==> !is_space(trim_end(s).last()),
    decreases s.len(),
{
    if s.len() > 0 && is_space(s.last()) {
        let j = lemma_trim_end(s.drop_last());
        assert(s.drop_last().take(j) =~= s.take(j));
        j
    } else {
        assert(s.take(s.len() as int) =~= s);
        s.len() as int
    }
}

// ---------------------------------------------------------------------------
// Prefixes, suffixes and parts

pub open spec fn starts_with(s: Seq<char>, p: Seq<char>) -> bool {
    p.len() <= s.len() && s.take(p.len() as int) == p
}

pub open spec fn ends_with(s: Seq<char>, p: Seq<char>) -> bool {
    p.len() <= s.len() && s.skip(s.len() - p.len()) == p
}

/// Whether `p` stands in `s` from `i` on.
pub open spec fn part_at(s: Seq<char>, p: Seq<char>, i: int) -> bool {
    0 <= i && i + p.len() <= s.len() && s.subrange(i, i + p.len()) == p
}

/// `str::contains` for a text.
pub open spec fn contains(s: Seq<char>, p: Seq<char>) -> bool {
    exists|i: int| part_at(s, p, i)
}

/// Whether `p` stands in `cs` from `i` on.
pub fn matches_at(cs: &Vec<char>, i: usize, p: &Vec<char>) -> (r: bool)
    requires
        i <= cs@.len(),
    ensures
        r == part_at(cs@, p@, i as int),
{
    if p.len() > cs.len() - i {
        return false;
    }
    let mut k: usize = 0;
    while k < p.len()
        invariant
            k <= p@.len(),
            i + p.len() <= cs.len(),
            forall|m: int| 0 <= m < k ==> cs@[i + m] == p@[m],
        decreases p@.len() - k,
    {
        if cs[i + k] != p[k] {
            proof {
                assert(cs@.subrange(i as int, i + p@.len())[k as int] == cs@[i + k]);
            }
            return false;
        }
        k = k + 1;
    }
    proof {
        assert(cs@.subrange(i as int, i + p@.len()) =~= p@);
    }
    true
}

pub fn text_starts_with(s: &str, p: &str) -> (r: bool)
    ensures
        r == starts_with(s@, p@),
{
    let cs = chars_of(s);
    let ps = chars_of(p);
    proof {
        if p@.len() <= s@.len() {
            assert(s@.subrange(0, p@.len() as int) =~= s@.take(p@.len() as int));
        }
    }
    matches_at(&cs, 0, &ps)
}

pub fn text_ends_with(s: &str, p: &str) -> (r: bool)
    ensures
        r == ends_with(s@, p@),
{
    let cs = chars_of(s);
    let ps = chars_of(p);
    if ps.len() > cs.len() {
        return false;
    }
    proof {
        assert(s@.subrange(s@.len() - p@.len(), s@.len() as int) =~= s@.skip(s@.len() - p@.len()));
    }
    matches_at(&cs, cs.len() - ps.len(), &ps)
}

/// `str::strip_prefix`.
pub open spec fn without_prefix(s: Seq<char>, p: Seq<char>) -> Option<Seq<char>> {
    if starts_with(s, p) {
        Some(s.skip(p.len() as int))
    } else {
        None
    }
}

pub fn strip_prefix(s: &str, p: &str) -> (r: Option<String>)
    ensures
        crate::text::opt_text(r) == without_prefix(s@, p@),
{
    if text_starts_with(s, p) {
        let cs = chars_of(s);
        let ps = chars_of(p);
        proof {
            assert(s@.subrange(p@.len() as int, s@.len() as int) =~= s@.skip(p@.len() as int));
        }
        Some(text_range(&cs, ps.len(), cs.len()))
    } else {
        None
    }
}

pub fn text_contains(s: &str, p: &str) -> (r: bool)
    ensures
        r == contains(s@, p@),
{
    let cs = chars_of(s);
    let ps = chars_of(p);
    let mut i: usize = 0;
    loop
        invariant
            i <= cs@.len(),
            cs@ == s@,
            ps@ == p@,
            forall|k: int| 0 <= k < i ==> !part_at(s@, p@, k),
        decreases cs@.len() - i,
    {
        if matches_at(&cs, i, &ps) {
            return true;
        }
        if i == cs.len() {
            return false;
        }
        i = i + 1;
    }
}

// ---------------------------------------------------------------------------
// Replacing

/// `str::replace`: every occurrence of `p`, from the left, without overlap.
pub open spec fn replace(s: Seq<char>, p: Seq<char>, by: Seq<char>) -> Seq<char>
    decreases s.len(),
{
    if p.len() == 0 || s.len() == 0 {
        s
    } else if part_at(s, p, 0) {
        by + replace(s.skip(p.len() as int), p, by)
    } else {
        seq![s[0]] + replace(s.drop_first(), p, by)
    }
}

pub fn replace_text(s: &str, p: &str, by: &str) -> (r: String)
    requires
        p@.len() > 0,
    ensures
        r@ == replace(s@, p@, by@),
{
    let cs = chars_of(s);
    let ps = chars_of(p);
    let mut out = String::new();
    let mut i: usize = 0;
    proof {
        assert(cs@.skip(0) =~= cs@);
        assert(out@ + replace(s@, p@, by@) =~= replace(s@, p@, by@));
    }
    while i < cs.len()
        invariant
            i <= cs@.len(),
            cs@ == s@,
            ps@ == p@,
            p@.len() > 0,
            out@ + replace(cs@.skip(i as int), p@, by@) == replace(s@, p@, by@),
        decreases cs@.len() - i,
    {
        let ghost rest = cs@.skip(i as int);
        let ghost before = out@;
        let hit = matches_at(&cs, i, &ps);
        proof {
            if i + p@.len() <= cs@.len() {
                assert(rest.subrange(0, p@.len() as int) =~= cs@.subrange(
                    i as int,
                    i + p@.len(),
                ));
            }
            assert(hit == part_at(rest, p@, 0));
        }
        if hit {
            out.append(by);
            i = i + ps.len();
            proof {
                assert(rest.skip(p@.len() as int) =~= cs@.skip(i as int));
                let tail = replace(cs@.skip(i as int), p@, by@);
                assert(before + (by@ + tail) =~= before + by@ + tail);
            }
        } else {
            out.push(cs[i]);
            i = i + 1;
            proof {
                assert(rest.drop_first() =~= cs@.skip(i as int));
                let tail = replace(cs@.skip(i as int), p@, by@);
                assert(before + (seq![rest[0]] + tail) =~= before.push(rest[0]) + tail);
            }
        }
    }
    proof {
        assert(cs@.skip(i as int) =~= Seq::empty());
        assert(out@ + Seq::<char>::empty() =~= out@);
    }
    out
}

// ---------------------------------------------------------------------------
// Cutting

/// The first `max` characters and an ellipsis where there are more.
pub open spec fn ellipsized(s: Seq<char>, max: nat) -> Seq<char> {
    if s.len() > max {
        s.take(max as int) + "..."@
    } else {
        s
    }
}

/// The two sides of the first `c`.
pub open spec fn split_once(s: Seq<char>, c: char) -> Option<(Seq<char>, Seq<char>)> {
    let n = until(s, c);
    if n < s.len() {
        Some((s.take(n as int), s.skip(n as int + 1)))
    } else {
        None
    }
}

/// The two sides of the last `c`.
pub open spec fn rsplit_once(s: Seq<char>, c: char) -> Option<(Seq<char>, Seq<char>)> {
    match last_index(s, c) {
        Some(k) => Some((s.take(k), s.skip(k + 1))),
        None => None,
    }
}

pub open spec fn pair_text(p: Option<(String, String)>) -> Option<(Seq<char>, Seq<char>)> {
    match p {
        Some(ab) => Some((ab.0@, ab.1@)),
        None => None,
    }
}

pub fn split_at_first(s: &str, c: char) -> (r: Option<(String, String)>)
    ensures
        pair_text(r) == split_once(s@, c),
{
    let cs = chars_of(s);
    let n = find_char(&cs, 0, c);
    proof {
        assert(cs@.skip(0) =~= cs@);
    }
    if n == cs.len() {
        return None;
    }
    proof {
        assert(cs@.subrange(0, n as int) =~= cs@.take(n as int));
        assert(cs@.subrange(n + 1, cs@.len() as int) =~= cs@.skip(n + 1));
    }
    Some((text_range(&cs, 0, n), text_range(&cs, n + 1, cs.len())))
}

pub fn split_at_last(s: &str, c: char) -> (r: Option<(String, String)>)
    ensures
        pair_text(r) == rsplit_once(s@, c),
{
    let cs = chars_of(s);
    match find_last(&cs, c) {
        Some(n) => {
            proof {
                assert(cs@.subrange(0, n as int) =~= cs@.take(n as int));
                assert(cs@.subrange(n + 1, cs@.len() as int) =~= cs@.skip(n + 1));
            }
            Some((text_range(&cs, 0, n), text_range(&cs, n + 1, cs.len())))
        },
        None => None,
    }
}

/// Cut `s` after `max` characters, with an ellipsis in place of the rest.
pub fn ellipsize(s: &str, max: usize) -> (r: String)
    ensures
        r@ == ellipsized(s@, max as nat),
{
    let cs = chars_of(s);
    if cs.len() > max {
        let mut out = text_range(&cs, 0, max);
        proof {
            assert(cs@.subrange(0, max as int) =~= cs@.take(max as int));
        }
        out.append("...");
        out
    } else {
        s.to_owned()
    }
}

/// An ellipsized text is at most the ellipsis longer than its bound, a text
/// within the bound is left alone, and a longer one keeps its beginning.
pub proof fn ellipsized_is_bounded(s: Seq<char>, max: nat)
    ensures
        ellipsized(s, max).len() <= max + 3,
        s.len() <= max ==> ellipsized(s, max) == s,
        s.len() > max ==> ellipsized(s, max).take(max as int) == s.take(max as int) && ends_with(
            ellipsized(s, max),
            "..."@,
        ),
{
    reveal_strlit("...");
    if s.len() > max {
        let r = ellipsized(s, max);
        assert(r.take(max as int) =~= s.take(max as int));
        assert(r.skip(r.len() - 3) =~= "..."@);
    }
}

} // verus!
