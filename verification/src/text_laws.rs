//! What holds of every text that is taken apart.

use vstd::prelude::*;
use crate::path::{extension, file_name};
use crate::scan::{
    join, last_index, lemma_last_index, lemma_until, lemma_until_is, lemma_until_space,
    lemma_until_space_is, split, trim, trim_end, trim_start, until, until_space, words,
};
use crate::text::is_space;

verus! {

// ---------------------------------------------------------------------------
// Trimming

proof fn lemma_trim_start_exact(s: Seq<char>) -> (i: int)
    ensures
        0 <= i <= s.len(),
        trim_start(s) == s.skip(i),
        forall|k: int| 0 <= k < i ==> is_space(#[trigger] s[k]),
        i < s.len() ==> !is_space(s[i]),
    decreases s.len(),
{
    if s.len() > 0 && is_space(s[0]) {
        let i = lemma_trim_start_exact(s.drop_first());
        assert(s.drop_first().skip(i) =~= s.skip(i + 1));
        assert forall|k: int| 0 <= k < i + 1 implies is_space(#[trigger] s[k]) by {
            if k > 0 {
                assert(s[k] == s.drop_first()[k - 1]);
            }
        }
        i + 1
    } else {
        assert(s.skip(0) =~= s);
        0
    }
}

proof fn lemma_trim_end_exact(s: Seq<char>) -> (j: int)
    ensures
        0 <= j <= s.len(),
        trim_end(s) == s.take(j),
        forall|k: int| j <= k < s.len() ==> is_space(#[trigger] s[k]),
        j > 0 ==> !is_space(s[j - 1]),
    decreases s.len(),
{
    if s.len() > 0 && is_space(s.last()) {
        let j = lemma_trim_end_exact(s.drop_last());
        assert(s.drop_last().take(j) =~= s.take(j));
        assert forall|k: int| j <= k < s.len() implies is_space(#[trigger] s[k]) by {
            if k < s.len() - 1 {
                assert(s[k] == s.drop_last()[k]);
            }
        }
        j
    } else {
        assert(s.take(s.len() as int) =~= s);
        s.len() as int
    }
}

/// Trimming takes away the white space at both ends, all of it and nothing
/// else.
pub proof fn trimming_takes_outer_space_alone(s: Seq<char>)
    ensures
        exists|i: int, j: int|
            {
                &&& 0 <= i <= j <= s.len()
                &&& trim(s) == #[trigger] s.subrange(i, j)
                &&& forall|k: int| 0 <= k < i || j <= k < s.len() ==> is_space(#[trigger] s[k])
                &&& i < j ==> !is_space(s[i]) && !is_space(s[j - 1])
            },
{
    let i = lemma_trim_start_exact(s);
    let t = s.skip(i);
    let n = lemma_trim_end_exact(t);
    assert(t.take(n) =~= s.subrange(i, i + n));
    assert forall|k: int| 0 <= k < i || i + n <= k < s.len() implies is_space(#[trigger] s[k]) by {
        if k >= i {
            assert(s[k] == t[k - i]);
        }
    }
    if n > 0 {
        assert(t[n - 1] == s[i + n - 1]);
        assert(i < s.len());
    }
}

pub proof fn lemma_trim_none(s: Seq<char>)
    requires
        s.len() > 0 ==> !is_space(s[0]) && !is_space(s.last()),
    ensures
        trim(s) == s,
{
}

// ---------------------------------------------------------------------------
// Splitting

pub proof fn lemma_split_first(a: Seq<char>, c: char, b: Seq<char>)
    requires
        forall|i: int| 0 <= i < a.len() ==> a[i] != c,
    ensures
        split(a + seq![c] + b, c) == seq![a] + split(b, c),
{
    let s = a + seq![c] + b;
    lemma_until_is(s, c, a.len());
    assert(s.take(a.len() as int) =~= a);
    assert(s.skip(a.len() as int + 1) =~= b);
}

pub proof fn lemma_split_none(s: Seq<char>, c: char)
    requires
        forall|i: int| 0 <= i < s.len() ==> s[i] != c,
    ensures
        split(s, c) == seq![s],
{
    lemma_until_is(s, c, s.len());
}

/// Splitting two texts joined by the separator gives the pieces of the one and
/// then those of the other.
pub proof fn splitting_is_piecewise(x: Seq<char>, c: char, y: Seq<char>)
    ensures
        split(x + seq![c] + y, c) == split(x, c) + split(y, c),
    decreases x.len(),
{
    lemma_until(x, c);
    let n = until(x, c) as int;
    if n < x.len() {
        let a = x.take(n);
        let b = x.skip(n + 1);
        assert(x =~= a + seq![c] + b);
        splitting_is_piecewise(b, c, y);
        assert(x + seq![c] + y =~= a + seq![c] + (b + seq![c] + y));
        lemma_split_first(a, c, b + seq![c] + y);
        assert(seq![a] + (split(b, c) + split(y, c)) =~= split(x, c) + split(y, c));
    } else {
        lemma_split_none(x, c);
        lemma_split_first(x, c, y);
    }
}

proof fn lemma_join_first(first: Seq<char>, rest: Seq<Seq<char>>, sep: Seq<char>)
    requires
        rest.len() > 0,
    ensures
        join(seq![first] + rest, sep) == first + sep + join(rest, sep),
    decreases rest.len(),
{
    let all = seq![first] + rest;
    assert(all.drop_last() =~= seq![first] + rest.drop_last());
    assert(all.last() == rest.last());
    if rest.len() == 1 {
        assert(all.drop_last() =~= seq![first]);
        assert(join(seq![first], sep) == first);
    } else {
        lemma_join_first(first, rest.drop_last(), sep);
        assert(first + sep + join(rest.drop_last(), sep) + sep + rest.last() =~= first + sep + (join(
            rest.drop_last(),
            sep,
        ) + sep + rest.last()));
    }
}

/// The pieces of a split text, joined again by the separator, are the text, and
/// no piece holds the separator.
pub proof fn joining_undoes_splitting(s: Seq<char>, c: char)
    ensures
        split(s, c).len() > 0,
        join(split(s, c), seq![c]) == s,
        forall|i: int, k: int|
            0 <= i < split(s, c).len() && 0 <= k < (#[trigger] split(s, c)[i]).len()
                ==> #[trigger] split(s, c)[i][k] != c,
    decreases s.len(),
{
    lemma_until(s, c);
    let n = until(s, c) as int;
    if n < s.len() {
        let rest = s.skip(n + 1);
        joining_undoes_splitting(rest, c);
        lemma_join_first(s.take(n), split(rest, c), seq![c]);
        assert(s =~= s.take(n) + seq![c] + rest);
        assert forall|i: int, k: int|
            0 <= i < split(s, c).len() && 0 <= k < (#[trigger] split(s, c)[i]).len() implies
            #[trigger] split(s, c)[i][k] != c by {
            if i > 0 {
                assert(split(s, c)[i] == split(rest, c)[i - 1]);
                assert(split(rest, c)[i - 1][k] != c);
            }
        }
    }
}

// ---------------------------------------------------------------------------
// File names

pub proof fn lemma_last_is(s: Seq<char>, c: char, k: int)
    requires
        0 <= k < s.len(),
        s[k] == c,
        forall|i: int| k < i < s.len() ==> s[i] != c,
    ensures
        last_index(s, c) == Some(k),
{
    lemma_last_index(s, c);
}

/// The file name of a path is what follows its last slash, or all of a path
/// without one.
pub proof fn a_file_name_follows_the_last_slash(dir: Seq<char>, name: Seq<char>)
    requires
        name.len() > 0,
        name != seq!['.'],
        name != seq!['.', '.'],
        forall|i: int| 0 <= i < name.len() ==> name[i] != '/',
    ensures
        file_name(name) == Some(name),
        file_name(dir + seq!['/'] + name) == Some(name),
{
    lemma_last_index(name, '/');
    let s = dir + seq!['/'] + name;
    lemma_last_is(s, '/', dir.len() as int);
    assert(s.skip(dir.len() + 1 as int) =~= name);
}

/// The extension of a file is what follows the last dot of its name.
pub proof fn an_extension_follows_the_last_dot(dir: Seq<char>, stem: Seq<char>, ext: Seq<char>)
    requires
        stem.len() > 0,
        forall|i: int| 0 <= i < stem.len() ==> stem[i] != '/',
        ext.len() > 0,
        forall|i: int| 0 <= i < ext.len() ==> ext[i] != '/' && ext[i] != '.',
    ensures
        extension(stem + seq!['.'] + ext) == Some(ext),
        extension(dir + seq!['/'] + (stem + seq!['.'] + ext)) == Some(ext),
{
    let name = stem + seq!['.'] + ext;
    assert(name.len() >= 3);
    assert forall|i: int| 0 <= i < name.len() implies name[i] != '/' by {
        if i > stem.len() {
            assert(name[i] == ext[i - stem.len() - 1]);
        }
    }
    a_file_name_follows_the_last_slash(dir, name);
    assert forall|i: int| stem.len() < i < name.len() implies name[i] != '.' by {
        assert(name[i] == ext[i - stem.len() - 1]);
    }
    lemma_last_is(name, '.', stem.len() as int);
    assert(name.skip(stem.len() + 1 as int) =~= ext);
}

// ---------------------------------------------------------------------------
// Words

/// A text of words joined by white space holds the words of the one side and
/// then those of the other; a run without white space is one word, and white
/// space alone is none.
pub proof fn words_are_read_one_by_one(a: Seq<char>, c: char, b: Seq<char>)
    requires
        is_space(c),
    ensures
        words(a + seq![c] + b) == words(a) + words(b),
        a.len() > 0 && (forall|i: int| 0 <= i < a.len() ==> !is_space(a[i])) ==> words(a)
            == seq![a],
        (forall|i: int| 0 <= i < a.len() ==> is_space(a[i])) ==> words(a).len() == 0,
    decreases a.len(),
{
    let s = a + seq![c] + b;
    if a.len() == 0 {
        assert(s.drop_first() =~= b);
        assert(words(a) + words(b) =~= words(b));
    } else if is_space(a[0]) {
        assert(s.drop_first() =~= a.drop_first() + seq![c] + b);
        words_are_read_one_by_one(a.drop_first(), c, b);
        if forall|i: int| 0 <= i < a.len() ==> is_space(a[i]) {
            assert forall|i: int| 0 <= i < a.drop_first().len() implies is_space(
                a.drop_first()[i],
            ) by {
                assert(is_space(a[i + 1]));
            }
        }
    } else {
        lemma_until_space(a);
        let n = until_space(a);
        lemma_until_space_is(s, n);
        let first = a.take(n as int);
        let rest = a.skip(n as int);
        assert(s.take(n as int) =~= first);
        assert(s.skip(n as int) =~= rest + seq![c] + b);
        words_are_read_one_by_one(rest, c, b);
        assert(seq![first] + (words(rest) + words(b)) =~= words(a) + words(b));
        if forall|i: int| 0 <= i < a.len() ==> !is_space(a[i]) {
            assert(n == a.len());
            assert(first =~= a);
            assert(rest =~= Seq::empty());
            assert(seq![a] + words(rest) =~= seq![a]);
        }
    }
}

// ---------------------------------------------------------------------------
// Texts within texts

/// Whether `t` stands somewhere in `h`.
pub open spec fn holds_text(h: Seq<char>, t: Seq<char>) -> bool {
    exists|i: int| 0 <= i <= h.len() - t.len() && #[trigger] h.subrange(i, i + t.len()) == t
}

pub proof fn lemma_holds(h: Seq<char>, a: Seq<char>, t: Seq<char>, b: Seq<char>)
    requires
        h == a + t + b,
    ensures
        holds_text(h, t),
{
    assert(h.subrange(a.len() as int, (a.len() + t.len()) as int) =~= t);
}

pub proof fn lemma_holds_within(h: Seq<char>, a: Seq<char>, m: Seq<char>, b: Seq<char>, t: Seq<char>)
    requires
        h == a + m + b,
        holds_text(m, t),
    ensures
        holds_text(h, t),
{
    let i = choose|i: int| 0 <= i <= m.len() - t.len() && #[trigger] m.subrange(i, i + t.len()) == t;
    assert(h.subrange(a.len() + i, a.len() + i + t.len()) =~= m.subrange(i, i + t.len()));
}

/// Joined parts hold each of them.
pub proof fn joined_parts_are_held(parts: Seq<Seq<char>>, sep: Seq<char>, i: int)
    requires
        0 <= i < parts.len(),
    ensures
        holds_text(join(parts, sep), parts[i]),
    decreases parts.len(),
{
    if parts.len() == 1 {
        assert(join(parts, sep) =~= Seq::empty() + parts[0] + Seq::empty());
        lemma_holds(join(parts, sep), Seq::empty(), parts[0], Seq::empty());
    } else {
        let before = join(parts.drop_last(), sep);
        if i == parts.len() - 1 {
            assert(join(parts, sep) =~= (before + sep) + parts[i] + Seq::empty());
            lemma_holds(join(parts, sep), before + sep, parts[i], Seq::empty());
        } else {
            joined_parts_are_held(parts.drop_last(), sep, i);
            assert(join(parts, sep) =~= Seq::empty() + before + (sep + parts.last()));
            lemma_holds_within(
                join(parts, sep),
                Seq::empty(),
                before,
                sep + parts.last(),
                parts[i],
            );
        }
    }
}

/// Parts that do not hold the separator are read back off their joined text.
pub proof fn splitting_undoes_joining(parts: Seq<Seq<char>>, c: char)
    requires
        parts.len() > 0,
        forall|i: int, k: int|
            0 <= i < parts.len() && 0 <= k < (#[trigger] parts[i]).len() ==> #[trigger] parts[i][k]
                != c,
    ensures
        split(join(parts, seq![c]), c) == parts,
    decreases parts.len(),
{
    let last = parts.last();
    assert forall|k: int| 0 <= k < last.len() implies last[k] != c by {
        assert(parts[parts.len() - 1][k] != c);
    }
    lemma_split_none(last, c);
    if parts.len() == 1 {
        assert(parts =~= seq![last]);
    } else {
        let t = parts.drop_last();
        assert forall|i: int, k: int|
            0 <= i < t.len() && 0 <= k < (#[trigger] t[i]).len() implies #[trigger] t[i][k] != c by {
            assert(parts[i][k] != c);
        }
        splitting_undoes_joining(t, c);
        splitting_is_piecewise(join(t, seq![c]), c, last);
        assert(parts =~= t + seq![last]);
    }
}

// ---------------------------------------------------------------------------
// White space

/// White space is what Unicode counts as such: 25 characters.
pub proof fn white_space_is_as_unicode_has_it(c: char)
    ensures
        is_space(c) <==> {
            let n = c as u32;
            ||| n == 9 || n == 10 || n == 11 || n == 12 || n == 13 || n == 32
            ||| n == 0x85 || n == 0xa0 || n == 0x1680
            ||| n == 0x2000 || n == 0x2001 || n == 0x2002 || n == 0x2003 || n == 0x2004 || n == 0x2005
            ||| n == 0x2006 || n == 0x2007 || n == 0x2008 || n == 0x2009 || n == 0x200a
            ||| n == 0x2028 || n == 0x2029 || n == 0x202f || n == 0x205f || n == 0x3000
        },
{
}

} // verus!
