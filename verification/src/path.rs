//! File names inside path texts, as Unix paths spell them.

use vstd::prelude::*;
use crate::scan::{find_last, last_index};
use crate::text::{chars_of, opt_text, text_range};

verus! {

/// `Path::file_name`: the last component, where empty components and `.` do
/// not count and `..` is no name.
pub open spec fn file_name(s: Seq<char>) -> Option<Seq<char>>
    decreases s.len(),
{
    match last_index(s, '/') {
        Some(k) => {
            let last = s.skip(k + 1);
            if last.len() == 0 || last == seq!['.'] {
                if 0 <= k < s.len() {
                    file_name(s.take(k))
                } else {
                    None
                }
            } else {
                name_of(last)
            }
        },
        None => name_of(s),
    }
}

/// A single component as a file name.
pub open spec fn name_of(s: Seq<char>) -> Option<Seq<char>> {
    if s.len() == 0 || s == seq!['.'] || s == seq!['.', '.'] {
        None
    } else {
        Some(s)
    }
}

/// `Path::extension` of a file name: what follows its last dot, unless that
/// dot begins the name.
pub open spec fn extension_of(name: Seq<char>) -> Option<Seq<char>> {
    match last_index(name, '.') {
        Some(k) => if k > 0 {
            Some(name.skip(k + 1))
        } else {
            None
        },
        None => None,
    }
}

/// `Path::extension`.
pub open spec fn extension(s: Seq<char>) -> Option<Seq<char>> {
    match file_name(s) {
        Some(name) => extension_of(name),
        None => None,
    }
}

fn base_of(cs: &Vec<char>) -> (r: Option<Vec<char>>)
    ensures
        file_name(cs@) == (match r {
            Some(v) => Some(v@),
            None => None,
        }),
{
    let mut end: usize = cs.len();
    proof {
        assert(cs@.take(end as int) =~= cs@);
    }
    loop
        invariant
            end <= cs@.len(),
            file_name(cs@) == file_name(cs@.take(end as int)),
        decreases end,
    {
        let ghost cur = cs@.take(end as int);
        let mut head: Vec<char> = Vec::new();
        let mut i: usize = 0;
        while i < end
            invariant
                i <= end <= cs@.len(),
                head@ =~= cs@.take(i as int),
            decreases end - i,
        {
            head.push(cs[i]);
            i = i + 1;
        }
        let k = find_last(&head, '/');
        let from: usize = match k {
            Some(k) => k + 1,
            None => 0,
        };
        let mut last: Vec<char> = Vec::new();
        let mut j: usize = from;
        while j < end
            invariant
                from <= j <= end <= cs@.len(),
                last@ =~= cs@.subrange(from as int, j as int),
            decreases end - j,
        {
            last.push(cs[j]);
            j = j + 1;
        }
        proof {
            assert(last@ =~= cur.skip(from as int));
            assert(cur.skip(0) =~= cur);
        }
        let skipped = last.len() == 0 || (last.len() == 1 && last[0] == '.');
        proof {
            assert(skipped == (last@.len() == 0 || last@ == seq!['.'])) by {
                if last@.len() == 1 && last@[0] == '.' {
                    assert(last@ =~= seq!['.']);
                }
            }
        }
        if skipped {
            match k {
                Some(k) => {
                    proof {
                        assert(cur.take(k as int) =~= cs@.take(k as int));
                    }
                    end = k;
                },
                None => {
                    return None;
                },
            }
        } else {
            let dots = last.len() == 2 && last[0] == '.' && last[1] == '.';
            proof {
                assert(dots == (last@ == seq!['.', '.'])) by {
                    if dots {
                        assert(last@ =~= seq!['.', '.']);
                    }
                }
            }
            if dots {
                return None;
            }
            return Some(last);
        }
    }
}

/// The file name of a path, if it has one.
pub fn file_name_of(path: &str) -> (r: Option<String>)
    ensures
        opt_text(r) == file_name(path@),
{
    let cs = chars_of(path);
    match base_of(&cs) {
        Some(v) => Some(crate::text::text_of(&v)),
        None => None,
    }
}

/// The extension of a path's file name, if it has one.
pub fn extension_of_path(path: &str) -> (r: Option<String>)
    ensures
        opt_text(r) == extension(path@),
{
    let cs = chars_of(path);
    match base_of(&cs) {
        Some(v) => {
            match find_last(&v, '.') {
                Some(k) => {
                    let len: usize = v.len();
                    if k > 0 {
                        proof {
                            assert(v@.subrange(k + 1, v@.len() as int) =~= v@.skip(k + 1));
                        }
                        Some(text_range(&v, k + 1, len))
                    } else {
                        None
                    }
                },
                None => None,
            }
        },
        None => None,
    }
}

/// A file name has no slash in it, is not empty and is neither `.` nor `..`.
pub proof fn file_name_is_one_component(s: Seq<char>)
    ensures
        file_name(s) matches Some(n) ==> n.len() > 0 && n != seq!['.'] && n != seq!['.', '.']
            && forall|i: int| 0 <= i < n.len() ==> n[i] != '/',
    decreases s.len(),
{
    crate::scan::lemma_last_index(s, '/');
    if let Some(k) = last_index(s, '/') {
        let last = s.skip(k + 1);
        assert forall|i: int| 0 <= i < last.len() implies last[i] != '/' by {
            assert(last[i] == s[k + 1 + i]);
        }
        file_name_is_one_component(s.take(k));
    }
}

// ---------------------------------------------------------------------------
// Joining

/// The relative path `rel` below the directory `dir`.
pub open spec fn below(dir: Seq<char>, rel: Seq<char>) -> Seq<char> {
    if dir.len() == 0 || dir.last() == '/' {
        dir + rel
    } else {
        dir.push('/') + rel
    }
}

pub fn path_below(dir: &str, rel: &str) -> (r: String)
    ensures
        r@ == below(dir@, rel@),
{
    let cs = chars_of(dir);
    let mut out = dir.to_owned();
    if cs.len() > 0 && cs[cs.len() - 1] != '/' {
        out.push('/');
    }
    out.append(rel);
    out
}

} // verus!
