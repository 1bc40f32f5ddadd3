//! What holds of every message's parts.

use vstd::prelude::*;
use vstd::utf8::encode_utf8;
use crate::message::{
    attachment_header, decoded, is_plain_encoding, one_line, parsed_contents,
};
use crate::model::RemoteAttachmentView;
use crate::structure::{
    at_path, attachment_of, attachments_in, child_number, encoding_text, first_text, leaf_below,
    leaves, leaves_of, lemma_leaf_paths, numbered, param_value, text_part, BodyStructure, LeafView,
    Param, Part, TransferEncoding,
};
use crate::text::lower;
use crate::text_laws::holds_text;

verus! {

// ---------------------------------------------------------------------------
// The list of parts

/// `a` stands before `b` in a message: where their paths part, `a` takes the
/// earlier child.
pub open spec fn path_before(a: Seq<u32>, b: Seq<u32>) -> bool {
    exists|k: int|
        0 <= k < a.len() && k < b.len() && a.take(k) == b.take(k) && #[trigger] a[k] < b[k]
}

proof fn lemma_leaf_listed(bs: BodyStructure, path: Seq<u32>, rel: Seq<u32>, part: Part)
    requires
        numbered(bs),
        at_path(bs, rel) == Some(BodyStructure::Basic(part)) || at_path(bs, rel) == Some(
            BodyStructure::Text(part),
        ) || at_path(bs, rel) == Some(BodyStructure::Message(part)),
    ensures
        leaves(bs, path).contains(
            LeafView { path: path + rel, text: at_path(bs, rel)->0 is Text, part },
        ),
    decreases bs, rel.len(),
{
    let l = LeafView { path: path + rel, text: at_path(bs, rel)->0 is Text, part };
    if rel.len() == 0 {
        assert(path + rel =~= path);
        assert(leaves(bs, path)[0] == l);
    } else {
        match bs {
            BodyStructure::Multipart(bodies) => {
                let n = rel[0] as nat;
                let child = bodies@[n - 1];
                let p = path.push(rel[0]);
                assert(child_number(n - 1) == rel[0]);
                lemma_leaf_listed(child, p, rel.drop_first(), part);
                assert(p + rel.drop_first() =~= path + rel);
                lemma_leaves_grow(bodies, n, bodies@.len(), path, l);
            },
            _ => {},
        }
    }
}

proof fn lemma_leaves_grow(
    bodies: Vec<BodyStructure>,
    n: nat,
    all: nat,
    path: Seq<u32>,
    l: LeafView,
)
    requires
        0 < n <= all <= bodies@.len(),
        leaves(bodies@[n - 1], path.push(child_number(n - 1))).contains(l),
    ensures
        leaves_of(bodies, all, path).contains(l),
    decreases all,
{
    let before = leaves_of(bodies, (all - 1) as nat, path);
    let here = leaves(bodies@[all - 1], path.push(child_number(all - 1)));
    if n == all {
        let k = here.index_of(l);
        assert((before + here)[before.len() + k] == l);
    } else {
        lemma_leaves_grow(bodies, n, (all - 1) as nat, path, l);
        let k = before.index_of(l);
        assert((before + here)[k] == l);
    }
}

/// Every part that a message has at some path is listed, under that path.
pub proof fn every_part_is_listed(bs: BodyStructure, path: Seq<u32>, part: Part)
    requires
        numbered(bs),
        at_path(bs, path) == Some(BodyStructure::Basic(part)) || at_path(bs, path) == Some(
            BodyStructure::Text(part),
        ) || at_path(bs, path) == Some(BodyStructure::Message(part)),
    ensures
        leaves(bs, Seq::empty()).contains(
            LeafView { path, text: at_path(bs, path)->0 is Text, part },
        ),
{
    lemma_leaf_listed(bs, Seq::empty(), path, part);
    assert(Seq::<u32>::empty() + path =~= path);
}

proof fn lemma_below(bs: BodyStructure, path: Seq<u32>, i: int)
    requires
        numbered(bs),
        0 <= i < leaves(bs, path).len(),
    ensures
        leaves(bs, path)[i].path.len() >= path.len(),
        leaves(bs, path)[i].path.take(path.len() as int) == path,
{
    lemma_leaf_paths(bs, path);
    assert(leaf_below(bs, path, leaves(bs, path)[i]));
}

proof fn lemma_leaves_ordered(bs: BodyStructure, path: Seq<u32>, i: int, j: int)
    requires
        numbered(bs),
        0 <= i < j < leaves(bs, path).len(),
    ensures
        path_before(leaves(bs, path)[i].path, leaves(bs, path)[j].path),
    decreases bs, 0nat,
{
    match bs {
        BodyStructure::Multipart(bodies) => {
            lemma_leaves_of_ordered(bs, bodies, bodies@.len(), path, i, j);
        },
        _ => {},
    }
}

proof fn lemma_child_paths(
    bs: BodyStructure,
    bodies: Vec<BodyStructure>,
    n: nat,
    path: Seq<u32>,
    i: int,
)
    requires
        bs == BodyStructure::Multipart(bodies),
        numbered(bs),
        n <= bodies@.len(),
        0 <= i < leaves_of(bodies, n, path).len(),
    ensures
        ({
            let q = leaves_of(bodies, n, path)[i].path;
            q.len() > path.len() && q.take(path.len() as int) == path && 1 <= q[path.len() as int]
                <= n
        }),
    decreases n,
{
    let before = leaves_of(bodies, (n - 1) as nat, path);
    let p = path.push(child_number(n - 1));
    if i < before.len() {
        lemma_child_paths(bs, bodies, (n - 1) as nat, path, i);
    } else {
        lemma_below(bodies@[n - 1], p, i - before.len());
        let q = leaves(bodies@[n - 1], p)[i - before.len()].path;
        assert(q.take(path.len() as int) =~= path) by {
            assert forall|k: int| 0 <= k < path.len() implies q[k] == path[k] by {
                assert(q.take(p.len() as int)[k] == p[k]);
            }
        }
        assert(q.take(p.len() as int)[path.len() as int] == p[path.len() as int]);
    }
}

proof fn lemma_leaves_of_ordered(
    bs: BodyStructure,
    bodies: Vec<BodyStructure>,
    n: nat,
    path: Seq<u32>,
    i: int,
    j: int,
)
    requires
        bs == BodyStructure::Multipart(bodies),
        numbered(bs),
        n <= bodies@.len(),
        0 <= i < j < leaves_of(bodies, n, path).len(),
    ensures
        path_before(leaves_of(bodies, n, path)[i].path, leaves_of(bodies, n, path)[j].path),
    decreases bodies, n,
{
    let before = leaves_of(bodies, (n - 1) as nat, path);
    let p = path.push(child_number(n - 1));
    let here = leaves(bodies@[n - 1], p);
    if j < before.len() {
        lemma_leaves_of_ordered(bs, bodies, (n - 1) as nat, path, i, j);
    } else if i >= before.len() {
        lemma_leaves_ordered(bodies@[n - 1], p, i - before.len(), j - before.len());
    } else {
        lemma_child_paths(bs, bodies, (n - 1) as nat, path, i);
        lemma_below(bodies@[n - 1], p, j - before.len());
        let a = before[i].path;
        let b = here[j - before.len()].path;
        let k = path.len() as int;
        assert(b.take(p.len() as int)[k] == p[k]);
        assert(b.take(k) =~= path) by {
            assert forall|x: int| 0 <= x < k implies b[x] == path[x] by {
                assert(b.take(p.len() as int)[x] == p[x]);
            }
        }
        assert(a[k] < b[k]);
    }
}

/// The parts are listed in the order in which they stand in the message.
pub proof fn parts_are_listed_in_order(bs: BodyStructure, i: int, j: int)
    requires
        numbered(bs),
        0 <= i < j < leaves(bs, Seq::empty()).len(),
    ensures
        path_before(leaves(bs, Seq::empty())[i].path, leaves(bs, Seq::empty())[j].path),
{
    lemma_leaves_ordered(bs, Seq::empty(), i, j);
}

// ---------------------------------------------------------------------------
// The text part

proof fn lemma_first_place(ls: Seq<LeafView>, subtype: Seq<char>) -> (k: int)
    ensures
        match first_text(ls, subtype) {
            Some(l) => 0 <= k < ls.len() && ls[k] == l && l.text && lower(l.part.subtype@)
                == subtype && forall|i: int|
                0 <= i < k ==> !((#[trigger] ls[i]).text && lower(ls[i].part.subtype@) == subtype),
            None => forall|i: int|
                0 <= i < ls.len() ==> !((#[trigger] ls[i]).text && lower(ls[i].part.subtype@)
                    == subtype),
        },
    decreases ls.len(),
{
    if ls.len() == 0 {
        0
    } else if ls[0].text && lower(ls[0].part.subtype@) == subtype {
        0
    } else {
        let k = lemma_first_place(ls.drop_first(), subtype);
        assert forall|i: int| 0 < i < ls.len() implies ls[i] == #[trigger] ls.drop_first()[i - 1] by {}
        assert forall|i: int|
            0 <= i < (if first_text(ls, subtype) is Some {
                k + 1
            } else {
                ls.len() as int
            }) implies !((#[trigger] ls[i]).text && lower(ls[i].part.subtype@) == subtype) by {
            if i > 0 {
                assert(ls[i] == ls.drop_first()[i - 1]);
            }
        }
        k + 1
    }
}

/// The text that is fetched is that of the first plain text part of the
/// message, or of its first HTML part where it has no plain one; it is asked
/// for under its own path, and read in its own charset and encoding.
pub proof fn the_first_plain_part_is_fetched(bs: BodyStructure)
    ensures
        ({
            let ls = leaves(bs, Seq::empty());
            match text_part(bs) {
                Some(t) => exists|k: int|
                    {
                        &&& 0 <= k < ls.len()
                        &&& (#[trigger] ls[k]).text
                        &&& t.path == if ls[k].path.len() == 0 {
                            seq![1u32]
                        } else {
                            ls[k].path
                        }
                        &&& t.charset == param_value(ls[k].part.params@, "charset"@)
                        &&& t.encoding == encoding_text(ls[k].part.encoding)
                        &&& t.subtype == lower(ls[k].part.subtype@)
                        &&& (t.subtype == "plain"@ && forall|i: int|
                            0 <= i < k ==> !((#[trigger] ls[i]).text && lower(ls[i].part.subtype@)
                                == "plain"@)) || (t.subtype == "html"@ && forall|i: int|
                            0 <= i < ls.len() && (#[trigger] ls[i]).text ==> lower(
                                ls[i].part.subtype@,
                            ) != "plain"@ && (i < k ==> lower(ls[i].part.subtype@) != "html"@))
                    },
                None => forall|i: int|
                    0 <= i < ls.len() && (#[trigger] ls[i]).text ==> lower(ls[i].part.subtype@)
                        != "plain"@ && lower(ls[i].part.subtype@) != "html"@,
            }
        }),
{
    let ls = leaves(bs, Seq::empty());
    let k = lemma_first_place(ls, "plain"@);
    let n = lemma_first_place(ls, "html"@);
    if first_text(ls, "plain"@) is Some {
        assert(ls[k].text);
    } else if first_text(ls, "html"@) is Some {
        assert(ls[n].text);
    }
}

/// A parameter is looked up by its name in whatever case, and the first of
/// that name counts.
pub proof fn the_first_parameter_of_a_name_counts(ps: Seq<Param>, key: Seq<char>)
    ensures
        match param_value(ps, key) {
            Some(v) => exists|i: int|
                0 <= i < ps.len() && lower((#[trigger] ps[i]).0@) == lower(key) && ps[i].1@ == v
                    && forall|j: int| 0 <= j < i ==> lower((#[trigger] ps[j]).0@) != lower(key),
            None => forall|i: int|
                0 <= i < ps.len() ==> lower((#[trigger] ps[i]).0@) != lower(key),
        },
    decreases ps.len(),
{
    if ps.len() > 0 {
        if lower(ps[0].0@) == lower(key) {
            assert(ps[0].1@ == param_value(ps, key)->0);
        } else {
            let t = ps.drop_first();
            the_first_parameter_of_a_name_counts(t, key);
            assert forall|i: int| 0 < i < ps.len() implies ps[i] == #[trigger] t[i - 1] by {}
            if let Some(v) = param_value(t, key) {
                let i = choose|i: int|
                    0 <= i < t.len() && lower((#[trigger] t[i]).0@) == lower(key) && t[i].1@ == v
                        && forall|j: int| 0 <= j < i ==> lower((#[trigger] t[j]).0@) != lower(key);
                assert(ps[i + 1] == t[i]);
                assert forall|j: int| 0 <= j < i + 1 implies lower((#[trigger] ps[j]).0@) != lower(
                    key,
                ) by {
                    if j > 0 {
                        assert(ps[j] == t[j - 1]);
                    }
                }
            } else {
                assert forall|i: int| 0 <= i < ps.len() implies lower((#[trigger] ps[i]).0@)
                    != lower(key) by {
                    if i > 0 {
                        assert(ps[i] == t[i - 1]);
                    }
                }
            }
        }
    }
}

// ---------------------------------------------------------------------------
// Attachments

/// What makes a part an attachment: it says so, or a file name of its own.
pub open spec fn is_attached(p: Part) -> bool {
    ||| p.disposition matches Some(d) && (lower(d.ty@) == "attachment"@ || param_value(
        d.params@,
        "filename"@,
    ) is Some)
    ||| param_value(p.params@, "name"@) is Some
}

/// What a listed attachment says of its part.
pub open spec fn describes(a: RemoteAttachmentView, l: LeafView) -> bool {
    &&& a.section == if l.path.len() == 0 {
        seq![1u32]
    } else {
        l.path
    }
    &&& a.size == l.part.octets
    &&& a.encoding == encoding_text(l.part.encoding)
    &&& a.mime == lower(l.part.ty@) + "/"@ + lower(l.part.subtype@)
    &&& l.part.disposition matches Some(d) ==> param_value(d.params@, "filename"@) matches Some(n)
        ==> a.name == n
    &&& (l.part.disposition matches Some(d) ==> param_value(d.params@, "filename"@) is None)
        ==> (param_value(l.part.params@, "name"@) matches Some(n) ==> a.name == n)
    &&& (l.part.disposition matches Some(d) ==> param_value(d.params@, "filename"@) is None)
        && param_value(l.part.params@, "name"@) is None ==> a.name == "attachment."@ + lower(
        l.part.subtype@,
    )
}

/// How many of some parts are attachments.
pub open spec fn attached_count(ls: Seq<LeafView>) -> nat
    decreases ls.len(),
{
    if ls.len() == 0 {
        0
    } else {
        attached_count(ls.drop_last()) + if is_attached(ls.last().part) {
            1nat
        } else {
            0nat
        }
    }
}

proof fn lemma_attached(l: LeafView)
    ensures
        attachment_of(l) is Some == is_attached(l.part),
        attachment_of(l) matches Some(a) ==> describes(a, l),
{
    reveal_strlit("attachment");
    assert(lower("attachment"@) =~= "attachment"@);
}

/// Each part that is attached, and no other, is listed once, in order, under
/// its own name, path, type, encoding and size.
pub proof fn attachments_are_listed_as_they_are(ls: Seq<LeafView>, i: int)
    requires
        0 <= i < ls.len(),
    ensures
        attachments_in(ls).len() == attached_count(ls),
        is_attached(ls[i].part) ==> attached_count(ls.take(i)) < attached_count(ls) && describes(
            attachments_in(ls)[attached_count(ls.take(i)) as int],
            ls[i],
        ),
    decreases ls.len(),
{
    let t = ls.drop_last();
    lemma_attached(ls.last());
    lemma_attached_count(t);
    if i == ls.len() - 1 {
        assert(ls.take(i) =~= t);
    } else {
        attachments_are_listed_as_they_are(t, i);
        assert(t.take(i) =~= ls.take(i));
        assert(t[i] == ls[i]);
    }
}

proof fn lemma_attached_count(ls: Seq<LeafView>)
    ensures
        attachments_in(ls).len() == attached_count(ls),
    decreases ls.len(),
{
    if ls.len() > 0 {
        lemma_attached_count(ls.drop_last());
        lemma_attached(ls.last());
    }
}

/// Encodings that change nothing leave the bytes alone, under whatever case
/// their names are written; a server's names of them are among these.
pub proof fn identity_encodings_leave_bytes_alone(enc: Seq<char>, bytes: Seq<u8>)
    ensures
        lower(enc) == "7bit"@ || lower(enc) == "8bit"@ || lower(enc) == "binary"@ || enc.len() == 0
            ==> decoded(enc, bytes) == bytes,
        decoded(encoding_text(TransferEncoding::SevenBit), bytes) == bytes,
        decoded(encoding_text(TransferEncoding::EightBit), bytes) == bytes,
        decoded(encoding_text(TransferEncoding::Binary), bytes) == bytes,
{
    reveal_strlit("7bit");
    reveal_strlit("8bit");
    reveal_strlit("binary");
    reveal_strlit("");
    assert(lower("7bit"@) =~= "7bit"@);
    assert(lower("8bit"@) =~= "8bit"@);
    assert(lower("binary"@) =~= "binary"@);
    if enc.len() == 0 {
        assert(lower(enc) =~= ""@);
    }
}

/// Any other encoding is undone as the parser undoes it behind a header that
/// names it; bytes in which it finds no attachment come back as they are.
pub proof fn an_encoding_is_undone_under_its_name(enc: Seq<char>, bytes: Seq<u8>)
    requires
        enc.len() > 0,
        lower(enc) != "7bit"@,
        lower(enc) != "8bit"@,
        lower(enc) != "binary"@,
        one_line(lower(enc)),
    ensures
        exists|h: Seq<char>|
            {
                let raw = #[trigger] encode_utf8(h) + bytes;
                &&& holds_text(h, "\r\nContent-Transfer-Encoding: "@ + lower(enc) + "\r\n"@)
                &&& holds_text(h, "Content-Disposition: attachment\r\n"@)
                &&& raw.len() <= i32::MAX ==> match parsed_contents(raw) {
                    Some(read) => decoded(enc, bytes) == match read.2 {
                        Some(a) => a,
                        None => bytes,
                    },
                    None => decoded(enc, bytes) == bytes,
                }
            },
{
    reveal_strlit("");
    reveal_strlit(
        "MIME-Version: 1.0\r\nContent-Type: application/octet-stream\r\nContent-Transfer-Encoding: ",
    );
    reveal_strlit("\r\nContent-Disposition: attachment\r\n\r\n");
    reveal_strlit("MIME-Version: 1.0\r\nContent-Type: application/octet-stream");
    reveal_strlit("\r\nContent-Transfer-Encoding: ");
    reveal_strlit("\r\n");
    reveal_strlit("Content-Disposition: attachment\r\n");
    let h = attachment_header(lower(enc));
    let front = "MIME-Version: 1.0\r\nContent-Type: application/octet-stream"@;
    let mid = "\r\nContent-Transfer-Encoding: "@ + lower(enc) + "\r\n"@;
    let dis = "Content-Disposition: attachment\r\n"@;
    assert(h =~= front + mid + (dis + "\r\n"@));
    assert(h.subrange(front.len() as int, front.len() + mid.len() as int) =~= mid);
    assert(holds_text(h, mid));
    let at = front.len() + mid.len() as int;
    assert(h.subrange(at, at + dis.len()) =~= dis);
    assert(holds_text(h, dis));
    assert(!is_plain_encoding(enc)) by {
        assert(lower(enc).len() == enc.len());
    }
    assert(encode_utf8(h) == encode_utf8(h));
}

} // verus!
