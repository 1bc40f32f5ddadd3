//! The parts of a message, as the server describes them before any of it is
//! downloaded.

use vstd::prelude::*;
use crate::model::{copy_numbers, views, views_push, RemoteAttachment, RemoteAttachmentView};
use crate::number::{decimal, decimal_text};
use crate::scan::join;
use crate::text::{ascii_lower, lower, opt_text, same};

verus! {

// ---------------------------------------------------------------------------
// Parts

#[derive(Debug, Clone, PartialEq)]
pub enum TransferEncoding {
    SevenBit,
    EightBit,
    Binary,
    Base64,
    QuotedPrintable,
    Other(String),
}

/// A parameter's name and value.
pub type Param = (String, String);

#[derive(Debug, Clone, PartialEq)]
pub struct Disposition {
    pub ty: String,
    pub params: Vec<Param>,
}

/// A part that holds no further parts of its own to choose from.
#[derive(Debug, Clone, PartialEq)]
pub struct Part {
    pub ty: String,
    pub subtype: String,
    pub params: Vec<Param>,
    pub disposition: Option<Disposition>,
    pub encoding: TransferEncoding,
    pub octets: u32,
}

#[derive(Debug)]
pub enum BodyStructure {
    Basic(Part),
    Text(Part),
    Message(Part),
    Multipart(Vec<BodyStructure>),
}

pub open spec fn encoding_text(e: TransferEncoding) -> Seq<char> {
    match e {
        TransferEncoding::SevenBit => "7bit"@,
        TransferEncoding::EightBit => "8bit"@,
        TransferEncoding::Binary => "binary"@,
        TransferEncoding::Base64 => "base64"@,
        TransferEncoding::QuotedPrintable => "quoted-printable"@,
        TransferEncoding::Other(s) => s@,
    }
}

pub fn encoding_str(e: &TransferEncoding) -> (r: String)
    ensures
        r@ == encoding_text(*e),
{
    match e {
        TransferEncoding::SevenBit => "7bit".to_owned(),
        TransferEncoding::EightBit => "8bit".to_owned(),
        TransferEncoding::Binary => "binary".to_owned(),
        TransferEncoding::Base64 => "base64".to_owned(),
        TransferEncoding::QuotedPrintable => "quoted-printable".to_owned(),
        TransferEncoding::Other(s) => s.clone(),
    }
}

/// The value of the first parameter with that name, in whatever case.
pub open spec fn param_value(ps: Seq<Param>, key: Seq<char>) -> Option<Seq<char>>
    decreases ps.len(),
{
    if ps.len() == 0 {
        None
    } else if lower(ps[0].0@) == lower(key) {
        Some(ps[0].1@)
    } else {
        param_value(ps.drop_first(), key)
    }
}

/// Whether two texts differ in ASCII case at most.
pub fn same_ignoring_case(a: &str, b: &str) -> (r: bool)
    ensures
        r == (lower(a@) == lower(b@)),
{
    let x = ascii_lower(a);
    let y = ascii_lower(b);
    same(x.as_str(), y.as_str())
}

pub fn param(ps: &Vec<Param>, key: &str) -> (r: Option<String>)
    ensures
        opt_text(r) == param_value(ps@, key@),
{
    let mut i: usize = 0;
    proof {
        assert(ps@.skip(0) =~= ps@);
    }
    while i < ps.len()
        invariant
            i <= ps@.len(),
            param_value(ps@, key@) == param_value(ps@.skip(i as int), key@),
        decreases ps@.len() - i,
    {
        if same_ignoring_case(ps[i].0.as_str(), key) {
            return Some(ps[i].1.clone());
        }
        proof {
            assert(ps@.skip(i as int).drop_first() =~= ps@.skip(i + 1));
        }
        i = i + 1;
    }
    None
}

// ---------------------------------------------------------------------------
// Part paths

/// The number of a child: children count from one.
pub open spec fn child_number(i: int) -> u32 {
    ((i + 1) % 0x1_0000_0000) as u32
}

/// A part with its path.
pub struct Leaf<'a> {
    pub path: Vec<u32>,
    pub text: bool,
    pub part: &'a Part,
}

#[verifier::ext_equal]
pub ghost struct LeafView {
    pub path: Seq<u32>,
    pub text: bool,
    pub part: Part,
}

impl<'a> View for Leaf<'a> {
    type V = LeafView;

    open spec fn view(&self) -> LeafView {
        LeafView { path: self.path@, text: self.text, part: *self.part }
    }
}

/// The parts below `bs`, depth first, where `bs` itself stands at `path`.
pub open spec fn leaves(bs: BodyStructure, path: Seq<u32>) -> Seq<LeafView>
    decreases bs, 0nat,
{
    match bs {
        BodyStructure::Basic(part) => seq![LeafView { path, text: false, part }],
        BodyStructure::Text(part) => seq![LeafView { path, text: true, part }],
        BodyStructure::Message(part) => seq![LeafView { path, text: false, part }],
        BodyStructure::Multipart(bodies) => leaves_of(bodies, bodies@.len(), path),
    }
}

/// The parts below the first `n` children.
pub open spec fn leaves_of(bodies: Vec<BodyStructure>, n: nat, path: Seq<u32>) -> Seq<LeafView>
    decreases bodies, n,
{
    if n == 0 || n > bodies@.len() {
        Seq::empty()
    } else {
        leaves_of(bodies, (n - 1) as nat, path) + leaves(
            bodies@[n - 1],
            path.push(child_number(n - 1)),
        )
    }
}

fn collect_leaves<'a>(bs: &'a BodyStructure, path: &Vec<u32>, out: &mut Vec<Leaf<'a>>)
    ensures
        views(final(out)@) == views(old(out)@) + leaves(*bs, path@),
    decreases bs,
{
    broadcast use views_push;

    let ghost start = views(out@);
    match bs {
        BodyStructure::Basic(part) => {
            out.push(Leaf { path: copy_numbers(path), text: false, part });
            assert(views(out@) =~= start + leaves(*bs, path@));
        },
        BodyStructure::Text(part) => {
            out.push(Leaf { path: copy_numbers(path), text: true, part });
            assert(views(out@) =~= start + leaves(*bs, path@));
        },
        BodyStructure::Message(part) => {
            out.push(Leaf { path: copy_numbers(path), text: false, part });
            assert(views(out@) =~= start + leaves(*bs, path@));
        },
        BodyStructure::Multipart(bodies) => {
            let mut i: usize = 0;
            assert(views(out@) =~= start + leaves_of(*bodies, 0, path@));
            while i < bodies.len()
                invariant
                    i <= bodies@.len(),
                    *bs == BodyStructure::Multipart(*bodies),
                    views(out@) == start + leaves_of(*bodies, i as nat, path@),
                decreases bodies@.len() - i,
            {
                let mut child = copy_numbers(path);
                child.push(((i as u64 + 1) % 0x1_0000_0000) as u32);
                proof {
                    assert(decreases_to!(*bs => bs->Multipart_0));
                    assert(decreases_to!(*bodies => bodies@));
                    assert(decreases_to!(bodies@ => bodies@[i as int]));
                }
                collect_leaves(&bodies[i], &child, out);
                proof {
                    assert(child@ =~= path@.push(child_number(i as int)));
                    assert(views(out@) =~= start + leaves_of(*bodies, (i + 1) as nat, path@));
                }
                i = i + 1;
            }
        },
    }
}

/// All parts of a message, with their paths.
pub fn all_leaves<'a>(bs: &'a BodyStructure) -> (r: Vec<Leaf<'a>>)
    ensures
        views(r@) == leaves(*bs, Seq::empty()),
{
    let mut out: Vec<Leaf<'a>> = Vec::new();
    let path: Vec<u32> = Vec::new();
    collect_leaves(bs, &path, &mut out);
    assert(Seq::<LeafView>::empty() + leaves(*bs, path@) =~= leaves(*bs, path@));
    assert(path@ =~= Seq::<u32>::empty());
    out
}

/// The section a path names: a message that is one part is section 1.
pub open spec fn section_of(path: Seq<u32>) -> Seq<u32> {
    if path.len() == 0 {
        seq![1u32]
    } else {
        path
    }
}

fn section_path(path: &Vec<u32>) -> (r: Vec<u32>)
    ensures
        r@ == section_of(path@),
{
    if path.len() == 0 {
        let mut v: Vec<u32> = Vec::new();
        v.push(1);
        assert(v@ =~= seq![1u32]);
        v
    } else {
        copy_numbers(path)
    }
}

/// The decimal forms of a list of numbers.
pub open spec fn decimals(ns: Seq<u32>) -> Seq<Seq<char>> {
    Seq::new(ns.len(), |i: int| decimal(ns[i] as nat))
}

/// `ns` in decimal, with `sep` between them.
pub fn join_numbers(ns: &Vec<u32>, sep: &str) -> (r: String)
    ensures
        r@ == join(decimals(ns@), sep@),
{
    let mut out = String::new();
    let mut i: usize = 0;
    while i < ns.len()
        invariant
            i <= ns@.len(),
            out@ == join(decimals(ns@).take(i as int), sep@),
        decreases ns@.len() - i,
    {
        let ghost all = decimals(ns@);
        if i > 0 {
            out.append(sep);
        }
        let d = decimal_text(ns[i] as u64);
        out.append(d.as_str());
        proof {
            crate::scan::lemma_join_push(all.take(i as int), sep@, d@);
            assert(all.take(i as int).push(d@) =~= all.take(i + 1));
            assert(Seq::<char>::empty() + d@ =~= d@);
        }
        i = i + 1;
    }
    assert(decimals(ns@).take(i as int) =~= decimals(ns@));
    out
}

/// The dotted form of a part path, as in `1.2`.
pub fn section_str(path: &Vec<u32>) -> (r: String)
    ensures
        r@ == join(decimals(path@), "."@),
{
    join_numbers(path, ".")
}

// ---------------------------------------------------------------------------
// The text part

/// The text part to show: its path plus the metadata needed to rebuild a
/// decodable single-part message.
#[derive(Debug, Clone, PartialEq)]
pub struct TextPartSpec {
    pub path: Vec<u32>,
    pub subtype: String,
    pub charset: Option<String>,
    pub encoding: String,
}

#[verifier::ext_equal]
pub ghost struct TextPartView {
    pub path: Seq<u32>,
    pub subtype: Seq<char>,
    pub charset: Option<Seq<char>>,
    pub encoding: Seq<char>,
}

impl View for TextPartSpec {
    type V = TextPartView;

    open spec fn view(&self) -> TextPartView {
        TextPartView {
            path: self.path@,
            subtype: self.subtype@,
            charset: opt_text(self.charset),
            encoding: self.encoding@,
        }
    }
}

pub open spec fn is_text(l: LeafView, subtype: Seq<char>) -> bool {
    l.text && lower(l.part.subtype@) == subtype
}

/// The first part of a text subtype.
pub open spec fn first_text(ls: Seq<LeafView>, subtype: Seq<char>) -> Option<LeafView>
    decreases ls.len(),
{
    if ls.len() == 0 {
        None
    } else if is_text(ls[0], subtype) {
        Some(ls[0])
    } else {
        first_text(ls.drop_first(), subtype)
    }
}

pub open spec fn text_spec(l: LeafView) -> TextPartView {
    TextPartView {
        path: section_of(l.path),
        subtype: lower(l.part.subtype@),
        charset: param_value(l.part.params@, "charset"@),
        encoding: encoding_text(l.part.encoding),
    }
}

/// The first plain text anywhere, else the first HTML.
pub open spec fn text_part(bs: BodyStructure) -> Option<TextPartView> {
    let ls = leaves(bs, Seq::empty());
    match first_text(ls, "plain"@) {
        Some(l) => Some(text_spec(l)),
        None => match first_text(ls, "html"@) {
            Some(l) => Some(text_spec(l)),
            None => None,
        },
    }
}

fn first_text_leaf<'a>(ls: &Vec<Leaf<'a>>, subtype: &str) -> (r: Option<TextPartSpec>)
    ensures
        crate::model::opt_view(r) == (match first_text(views(ls@), subtype@) {
            Some(l) => Some(text_spec(l)),
            None => None,
        }),
{
    let mut i: usize = 0;
    assert(views(ls@).skip(0) =~= views(ls@));
    while i < ls.len()
        invariant
            i <= ls@.len(),
            first_text(views(ls@), subtype@) == first_text(
                views(ls@).skip(i as int),
                subtype@,
            ),
        decreases ls@.len() - i,
    {
        let l = &ls[i];
        assert(views(ls@).skip(i as int)[0] == l@);
        let sub = ascii_lower(l.part.subtype.as_str());
        if l.text && same(sub.as_str(), subtype) {
            return Some(
                TextPartSpec {
                    path: section_path(&l.path),
                    subtype: sub,
                    charset: param(&l.part.params, "charset"),
                    encoding: encoding_str(&l.part.encoding),
                },
            );
        }
        assert(views(ls@).skip(i as int).drop_first() =~= views(ls@).skip(i + 1));
        i = i + 1;
    }
    None
}

/// The best displayable part: the first plain text anywhere, else the first
/// HTML. `None` sends the caller to a capped full-message fetch.
pub fn find_text_part(bs: &BodyStructure) -> (r: Option<TextPartSpec>)
    ensures
        crate::model::opt_view(r) == text_part(*bs),
{
    let ls = all_leaves(bs);
    let plain = first_text_leaf(&ls, "plain");
    if plain.is_some() {
        plain
    } else {
        first_text_leaf(&ls, "html")
    }
}

// ---------------------------------------------------------------------------
// Attachments

pub open spec fn is_attachment_disposition(d: Option<Disposition>) -> bool {
    d matches Some(d) && lower(d.ty@) == lower("attachment"@)
}

/// The file name a part carries: in its disposition, else in its type.
pub open spec fn part_filename(p: Part) -> Option<Seq<char>> {
    match p.disposition {
        Some(d) => match param_value(d.params@, "filename"@) {
            Some(n) => Some(n),
            None => param_value(p.params@, "name"@),
        },
        None => param_value(p.params@, "name"@),
    }
}

/// What a part is as an attachment, if it is one: it says so, or it carries a
/// file name.
pub open spec fn attachment_of(l: LeafView) -> Option<RemoteAttachmentView> {
    let filename = part_filename(l.part);
    if !is_attachment_disposition(l.part.disposition) && filename is None {
        None
    } else {
        Some(
            RemoteAttachmentView {
                name: match filename {
                    Some(n) => n,
                    None => "attachment."@ + lower(l.part.subtype@),
                },
                section: section_of(l.path),
                encoding: encoding_text(l.part.encoding),
                mime: lower(l.part.ty@) + "/"@ + lower(l.part.subtype@),
                size: l.part.octets,
            },
        )
    }
}

/// The attachments among some parts.
pub open spec fn attachments_in(ls: Seq<LeafView>) -> Seq<RemoteAttachmentView>
    decreases ls.len(),
{
    if ls.len() == 0 {
        Seq::empty()
    } else {
        match attachment_of(ls.last()) {
            Some(a) => attachments_in(ls.drop_last()).push(a),
            None => attachments_in(ls.drop_last()),
        }
    }
}

fn as_attachment<'a>(l: &Leaf<'a>) -> (r: Option<RemoteAttachment>)
    ensures
        crate::model::opt_view(r) == attachment_of(l@),
{
    let says_so = match &l.part.disposition {
        Some(d) => same_ignoring_case(d.ty.as_str(), "attachment"),
        None => false,
    };
    let in_disposition = match &l.part.disposition {
        Some(d) => param(&d.params, "filename"),
        None => None,
    };
    let filename = if in_disposition.is_some() {
        in_disposition
    } else {
        param(&l.part.params, "name")
    };
    if !says_so && filename.is_none() {
        return None;
    }
    let subtype = ascii_lower(l.part.subtype.as_str());
    let mut mime = ascii_lower(l.part.ty.as_str());
    mime.append("/");
    mime.append(subtype.as_str());
    let name = match filename {
        Some(n) => n,
        None => {
            let mut n = "attachment.".to_owned();
            n.append(subtype.as_str());
            n
        },
    };
    Some(
        RemoteAttachment {
            name,
            section: section_path(&l.path),
            encoding: encoding_str(&l.part.encoding),
            mime,
            size: l.part.octets,
        },
    )
}

/// The parts that are attachments, in the order of the structure.
pub fn find_attachment_parts(bs: &BodyStructure) -> (r: Vec<RemoteAttachment>)
    ensures
        views(r@) == attachments_in(leaves(*bs, Seq::empty())),
{
    broadcast use views_push;

    let ls = all_leaves(bs);
    let mut out: Vec<RemoteAttachment> = Vec::new();
    let mut i: usize = 0;
    assert(views(out@) =~= Seq::empty());
    while i < ls.len()
        invariant
            i <= ls@.len(),
            views(out@) == attachments_in(views(ls@).take(i as int)),
        decreases ls@.len() - i,
    {
        broadcast use views_push;

        assert(views(ls@).take(i + 1).drop_last() =~= views(ls@).take(i as int));
        if let Some(a) = as_attachment(&ls[i]) {
            out.push(a);
        }
        i = i + 1;
    }
    assert(views(ls@).take(i as int) =~= views(ls@));
    out
}

// ---------------------------------------------------------------------------
// Laws

/// What stands at a path below `bs`.
pub open spec fn at_path(bs: BodyStructure, path: Seq<u32>) -> Option<BodyStructure>
    decreases path.len(),
{
    if path.len() == 0 {
        Some(bs)
    } else {
        match bs {
            BodyStructure::Multipart(bodies) => if 1 <= path[0] <= bodies@.len() {
                at_path(bodies@[path[0] - 1], path.drop_first())
            } else {
                None
            },
            _ => None,
        }
    }
}

/// No part has more children than there are numbers for.
pub open spec fn numbered(bs: BodyStructure) -> bool
    decreases bs,
{
    match bs {
        BodyStructure::Multipart(bodies) => bodies@.len() < 0x1_0000_0000 && forall|i: int|
            0 <= i < bodies@.len() ==> numbered(#[trigger] bodies@[i]),
        _ => true,
    }
}

pub open spec fn is_leaf_at(bs: BodyStructure, path: Seq<u32>, l: LeafView) -> bool {
    match at_path(bs, path) {
        Some(BodyStructure::Basic(p)) => !l.text && l.part == p,
        Some(BodyStructure::Text(p)) => l.text && l.part == p,
        Some(BodyStructure::Message(p)) => !l.text && l.part == p,
        _ => false,
    }
}

pub proof fn lemma_leaf_paths(bs: BodyStructure, path: Seq<u32>)
    requires
        numbered(bs),
    ensures
        forall|i: int|
            0 <= i < leaves(bs, path).len() ==> leaf_below(bs, path, #[trigger] leaves(bs, path)[i]),
    decreases bs, 0nat,
{
    match bs {
        BodyStructure::Multipart(bodies) => {
            lemma_leaf_paths_of(bs, bodies, bodies@.len(), path);
            assert(leaves(bs, path) == leaves_of(bodies, bodies@.len(), path));
        },
        _ => {
            assert forall|i: int| 0 <= i < leaves(bs, path).len() implies leaf_below(
                bs,
                path,
                #[trigger] leaves(bs, path)[i],
            ) by {
                let l = leaves(bs, path)[i];
                assert(l.path.skip(path.len() as int) =~= Seq::<u32>::empty());
                assert(l.path.take(path.len() as int) =~= path);
            }
        },
    }
}

/// `l` stands below `bs`, at what its path adds to `path`.
pub open spec fn leaf_below(bs: BodyStructure, path: Seq<u32>, l: LeafView) -> bool {
    &&& l.path.len() >= path.len()
    &&& l.path.take(path.len() as int) == path
    &&& is_leaf_at(bs, l.path.skip(path.len() as int), l)
}

proof fn lemma_leaf_paths_of(
    bs: BodyStructure,
    bodies: Vec<BodyStructure>,
    n: nat,
    path: Seq<u32>,
)
    requires
        bs == BodyStructure::Multipart(bodies),
        numbered(bs),
        n <= bodies@.len(),
    ensures
        forall|i: int|
            0 <= i < leaves_of(bodies, n, path).len() ==> leaf_below(
                bs,
                path,
                #[trigger] leaves_of(bodies, n, path)[i],
            ),
    decreases bodies, n,
{
    if n > 0 {
        let child = bodies@[n - 1];
        let p = path.push(child_number(n - 1));
        lemma_leaf_paths_of(bs, bodies, (n - 1) as nat, path);
        lemma_leaf_paths(child, p);
        let before = leaves_of(bodies, (n - 1) as nat, path);
        let here = leaves(child, p);
        let all = leaves_of(bodies, n, path);
        assert forall|i: int| 0 <= i < all.len() implies leaf_below(bs, path, #[trigger] all[i]) by {
            if i < before.len() {
                assert(all[i] == before[i]);
            } else {
                let l = here[i - before.len()];
                assert(all[i] == l);
                assert(leaf_below(child, p, l));
                let rest = l.path.skip(path.len() as int);
                assert(l.path.take(path.len() as int) =~= p.take(path.len() as int)) by {
                    assert(l.path.take(p.len() as int) == p);
                    assert forall|k: int| 0 <= k < path.len() implies l.path[k] == path[k] by {
                        assert(l.path.take(p.len() as int)[k] == p[k]);
                    }
                }
                assert(p.take(path.len() as int) =~= path);
                assert(rest[0] == n) by {
                    assert(l.path.take(p.len() as int)[path.len() as int] == p[path.len() as int]);
                }
                assert(rest.drop_first() =~= l.path.skip(p.len() as int));
                assert(at_path(bs, rest) == at_path(child, rest.drop_first()));
            }
        }
    }
}

/// Every part that is listed stands at its path.
pub proof fn leaf_paths_resolve(bs: BodyStructure, i: int)
    requires
        numbered(bs),
        0 <= i < leaves(bs, Seq::empty()).len(),
    ensures
        is_leaf_at(bs, leaves(bs, Seq::empty())[i].path, leaves(bs, Seq::empty())[i]),
{
    lemma_leaf_paths(bs, Seq::empty());
    let l = leaves(bs, Seq::empty())[i];
    assert(leaf_below(bs, Seq::empty(), l));
    assert(l.path.skip(0) =~= l.path);
}

proof fn lemma_first_text(ls: Seq<LeafView>, subtype: Seq<char>)
    ensures
        match first_text(ls, subtype) {
            Some(l) => ls.contains(l) && is_text(l, subtype),
            None => forall|i: int| 0 <= i < ls.len() ==> !is_text(#[trigger] ls[i], subtype),
        },
    decreases ls.len(),
{
    if ls.len() > 0 {
        if is_text(ls[0], subtype) {
            assert(ls.contains(ls[0]));
        } else {
            let t = ls.drop_first();
            lemma_first_text(t, subtype);
            assert forall|i: int| 0 < i < ls.len() implies ls[i] == t[i - 1] by {}
            if let Some(l) = first_text(t, subtype) {
                let k = t.index_of(l);
                assert(ls[k + 1] == l);
            }
        }
    }
}

/// The part to show is a plain text if the message has one anywhere, else an
/// HTML text, and `None` only where it has neither.
pub proof fn text_part_prefers_plain(bs: BodyStructure)
    ensures
        ({
            let ls = leaves(bs, Seq::empty());
            let has_plain = exists|i: int| 0 <= i < ls.len() && is_text(#[trigger] ls[i], "plain"@);
            let has_html = exists|i: int| 0 <= i < ls.len() && is_text(#[trigger] ls[i], "html"@);
            match text_part(bs) {
                Some(p) => p.subtype == if has_plain {
                    "plain"@
                } else {
                    "html"@
                },
                None => !has_plain && !has_html,
            }
        }),
{
    let ls = leaves(bs, Seq::empty());
    lemma_first_text(ls, "plain"@);
    lemma_first_text(ls, "html"@);
    if let Some(l) = first_text(ls, "plain"@) {
        let k = ls.index_of(l);
        assert(is_text(ls[k], "plain"@));
    }
}

} // verus!
