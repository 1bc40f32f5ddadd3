//! What holds of every message that is downloaded and read.

use vstd::prelude::*;
use vstd::utf8::encode_utf8;
use crate::fetch::{
    finished, pending_at, pending_in, pending_of, with_replies, with_reply, HeaderReply,
    PendingView, TextReply,
};
use crate::intake::has_least;
use crate::message::{
    body_shown, date_text, entities_decoded, html_text, in_tag, month_name, one_line, parsed_contents, parsed_headers,
    part_header, part_mail, person_text, untagged, MailDate, MailView,
};
use crate::model::EmailView;
use crate::number::{decimal, decimal_reads_back, padded, value};
use crate::scan::{part_at, replace};
use crate::structure::TextPartView;
use crate::text::is_space;
use crate::text_laws::{holds_text, lemma_holds};

verus! {

// ---------------------------------------------------------------------------
// Who sent it

/// A name and an address show as `Name <address>`, one of them alone as it is,
/// and where there is neither the fallback shows.
pub proof fn a_person_shows_by_name_and_address(
    name: Option<Seq<char>>,
    address: Option<Seq<char>>,
    fallback: Seq<char>,
)
    ensures
        ({
            let shown = person_text(Some(crate::message::PersonView { name, address }), fallback);
            &&& name is Some && address is Some ==> {
                let n = name->0;
                let a = address->0;
                &&& shown.len() == n.len() + a.len() + 3
                &&& shown.subrange(0, n.len() as int) == n
                &&& shown.subrange(n.len() + 2int, n.len() + 2int + a.len()) == a
                &&& shown[n.len() as int] == ' '
                &&& shown[n.len() + 1int] == '<'
                &&& shown.last() == '>'
            }
            &&& name is Some && address is None ==> shown == name->0
            &&& name is None && address is Some ==> shown == address->0
            &&& name is None && address is None ==> shown == fallback
        }),
        person_text(None, fallback) == fallback,
{
    reveal_strlit(" <");
    reveal_strlit(">");
    let shown = person_text(Some(crate::message::PersonView { name, address }), fallback);
    if name is Some && address is Some {
        let n = name->0;
        let a = address->0;
        assert(shown.subrange(0, n.len() as int) =~= n);
        assert(shown.subrange(n.len() + 2int, n.len() + 2int + a.len()) =~= a);
    }
}

/// The messages after some text replies, each list of them to one fetch.
pub open spec fn after_texts(
    ps: Seq<PendingView>,
    rounds: Seq<(Seq<TextReply>, bool)>,
) -> Seq<PendingView>
    decreases rounds.len(),
{
    if rounds.len() == 0 {
        ps
    } else {
        with_replies(after_texts(ps, rounds.drop_last()), rounds.last().0, rounds.last().1)
    }
}

/// The mail that a batch ends in: its header replies, whatever text came for
/// them, in a folder.
pub open spec fn batch_mail(
    hs: Seq<HeaderReply>,
    account: Seq<char>,
    rounds: Seq<(Seq<TextReply>, bool)>,
    folder: Seq<char>,
) -> Seq<EmailView> {
    after_texts(pending_in(hs, account), rounds).map_values(|p: PendingView| finished(p, folder))
}

/// Text changes bodies alone.
pub open spec fn same_but_body(p: PendingView, q: PendingView) -> bool {
    q == PendingView { body: q.body, ..p }
}

proof fn lemma_pending_at(ps: Seq<PendingView>, uid: u32)
    ensures
        0 <= pending_at(ps, uid) <= ps.len(),
        pending_at(ps, uid) < ps.len() ==> ps[pending_at(ps, uid)].uid == uid,
        forall|i: int| 0 <= i < pending_at(ps, uid) ==> (#[trigger] ps[i]).uid != uid,
    decreases ps.len(),
{
    if ps.len() > 0 && ps[0].uid != uid {
        lemma_pending_at(ps.drop_first(), uid);
        assert forall|i: int| 0 <= i < pending_at(ps, uid) implies (#[trigger] ps[i]).uid
            != uid by {
            if i > 0 {
                assert(ps[i] == ps.drop_first()[i - 1]);
            }
        }
    }
}

proof fn lemma_replies_change_bodies(ps: Seq<PendingView>, replies: Seq<TextReply>, whole: bool)
    ensures
        with_replies(ps, replies, whole).len() == ps.len(),
        forall|i: int|
            0 <= i < ps.len() ==> same_but_body(
                ps[i],
                #[trigger] with_replies(ps, replies, whole)[i],
            ),
    decreases replies.len(),
{
    if replies.len() > 0 {
        lemma_replies_change_bodies(ps, replies.drop_last(), whole);
        let before = with_replies(ps, replies.drop_last(), whole);
        match (replies.last().uid, replies.last().bytes) {
            (Some(uid), Some(_)) => {
                lemma_pending_at(before, uid);
            },
            _ => {},
        }
        assert forall|i: int| 0 <= i < ps.len() implies same_but_body(
            ps[i],
            #[trigger] with_replies(ps, replies, whole)[i],
        ) by {
            assert(same_but_body(ps[i], before[i]));
        }
    }
}

proof fn lemma_texts_change_bodies(ps: Seq<PendingView>, rounds: Seq<(Seq<TextReply>, bool)>)
    ensures
        after_texts(ps, rounds).len() == ps.len(),
        forall|i: int|
            0 <= i < ps.len() ==> same_but_body(ps[i], #[trigger] after_texts(ps, rounds)[i]),
    decreases rounds.len(),
{
    if rounds.len() > 0 {
        let before = after_texts(ps, rounds.drop_last());
        lemma_texts_change_bodies(ps, rounds.drop_last());
        lemma_replies_change_bodies(before, rounds.last().0, rounds.last().1);
        assert forall|i: int| 0 <= i < ps.len() implies same_but_body(
            ps[i],
            #[trigger] after_texts(ps, rounds)[i],
        ) by {
            assert(same_but_body(ps[i], before[i]));
            assert(same_but_body(
                before[i],
                with_replies(before, rounds.last().0, rounds.last().1)[i],
            ));
        }
    }
}

/// How many of some replies have a uid.
pub open spec fn with_uid(hs: Seq<HeaderReply>) -> nat
    decreases hs.len(),
{
    if hs.len() == 0 {
        0
    } else {
        with_uid(hs.drop_last()) + if hs.last().uid is Some {
            1nat
        } else {
            0nat
        }
    }
}

proof fn lemma_pending_place(hs: Seq<HeaderReply>, account: Seq<char>, i: int)
    requires
        0 <= i < hs.len(),
        hs[i].uid is Some,
    ensures
        pending_in(hs, account).len() == with_uid(hs),
        with_uid(hs.take(i)) < with_uid(hs),
        Some(pending_in(hs, account)[with_uid(hs.take(i)) as int]) == pending_of(hs[i], account),
    decreases hs.len(),
{
    let t = hs.drop_last();
    lemma_pending_count(t, account);
    if i == hs.len() - 1 {
        assert(hs.take(i) =~= t);
    } else {
        lemma_pending_place(t, account, i);
        assert(t.take(i) =~= hs.take(i));
        assert(t[i] == hs[i]);
    }
}

proof fn lemma_pending_count(hs: Seq<HeaderReply>, account: Seq<char>)
    ensures
        pending_in(hs, account).len() == with_uid(hs),
    decreases hs.len(),
{
    if hs.len() > 0 {
        lemma_pending_count(hs.drop_last(), account);
    }
}

/// Every header reply with a uid ends in one cached message of the batch, at
/// its place among them, whatever text came meanwhile: from the From address
/// that its bytes give, or "Unknown", to the To address, or the account, with
/// their subject and date, read where the server says seen, in the folder of
/// the batch, and with nothing that only mail composed here has.
pub proof fn a_header_reply_becomes_its_message(
    hs: Seq<HeaderReply>,
    account: Seq<char>,
    rounds: Seq<(Seq<TextReply>, bool)>,
    folder: Seq<char>,
    i: int,
)
    requires
        0 <= i < hs.len(),
        hs[i].uid is Some,
    ensures
        batch_mail(hs, account, rounds, folder).len() == with_uid(hs),
        ({
            let e = batch_mail(hs, account, rounds, folder)[with_uid(hs.take(i)) as int];
            let seen = match hs[i].header {
                Some(b) => if b@.len() <= i32::MAX && !has_least(b@) {
                    parsed_headers(b@)
                } else {
                    None
                },
                None => None,
            };
            &&& e.uid == hs[i].uid
            &&& e.read == hs[i].seen
            &&& e.folder == folder
            &&& seen matches Some(s) ==> e.from == person_text(s.0, "Unknown"@) && e.to
                == person_text(s.1, account) && e.date == date_text(s.3)
            &&& seen matches Some(s) ==> s.2 matches Some(t) ==> e.subject == t
            &&& seen matches Some(s) ==> s.2 is None ==> e.subject == "(No Subject)"@
            &&& seen is None ==> e.from == "Unknown"@ && e.to == account && e.subject
                == "(No Subject)"@ && e.date == "Unknown"@
            &&& hs[i].structure matches Some(bs) ==> e.remote_attachments
                == crate::structure::attachments_in(crate::structure::leaves(bs, Seq::empty()))
            &&& hs[i].structure is None ==> e.remote_attachments.len() == 0
            &&& e.cc.len() == 0 && e.bcc.len() == 0 && e.attachments.len() == 0
            &&& e.ts is None && e.origin_folder is None && e.id == 0
        }),
{
    let ps = pending_in(hs, account);
    let k = with_uid(hs.take(i)) as int;
    lemma_pending_place(hs, account, i);
    lemma_texts_change_bodies(ps, rounds);
    assert(same_but_body(ps[k], after_texts(ps, rounds)[k]));
}

/// A text reply gives its bytes' text to the message with its uid, and leaves
/// every other message of the batch, and all else of that one, as it was.
pub proof fn a_text_reply_reaches_its_message_alone(
    ps: Seq<PendingView>,
    reply: TextReply,
    whole: bool,
    k: int,
)
    requires
        0 <= k < ps.len(),
        forall|i: int, j: int|
            0 <= i < j < ps.len() ==> (#[trigger] ps[i]).uid != (#[trigger] ps[j]).uid,
    ensures
        with_reply(ps, reply, whole).len() == ps.len(),
        reply.uid != Some(ps[k].uid) || reply.bytes is None ==> with_reply(ps, reply, whole)[k]
            == ps[k],
        reply.uid == Some(ps[k].uid) && reply.bytes is Some && whole ==> with_reply(
            ps,
            reply,
            whole,
        )[k].body == crate::message::body_or_empty(crate::message::whole_mail(reply.bytes->0@)),
        reply.uid == Some(ps[k].uid) && reply.bytes is Some && !whole && ps[k].part is Some
            ==> with_reply(ps, reply, whole)[k].body == crate::message::body_or_empty(
            part_mail(ps[k].part->0, reply.bytes->0@),
        ),
        reply.uid == Some(ps[k].uid) && !whole && ps[k].part is None ==> with_reply(
            ps,
            reply,
            whole,
        )[k] == ps[k],
        ({
            let after = with_reply(ps, reply, whole)[k];
            &&& after.uid == ps[k].uid
            &&& after.read == ps[k].read
            &&& after.headers == ps[k].headers
            &&& after.part == ps[k].part
            &&& after.remote == ps[k].remote
        }),
{
    match reply.uid {
        Some(uid) => {
            lemma_pending_at(ps, uid);
        },
        None => {},
    }
}

// ---------------------------------------------------------------------------
// The header a part is decoded under

/// Where a part's structure gives a charset, the header it is decoded under
/// declares that very charset, and utf-8 only where it gives none; it declares
/// the part's own subtype and transfer encoding.
pub proof fn a_part_is_declared_as_it_is(p: TextPartView)
    ensures
        p.charset matches Some(c) ==> holds_text(part_header(p), "charset=\""@ + c + "\""@),
        p.charset is None ==> holds_text(part_header(p), "charset=\""@ + "utf-8"@ + "\""@),
        holds_text(part_header(p), "Content-Type: text/"@ + p.subtype + ";"@),
        holds_text(part_header(p), "\r\nContent-Transfer-Encoding: "@ + p.encoding + "\r\n\r\n"@),
{
    reveal_strlit("MIME-Version: 1.0\r\nContent-Type: text/");
    reveal_strlit("MIME-Version: 1.0\r\n");
    reveal_strlit("Content-Type: text/");
    reveal_strlit("; charset=\"");
    reveal_strlit("; ");
    reveal_strlit(";");
    reveal_strlit(" charset=\"");
    reveal_strlit("\"\r\nContent-Transfer-Encoding: ");
    reveal_strlit("\r\nContent-Transfer-Encoding: ");
    reveal_strlit("\"");
    reveal_strlit("\r\n\r\n");
    reveal_strlit("charset=\"");
    let h = part_header(p);
    let c = match p.charset {
        Some(c) => c,
        None => "utf-8"@,
    };
    let tail = "\r\nContent-Transfer-Encoding: "@ + p.encoding + "\r\n\r\n"@;
    let head = "MIME-Version: 1.0\r\nContent-Type: text/"@ + p.subtype;
    assert(h =~= (head + "; "@) + ("charset=\""@ + c + "\""@) + tail);
    lemma_holds(h, head + "; "@, "charset=\""@ + c + "\""@, tail);
    let rest = " charset=\""@ + c + "\""@ + tail;
    assert(h =~= "MIME-Version: 1.0\r\n"@ + ("Content-Type: text/"@ + p.subtype + ";"@) + rest);
    lemma_holds(h, "MIME-Version: 1.0\r\n"@, "Content-Type: text/"@ + p.subtype + ";"@, rest);
    let front = head + "; charset=\""@ + c + "\""@;
    assert(h =~= front + tail + Seq::empty());
    lemma_holds(h, front, tail, Seq::empty());
}

/// Parts that differ in their charset alone are decoded under different
/// headers; one without a charset is decoded as utf-8 is.
pub proof fn charsets_tell_parts_apart(p: TextPartView, c: Seq<char>, d: Seq<char>)
    ensures
        ({
            let with = |x: Option<Seq<char>>| part_header(TextPartView { charset: x, ..p });
            &&& c != d ==> with(Some(c)) != with(Some(d))
            &&& with(None) == with(Some("utf-8"@))
            &&& c != "utf-8"@ ==> with(Some(c)) != with(None)
        }),
{
    lemma_headers_differ(p, c, d);
    lemma_headers_differ(p, c, "utf-8"@);
}

proof fn lemma_headers_differ(p: TextPartView, c: Seq<char>, d: Seq<char>)
    ensures
        part_header(TextPartView { charset: Some(c), ..p }) == part_header(
            TextPartView { charset: Some(d), ..p },
        ) ==> c == d,
{
    let h = part_header(TextPartView { charset: Some(c), ..p });
    let k = part_header(TextPartView { charset: Some(d), ..p });
    let front = "MIME-Version: 1.0\r\nContent-Type: text/"@ + p.subtype + "; charset=\""@;
    let tail = "\"\r\nContent-Transfer-Encoding: "@ + p.encoding + "\r\n\r\n"@;
    assert(h =~= front + c + tail);
    assert(k =~= front + d + tail);
    if h == k {
        assert(c.len() == d.len());
        assert(c =~= h.subrange(front.len() as int, (front.len() + c.len()) as int));
        assert(d =~= k.subrange(front.len() as int, (front.len() + d.len()) as int));
    }
}

/// A part whose description breaks no line is read as the parser reads its
/// bytes behind a header that declares its charset and its encoding.
pub proof fn a_part_is_read_under_its_own_header(p: TextPartView, bytes: Seq<u8>)
    requires
        one_line(p.subtype),
        one_line(p.encoding),
        p.charset matches Some(c) ==> one_line(c),
    ensures
        exists|h: Seq<char>|
            {
                let raw = #[trigger] encode_utf8(h) + bytes;
                &&& holds_text(h, "Content-Type: text/"@ + p.subtype + ";"@)
                &&& p.charset matches Some(c) ==> holds_text(h, "charset=\""@ + c + "\""@)
                &&& p.charset is None ==> holds_text(h, "charset=\""@ + "utf-8"@ + "\""@)
                &&& holds_text(
                    h,
                    "\r\nContent-Transfer-Encoding: "@ + p.encoding + "\r\n\r\n"@,
                )
                &&& raw.len() <= i32::MAX ==> match parsed_contents(raw) {
                    Some(read) => part_mail(p, bytes) matches Some(m) && m.text == read.0 && m.html
                        == read.1 && m.attachment == read.2,
                    None => part_mail(p, bytes) is None,
                }
            },
{
    a_part_is_declared_as_it_is(p);
    let h = part_header(p);
    assert(encode_utf8(h) == encode_utf8(h));
}

// ---------------------------------------------------------------------------
// The text that is shown

/// The text of a message shows, not its HTML: whole, without white space
/// behind it, where it is within the cap; else its beginning and an ellipsis.
pub proof fn the_text_is_shown(m: MailView, t: Seq<char>)
    requires
        m.text == Some(t),
    ensures
        t.len() <= 1200 && (t.len() == 0 || !is_space(t.last())) ==> body_shown(m) == t,
        t.len() > 1200 && !is_space(t.last()) ==> body_shown(m) == t.take(1200) + "..."@,
        t.len() > 0 && is_space(t.last()) ==> body_shown(m) == body_shown(
            MailView { text: Some(t.drop_last()), ..m },
        ),
{
}

/// A message without a text shows what its HTML says, as that text would show;
/// one without either shows nothing.
pub proof fn html_shows_where_there_is_no_text(m: MailView)
    requires
        m.text is None,
    ensures
        m.html matches Some(h) ==> body_shown(m) == body_shown(
            MailView { text: Some(html_text(h)), ..m },
        ),
        m.html is None ==> body_shown(m).len() == 0,
{
}

proof fn lemma_untagged_plain(s: Seq<char>)
    requires
        forall|i: int| 0 <= i < s.len() ==> s[i] != '<' && s[i] != '>',
    ensures
        untagged(s) == s,
        !in_tag(s),
    decreases s.len(),
{
    if s.len() > 0 {
        lemma_untagged_plain(s.drop_last());
        assert(s.drop_last().push(s.last()) =~= s);
    }
}

proof fn lemma_untagged_tail(a: Seq<char>, b: Seq<char>)
    requires
        !in_tag(a),
    ensures
        untagged(a + b) == untagged(a) + untagged(b),
        in_tag(a + b) == in_tag(b),
    decreases b.len(),
{
    if b.len() == 0 {
        assert(a + b =~= a);
        assert(untagged(a) + untagged(b) =~= untagged(a));
    } else {
        lemma_untagged_tail(a, b.drop_last());
        assert((a + b).drop_last() =~= a + b.drop_last());
        assert((a + b).last() == b.last());
        assert(untagged(a) + untagged(b) =~= if b.last() == '<' || b.last() == '>' || in_tag(
            b.drop_last(),
        ) {
            untagged(a) + untagged(b.drop_last())
        } else {
            (untagged(a) + untagged(b.drop_last())).push(b.last())
        });
    }
}

proof fn lemma_open_tag(tag: Seq<char>)
    requires
        forall|i: int| 0 <= i < tag.len() ==> tag[i] != '<' && tag[i] != '>',
    ensures
        in_tag(seq!['<'] + tag),
        untagged(seq!['<'] + tag).len() == 0,
    decreases tag.len(),
{
    let s = seq!['<'] + tag;
    if tag.len() == 0 {
        assert(s.drop_last() =~= Seq::empty());
        assert(s.last() == '<');
        assert(untagged(s.drop_last()).len() == 0);
    } else {
        lemma_open_tag(tag.drop_last());
        assert(s.drop_last() =~= seq!['<'] + tag.drop_last());
        assert(s.last() == tag.last());
    }
}

/// Text without angle brackets is left alone, and a tag is taken out of it,
/// whatever follows.
pub proof fn a_tag_is_taken_out(a: Seq<char>, tag: Seq<char>, b: Seq<char>)
    requires
        forall|i: int| 0 <= i < a.len() ==> a[i] != '<' && a[i] != '>',
        forall|i: int| 0 <= i < tag.len() ==> tag[i] != '<' && tag[i] != '>',
    ensures
        untagged(a) == a,
        untagged(a + (seq!['<'] + tag + seq!['>']) + b) == a + untagged(b),
{
    lemma_untagged_plain(a);
    lemma_open_tag(tag);
    let t = seq!['<'] + tag + seq!['>'];
    assert(t.drop_last() =~= seq!['<'] + tag);
    assert(!in_tag(t));
    assert(untagged(t) =~= Seq::empty());
    lemma_untagged_tail(t, b);
    lemma_untagged_tail(a, t + b);
    assert(a + t + b =~= a + (t + b));
    assert(untagged(t) + untagged(b) =~= untagged(b));
}

pub proof fn lemma_replace_absent(s: Seq<char>, p: Seq<char>, by: Seq<char>)
    requires
        p.len() > 0,
        forall|i: int| 0 <= i < s.len() ==> s[i] != p[0],
    ensures
        replace(s, p, by) == s,
    decreases s.len(),
{
    if s.len() > 0 {
        assert(!part_at(s, p, 0)) by {
            if part_at(s, p, 0) {
                assert(s.subrange(0, p.len() as int)[0] == p[0]);
            }
        }
        lemma_replace_absent(s.drop_first(), p, by);
        assert(seq![s[0]] + s.drop_first() =~= s);
    }
}

/// Nothing before `b` begins the pattern, and `b` does not start with it.
proof fn lemma_replace_skip(a: Seq<char>, b: Seq<char>, p: Seq<char>, by: Seq<char>)
    requires
        p.len() > 0,
        forall|i: int| 0 <= i < a.len() ==> a[i] != p[0],
    ensures
        replace(a + b, p, by) == a + replace(b, p, by),
    decreases a.len(),
{
    let s = a + b;
    if a.len() == 0 {
        assert(s =~= b);
        assert(a + replace(b, p, by) =~= replace(b, p, by));
    } else {
        assert(!part_at(s, p, 0)) by {
            if part_at(s, p, 0) {
                assert(s.subrange(0, p.len() as int)[0] == p[0]);
            }
        }
        lemma_replace_skip(a.drop_first(), b, p, by);
        assert(s.drop_first() =~= a.drop_first() + b);
        assert(seq![a[0]] + (a.drop_first() + replace(b, p, by)) =~= a + replace(b, p, by));
    }
}

/// Every occurrence of a pattern in a text without its first character
/// elsewhere gives way to its replacement.
pub proof fn an_occurrence_is_replaced(a: Seq<char>, p: Seq<char>, b: Seq<char>, by: Seq<char>)
    requires
        p.len() > 0,
        forall|i: int| 0 <= i < a.len() ==> a[i] != p[0],
    ensures
        replace(a + p + b, p, by) == a + by + replace(b, p, by),
{
    assert(a + p + b =~= a + (p + b));
    lemma_replace_skip(a, p + b, p, by);
    assert((p + b).subrange(0, p.len() as int) =~= p);
    assert((p + b).skip(p.len() as int) =~= b);
    assert(part_at(p + b, p, 0));
    assert(a + (by + replace(b, p, by)) =~= a + by + replace(b, p, by));
}

/// An entity is decoded to its character wherever it stands alone in a text,
/// and a text without an ampersand is left alone.
pub proof fn entities_give_their_characters(a: Seq<char>, b: Seq<char>)
    requires
        forall|i: int| 0 <= i < a.len() ==> a[i] != '&',
        forall|i: int| 0 <= i < b.len() ==> b[i] != '&',
    ensures
        entities_decoded(a) == a,
        entities_decoded(a + "&lt;"@ + b) == a + "<"@ + b,
        entities_decoded(a + "&gt;"@ + b) == a + ">"@ + b,
        entities_decoded(a + "&quot;"@ + b) == a + "\""@ + b,
        entities_decoded(a + "&#39;"@ + b) == a + "'"@ + b,
        entities_decoded(a + "&nbsp;"@ + b) == a + " "@ + b,
        b.len() > 0 && b[0] == ' ' ==> entities_decoded(a + "&amp;"@ + b) == a + "&"@ + b,
{
    lemma_entities_plain(a);
    reveal_strlit("&nbsp;");
    reveal_strlit("&amp;");
    reveal_strlit("&lt;");
    reveal_strlit("&gt;");
    reveal_strlit("&quot;");
    reveal_strlit("&#39;");
    reveal_strlit(" ");
    reveal_strlit("&");
    reveal_strlit("<");
    reveal_strlit(">");
    reveal_strlit("\"");
    reveal_strlit("'");
    lemma_entity_alone(a, "&lt;"@, b, "<"@);
    lemma_entity_alone(a, "&gt;"@, b, ">"@);
    lemma_entity_alone(a, "&quot;"@, b, "\""@);
    lemma_entity_alone(a, "&#39;"@, b, "'"@);
    lemma_entity_alone(a, "&nbsp;"@, b, " "@);
    if b.len() > 0 && b[0] == ' ' {
        lemma_entity_alone(a, "&amp;"@, b, "&"@);
    }
}

proof fn lemma_entities_plain(s: Seq<char>)
    requires
        forall|i: int| 0 <= i < s.len() ==> s[i] != '&',
    ensures
        entities_decoded(s) == s,
{
    reveal_strlit("&nbsp;");
    reveal_strlit("&amp;");
    reveal_strlit("&lt;");
    reveal_strlit("&gt;");
    reveal_strlit("&quot;");
    reveal_strlit("&#39;");
    lemma_replace_absent(s, "&nbsp;"@, " "@);
    lemma_replace_absent(s, "&amp;"@, "&"@);
    lemma_replace_absent(s, "&lt;"@, "<"@);
    lemma_replace_absent(s, "&gt;"@, ">"@);
    lemma_replace_absent(s, "&quot;"@, "\""@);
    lemma_replace_absent(s, "&#39;"@, "'"@);
}

/// Of the six patterns, one that differs from `e` leaves a text alone whose
/// only ampersand begins `e`.
proof fn lemma_other_entity(a: Seq<char>, e: Seq<char>, b: Seq<char>, p: Seq<char>, by: Seq<char>)
    requires
        forall|i: int| 0 <= i < a.len() ==> a[i] != '&',
        forall|i: int| 0 <= i < b.len() ==> b[i] != '&',
        e.len() > 0,
        e[0] == '&',
        forall|i: int| 1 <= i < e.len() ==> e[i] != '&',
        p.len() > 1,
        p[0] == '&',
        !part_at(e + b, p, 0),
    ensures
        replace(a + e + b, p, by) == a + e + b,
{
    let rest = e.drop_first() + b;
    assert(a + e + b =~= a + (e + b));
    lemma_replace_skip(a, e + b, p, by);
    assert((e + b).drop_first() =~= rest);
    assert forall|i: int| 0 <= i < rest.len() implies rest[i] != p[0] by {
        if i < e.len() - 1 {
            assert(rest[i] == e[i + 1]);
        } else {
            assert(rest[i] == b[i - (e.len() - 1)]);
        }
    }
    lemma_replace_absent(rest, p, by);
    assert(seq![(e + b)[0]] + rest =~= e + b);
}

proof fn lemma_entity_replaced(a: Seq<char>, e: Seq<char>, b: Seq<char>, by: Seq<char>)
    requires
        forall|i: int| 0 <= i < a.len() ==> a[i] != '&',
        forall|i: int| 0 <= i < b.len() ==> b[i] != '&',
        e.len() > 0,
        e[0] == '&',
    ensures
        replace(a + e + b, e, by) == a + by + b,
{
    an_occurrence_is_replaced(a, e, b, by);
    lemma_replace_absent(b, e, by);
}

proof fn lemma_not_at(s: Seq<char>, p: Seq<char>, i: int)
    requires
        0 <= i < p.len(),
        i >= s.len() || s[i] != p[i],
    ensures
        !part_at(s, p, 0),
{
    if part_at(s, p, 0) {
        assert(s.subrange(0, p.len() as int)[i] == p[i]);
    }
}

/// A text without ampersands, `c` between two halves.
proof fn lemma_no_amp(a: Seq<char>, c: Seq<char>, b: Seq<char>)
    requires
        forall|i: int| 0 <= i < a.len() ==> a[i] != '&',
        forall|i: int| 0 <= i < b.len() ==> b[i] != '&',
        c.len() == 1,
        c[0] != '&',
    ensures
        forall|i: int| 0 <= i < (a + c + b).len() ==> (a + c + b)[i] != '&',
{
    assert forall|i: int| 0 <= i < (a + c + b).len() implies (a + c + b)[i] != '&' by {
        if i < a.len() {
        } else if i == a.len() {
        } else {
            assert((a + c + b)[i] == b[i - a.len() - 1]);
        }
    }
}

proof fn lemma_entity_alone(a: Seq<char>, e: Seq<char>, b: Seq<char>, by: Seq<char>)
    requires
        forall|i: int| 0 <= i < a.len() ==> a[i] != '&',
        forall|i: int| 0 <= i < b.len() ==> b[i] != '&',
        (e == "&lt;"@ && by == "<"@) || (e == "&gt;"@ && by == ">"@) || (e == "&quot;"@ && by
            == "\""@) || (e == "&#39;"@ && by == "'"@) || (e == "&nbsp;"@ && by == " "@) || (e
            == "&amp;"@ && by == "&"@ && b.len() > 0 && b[0] == ' '),
    ensures
        entities_decoded(a + e + b) == a + by + b,
{
    reveal_strlit("&nbsp;");
    reveal_strlit("&amp;");
    reveal_strlit("&lt;");
    reveal_strlit("&gt;");
    reveal_strlit("&quot;");
    reveal_strlit("&#39;");
    reveal_strlit(" ");
    reveal_strlit("&");
    reveal_strlit("<");
    reveal_strlit(">");
    reveal_strlit("\"");
    reveal_strlit("'");
    let out = a + by + b;
    let s = a + e + b;
    let s1 = replace(s, "&nbsp;"@, " "@);
    let s2 = replace(s1, "&amp;"@, "&"@);
    let s3 = replace(s2, "&lt;"@, "<"@);
    let s4 = replace(s3, "&gt;"@, ">"@);
    let s5 = replace(s4, "&quot;"@, "\""@);
    let s6 = replace(s5, "&#39;"@, "'"@);
    assert(entities_decoded(s) == s6);
    lemma_entity_replaced(a, e, b, by);
    if e != "&nbsp;"@ {
        lemma_not_at(e + b, "&nbsp;"@, 1);
        lemma_other_entity(a, e, b, "&nbsp;"@, " "@);
    }
    if e == "&nbsp;"@ {
        lemma_no_amp(a, by, b);
        lemma_entities_plain(out);
        lemma_replace_absent(out, "&nbsp;"@, " "@);
        assert(entities_decoded(s) == out) by {
            lemma_replace_absent(out, "&amp;"@, "&"@);
            lemma_replace_absent(out, "&lt;"@, "<"@);
            lemma_replace_absent(out, "&gt;"@, ">"@);
            lemma_replace_absent(out, "&quot;"@, "\""@);
            lemma_replace_absent(out, "&#39;"@, "'"@);
        }
    } else if e == "&amp;"@ {
        assert("&amp;"@[1] == 'a' && "&lt;"@[1] == 'l' && "&gt;"@[1] == 'g' && "&quot;"@[1] == 'q'
            && "&#39;"@[1] == '#');
        assert(b[0] == ' ');
        assert(("&"@ + b)[1] == ' ');
        lemma_not_at("&"@ + b, "&lt;"@, 1);
        lemma_not_at("&"@ + b, "&gt;"@, 1);
        lemma_not_at("&"@ + b, "&quot;"@, 1);
        lemma_not_at("&"@ + b, "&#39;"@, 1);
        lemma_other_entity(a, "&"@, b, "&lt;"@, "<"@);
        lemma_other_entity(a, "&"@, b, "&gt;"@, ">"@);
        lemma_other_entity(a, "&"@, b, "&quot;"@, "\""@);
        lemma_other_entity(a, "&"@, b, "&#39;"@, "'"@);
        assert(s1 == s && s2 == out && s3 == out && s4 == out && s5 == out && s6 == out);
    } else {
        lemma_no_amp(a, by, b);
        lemma_not_at(e + b, "&amp;"@, 1);
        lemma_other_entity(a, e, b, "&amp;"@, "&"@);
        lemma_replace_absent(out, "&gt;"@, ">"@);
        lemma_replace_absent(out, "&quot;"@, "\""@);
        lemma_replace_absent(out, "&#39;"@, "'"@);
        if e != "&lt;"@ {
            lemma_not_at(e + b, "&lt;"@, 1);
            lemma_other_entity(a, e, b, "&lt;"@, "<"@);
            if e != "&gt;"@ {
                lemma_not_at(e + b, "&gt;"@, 1);
                lemma_other_entity(a, e, b, "&gt;"@, ">"@);
                if e != "&quot;"@ {
                    lemma_not_at(e + b, "&quot;"@, 1);
                    lemma_other_entity(a, e, b, "&quot;"@, "\""@);
                    assert(s5 == s && s6 == out);
                } else {
                    assert(s4 == s && s5 == out && s6 == out);
                }
            } else {
                assert(s3 == s && s4 == out && s5 == out && s6 == out);
            }
        } else {
            assert(s2 == s && s3 == out && s4 == out && s5 == out && s6 == out);
        }
    }
}

// ---------------------------------------------------------------------------
// Dates

/// A month shows as the three letters that stand for it in a year's list of
/// them, and no other number as a month.
pub proof fn months_show_in_order(m: u8)
    ensures
        1 <= m <= 12 ==> month_name(m) == "JanFebMarAprMayJunJulAugSepOctNovDec"@.subrange(
            3 * (m - 1),
            3 * m,
        ),
        !(1 <= m <= 12) ==> month_name(m) == "?"@,
{
    reveal_strlit("JanFebMarAprMayJunJulAugSepOctNovDec");
    reveal_strlit("Jan");
    reveal_strlit("Feb");
    reveal_strlit("Mar");
    reveal_strlit("Apr");
    reveal_strlit("May");
    reveal_strlit("Jun");
    reveal_strlit("Jul");
    reveal_strlit("Aug");
    reveal_strlit("Sep");
    reveal_strlit("Oct");
    reveal_strlit("Nov");
    reveal_strlit("Dec");
    if 1 <= m <= 12 {
        let year = "JanFebMarAprMayJunJulAugSepOctNovDec"@;
        assert(month_name(m) =~= year.subrange(3 * (m - 1), 3 * m));
    }
}

/// A date shows month, day, and the time of day in two digits each; one that
/// is missing shows as unknown.
pub proof fn a_date_shows_its_parts(d: MailDate)
    requires
        1 <= d.month <= 12,
        d.day < 100,
        d.hour < 100,
        d.minute < 100,
    ensures
        ({
            let t = date_text(Some(d));
            let n = t.len() as int;
            &&& t.take(3) == month_name(d.month)
            &&& t[3] == ' '
            &&& value(t.subrange(4, n - 6)) == d.day
            &&& t[n - 6] == ' '
            &&& value(t.subrange(n - 5, n - 3)) == d.hour
            &&& t[n - 3] == ':'
            &&& value(t.subrange(n - 2, n)) == d.minute
        }),
        date_text(None) == "Unknown"@,
{
    reveal_strlit(" ");
    reveal_strlit(":");
    months_show_in_order(d.month);
    reveal_strlit("JanFebMarAprMayJunJulAugSepOctNovDec");
    let t = date_text(Some(d));
    let day = decimal(d.day as nat);
    let hour = padded(d.hour as nat);
    let minute = padded(d.minute as nat);
    lemma_two_digits(d.hour as nat);
    lemma_two_digits(d.minute as nat);
    decimal_reads_back(d.day as nat, 255);
    let n = t.len() as int;
    assert(month_name(d.month).len() == 3);
    assert(t.take(3) =~= month_name(d.month));
    assert(t.subrange(4, n - 6) =~= day);
    assert(t.subrange(n - 5, n - 3) =~= hour);
    assert(t.subrange(n - 2, n) =~= minute);
}

/// A number below a hundred takes two digits.
pub proof fn lemma_two_digits(n: nat)
    requires
        n < 100,
    ensures
        padded(n).len() == 2,
        value(padded(n)) == n,
{
    reveal_with_fuel(decimal, 2);
    reveal_with_fuel(value, 3);
    let s = padded(n);
    assert(s.len() == 2);
    assert(s.drop_last().drop_last().len() == 0);
    assert(s.drop_last().last() == s[0]);
}

} // verus!
