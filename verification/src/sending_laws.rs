//! What holds of every mail that is composed from a link or sent.

use vstd::prelude::*;
use vstd::utf8::{decode_utf8, encode_utf8, valid_utf8};
use crate::mailto::{
    address_list, after_scheme, fields_of, is_hex, key_value, mailto_prefill, nonblank,
    percent_decoded, unescaped, with_pair, with_pairs, Fields,
};
use crate::model::OutgoingView;
use crate::outgoing::{
    attachment_part, attachment_problem, body_problem, cc_header, cc_value, content_type_of,
    encoded_body, first_invalid, from_header, header_in, is_outgoing, keeps_fields, mailbox_of,
    message_from, message_headers, message_parts, message_to, multipart_problem, outgoing_delivery,
    outgoing_headers, outgoing_problem, parsed_list, parts_up_to, plain_part, sent_name, to_header,
    to_value, FileContents, ParsedAddressView,
};
use crate::scan::{join, lemma_until_is, split, split_once, trim};
use crate::text::{is_space, lower};
use crate::text_laws::{
    a_file_name_follows_the_last_slash, an_extension_follows_the_last_dot, joining_undoes_splitting,
    lemma_split_none, lemma_trim_none, splitting_is_piecewise, trimming_takes_outer_space_alone,
};

verus! {

// ---------------------------------------------------------------------------
// The body

proof fn lemma_parts(mail: OutgoingView, files: Seq<FileContents>, n: nat)
    requires
        n <= mail.attachments.len(),
    ensures
        parts_up_to(mail, files, n).len() == n + 1,
        parts_up_to(mail, files, n)[0] == plain_part(mail.body),
        forall|i: int|
            0 <= i < n ==> #[trigger] parts_up_to(mail, files, n)[i + 1] == attachment_part(
                sent_name(mail.attachments[i]),
                content_type_of(mail.attachments[i]),
                files[i]->Ok_0@,
            ),
    decreases n,
{
    if n > 0 {
        lemma_parts(mail, files, (n - 1) as nat);
        let before = parts_up_to(mail, files, (n - 1) as nat);
        let all = parts_up_to(mail, files, n);
        assert forall|i: int| 0 <= i < n implies #[trigger] all[i + 1] == attachment_part(
            sent_name(mail.attachments[i]),
            content_type_of(mail.attachments[i]),
            files[i]->Ok_0@,
        ) by {
            if i < n - 1 {
                assert(all[i + 1] == before[i + 1]);
            }
        }
    }
}

/// A mail that is built holds the body that was written: as its only text, or,
/// with attachments, as the first of its parts, followed by one part for each
/// attachment, in order, with that file's contents.
pub proof fn a_mail_carries_its_body_and_attachments(
    m: lettre::Message,
    from: Seq<char>,
    mail: OutgoingView,
    files: Seq<FileContents>,
    i: int,
)
    requires
        is_outgoing(m, from, mail, files),
    ensures
        mail.attachments.len() == 0 ==> message_parts(m) == seq![encoded_body(mail.body)],
        mail.attachments.len() > 0 ==> message_parts(m).len() == mail.attachments.len() + 1
            && message_parts(m)[0] == plain_part(mail.body),
        0 <= i < mail.attachments.len() ==> message_parts(m)[i + 1] == attachment_part(
            sent_name(mail.attachments[i]),
            content_type_of(mail.attachments[i]),
            files[i]->Ok_0@,
        ),
{
    lemma_parts(mail, files, mail.attachments.len());
}

/// An attachment is sent under the name of its file, wherever that lies, and
/// under a plain name where its path has none.
pub proof fn an_attachment_keeps_its_file_name(dir: Seq<char>, name: Seq<char>)
    requires
        name.len() > 0,
        name != seq!['.'],
        name != seq!['.', '.'],
        forall|i: int| 0 <= i < name.len() ==> name[i] != '/',
    ensures
        sent_name(name) == name,
        sent_name(dir + seq!['/'] + name) == name,
        sent_name(seq!['/']) == "attachment"@,
{
    a_file_name_follows_the_last_slash(dir, name);
    let root = seq!['/'];
    assert(root.skip(1) =~= Seq::empty());
    assert(root.take(0) =~= Seq::empty());
    assert(crate::scan::last_index(root, '/') == Some(0int));
    reveal_with_fuel(crate::path::file_name, 2);
}

/// The type of an attachment goes by the extension of its file, in whatever
/// case; one that is not known is just to be downloaded.
pub proof fn a_type_goes_by_the_extension(dir: Seq<char>, stem: Seq<char>, ext: Seq<char>)
    requires
        stem.len() > 0,
        forall|i: int| 0 <= i < stem.len() ==> stem[i] != '/',
        ext.len() > 0,
        forall|i: int| 0 <= i < ext.len() ==> ext[i] != '/' && ext[i] != '.',
    ensures
        ({
            let e = lower(ext);
            let t = content_type_of(dir + seq!['/'] + (stem + seq!['.'] + ext));
            &&& content_type_of(stem + seq!['.'] + ext) == t
            &&& e == "png"@ ==> t == "image/png"@
            &&& e == "jpg"@ || e == "jpeg"@ ==> t == "image/jpeg"@
            &&& e == "gif"@ ==> t == "image/gif"@
            &&& e == "webp"@ ==> t == "image/webp"@
            &&& e == "svg"@ ==> t == "image/svg+xml"@
            &&& e == "pdf"@ ==> t == "application/pdf"@
            &&& e == "txt"@ || e == "md"@ || e == "log"@ ==> t == "text/plain"@
            &&& e == "html"@ || e == "htm"@ ==> t == "text/html"@
            &&& e == "json"@ ==> t == "application/json"@
            &&& e == "zip"@ ==> t == "application/zip"@
            &&& e == "gz"@ || e == "tgz"@ ==> t == "application/gzip"@
            &&& !(e == "png"@ || e == "jpg"@ || e == "jpeg"@ || e == "gif"@ || e == "webp"@ || e
                == "svg"@ || e == "pdf"@ || e == "txt"@ || e == "md"@ || e == "log"@ || e
                == "html"@ || e == "htm"@ || e == "json"@ || e == "zip"@ || e == "gz"@ || e
                == "tgz"@) ==> t == "application/octet-stream"@
        }),
{
    an_extension_follows_the_last_dot(dir, stem, ext);
    reveal_strlit("png");
    reveal_strlit("jpg");
    reveal_strlit("jpeg");
    reveal_strlit("gif");
    reveal_strlit("webp");
    reveal_strlit("svg");
    reveal_strlit("pdf");
    reveal_strlit("txt");
    reveal_strlit("md");
    reveal_strlit("log");
    reveal_strlit("html");
    reveal_strlit("htm");
    reveal_strlit("json");
    reveal_strlit("zip");
    reveal_strlit("gz");
    reveal_strlit("tgz");
    let e = lower(ext);
    assert(e.len() > 0);
    assert("png"@[0] == 'p' && "png"@[1] == 'n');
    assert("pdf"@[1] == 'd');
    assert("jpg"@[0] == 'j');
    assert("gif"@[0] == 'g' && "gz"@.len() == 2 && "md"@[0] == 'm');
    assert("svg"@[0] == 's');
    assert("txt"@[0] == 't' && "txt"@[1] == 'x' && "tgz"@[1] == 'g');
    assert("log"@[0] == 'l' && "htm"@[0] == 'h' && "zip"@[0] == 'z');
    assert("jpeg"@[1] == 'p' && "json"@[1] == 's' && "webp"@[0] == 'w' && "html"@[0] == 'h');
}

// ---------------------------------------------------------------------------
// Sender and recipients

proof fn lemma_all_valid(label: Seq<char>, ts: Seq<Seq<char>>)
    ensures
        first_invalid(label, parsed_list(ts)) is None <==> forall|i: int|
            0 <= i < ts.len() ==> mailbox_of(#[trigger] ts[i]) is Ok,
    decreases ts.len(),
{
    if ts.len() > 0 {
        let t = ts.drop_first();
        lemma_all_valid(label, t);
        assert(parsed_list(ts).drop_first() =~= parsed_list(t));
        assert(parsed_list(ts)[0].result == mailbox_of(ts[0]));
        assert forall|i: int| 0 <= i < t.len() implies #[trigger] t[i] == ts[i + 1] by {}
        if first_invalid(label, parsed_list(ts)) is None {
            assert forall|i: int| 0 <= i < ts.len() implies mailbox_of(#[trigger] ts[i]) is Ok by {
                if i > 0 {
                    assert(t[i - 1] == ts[i]);
                    assert(mailbox_of(t[i - 1]) is Ok);
                }
            }
        }
        if forall|i: int| 0 <= i < ts.len() ==> mailbox_of(#[trigger] ts[i]) is Ok {
            assert(mailbox_of(ts[0]) is Ok);
            assert forall|i: int| 0 <= i < t.len() implies mailbox_of(#[trigger] t[i]) is Ok by {
                assert(mailbox_of(ts[i + 1]) is Ok);
            }
        }
    }
}

/// A mail is delivered for its sender to every address of To, then Cc, then
/// Bcc, and to nobody else.
pub proof fn a_mail_goes_to_everyone_named(
    m: lettre::Message,
    from: Seq<char>,
    mail: OutgoingView,
    files: Seq<FileContents>,
    i: int,
)
    requires
        is_outgoing(m, from, mail, files),
    ensures
        ({
            let to = address_list(mail.to);
            let cc = address_list(mail.cc);
            let bcc = address_list(mail.bcc);
            let all = message_to(m);
            &&& all.len() == to.len() + cc.len() + bcc.len()
            &&& all.len() > 0
            &&& 0 <= i < to.len() ==> (mailbox_of(to[i]) matches Ok(b) && all[i] == b.address)
            &&& 0 <= i < cc.len() ==> (mailbox_of(cc[i]) matches Ok(b) && all[to.len() + i]
                == b.address)
            &&& 0 <= i < bcc.len() ==> (mailbox_of(bcc[i]) matches Ok(b) && all[to.len() + cc.len()
                + i] == b.address)
            &&& mailbox_of(from) matches Ok(b) && message_from(m) == Some(b.address)
        }),
{
    let to = address_list(mail.to);
    let cc = address_list(mail.cc);
    let bcc = address_list(mail.bcc);
    lemma_all_valid("To"@, to);
    lemma_all_valid("Cc"@, cc);
    lemma_all_valid("Bcc"@, bcc);
    assert(outgoing_delivery(from, mail) is Ok);
}

/// The values the To header takes as mailboxes are added to it, from none on.
pub open spec fn to_grows(steps: Seq<Option<Seq<char>>>, list: Seq<Seq<char>>) -> bool {
    &&& steps.len() == list.len() + 1
    &&& steps[0] is None
    &&& forall|i: int|
        0 <= i < list.len() ==> #[trigger] steps[i + 1] == Some(to_header(steps[i], list[i]))
}

/// The values the Cc header takes as mailboxes are added to it, from none on.
pub open spec fn cc_grows(steps: Seq<Option<Seq<char>>>, list: Seq<Seq<char>>) -> bool {
    &&& steps.len() == list.len() + 1
    &&& steps[0] is None
    &&& forall|i: int|
        0 <= i < list.len() ==> #[trigger] steps[i + 1] == Some(cc_header(steps[i], list[i]))
}

proof fn lemma_to_steps(list: Seq<Seq<char>>) -> (steps: Seq<Option<Seq<char>>>)
    ensures
        to_grows(steps, list),
        steps.last() == to_value(list),
    decreases list.len(),
{
    if list.len() == 0 {
        seq![None]
    } else {
        let before = lemma_to_steps(list.drop_last());
        let all = before.push(to_value(list));
        assert forall|i: int| 0 <= i < list.len() implies #[trigger] all[i + 1] == Some(
            to_header(all[i], list[i]),
        ) by {
            if i < list.len() - 1 {
                assert(before[i + 1] == Some(to_header(before[i], list.drop_last()[i])));
            }
        }
        all
    }
}

proof fn lemma_cc_steps(list: Seq<Seq<char>>) -> (steps: Seq<Option<Seq<char>>>)
    ensures
        cc_grows(steps, list),
        steps.last() == cc_value(list),
    decreases list.len(),
{
    if list.len() == 0 {
        seq![None]
    } else {
        let before = lemma_cc_steps(list.drop_last());
        let all = before.push(cc_value(list));
        assert forall|i: int| 0 <= i < list.len() implies #[trigger] all[i + 1] == Some(
            cc_header(all[i], list[i]),
        ) by {
            if i < list.len() - 1 {
                assert(before[i + 1] == Some(cc_header(before[i], list.drop_last()[i])));
            }
        }
        all
    }
}

/// The headers of a mail name its sender, its subject, every To address under
/// To and every Cc address under Cc, in order, and nobody under Bcc.
pub proof fn headers_name_what_was_written(
    m: lettre::Message,
    from: Seq<char>,
    mail: OutgoingView,
    files: Seq<FileContents>,
)
    requires
        is_outgoing(m, from, mail, files),
    ensures
        header_in(message_headers(m), "From"@) == Some(from_header(from)),
        header_in(message_headers(m), "Subject"@) == Some(mail.subject),
        header_in(message_headers(m), "Bcc"@) is None,
        exists|steps: Seq<Option<Seq<char>>>|
            #[trigger] to_grows(steps, address_list(mail.to)) && header_in(message_headers(m), "To"@) == steps.last(),
        exists|steps: Seq<Option<Seq<char>>>|
            #[trigger] cc_grows(steps, address_list(mail.cc)) && header_in(message_headers(m), "Cc"@) == steps.last(),
{
    reveal_strlit("From");
    reveal_strlit("To");
    reveal_strlit("Cc");
    reveal_strlit("Subject");
    reveal_strlit("Bcc");
    assert("To"@[0] == 'T' && "Cc"@[0] == 'C');
    assert("From"@.len() == 4 && "Subject"@.len() == 7 && "To"@.len() == 2 && "Cc"@.len() == 2);
    assert("Bcc"@.len() == 3);
    let h = outgoing_headers(from, mail);
    assert(keeps_fields(h, message_headers(m)));
    let a = lemma_to_steps(address_list(mail.to));
    let b = lemma_cc_steps(address_list(mail.cc));
    assert(header_in(h, "From"@) == Some(from_header(from)));
    assert(header_in(h, "Subject"@) == Some(mail.subject));
    assert(header_in(h, "To"@) == to_value(address_list(mail.to)));
    assert(header_in(h, "Cc"@) == cc_value(address_list(mail.cc)));
}

/// A mail is refused exactly where its sender or an address of it is none, where
/// it names nobody, where an attachment could not be read or has no proper
/// type, or where the message cannot be built.
pub proof fn a_mail_is_refused_for_a_reason(
    from: Seq<char>,
    mail: OutgoingView,
    files: Seq<FileContents>,
)
    requires
        outgoing_problem(from, mail, files) is None,
    ensures
        mailbox_of(from) is Ok,
        forall|i: int|
            0 <= i < address_list(mail.to).len() ==> mailbox_of(
                #[trigger] address_list(mail.to)[i],
            ) is Ok,
        forall|i: int|
            0 <= i < address_list(mail.cc).len() ==> mailbox_of(
                #[trigger] address_list(mail.cc)[i],
            ) is Ok,
        forall|i: int|
            0 <= i < address_list(mail.bcc).len() ==> mailbox_of(
                #[trigger] address_list(mail.bcc)[i],
            ) is Ok,
        address_list(mail.to).len() + address_list(mail.cc).len() + address_list(mail.bcc).len()
            > 0,
        forall|i: int| 0 <= i < mail.attachments.len() ==> (#[trigger] files[i]) is Ok,
{
    lemma_all_valid("To"@, address_list(mail.to));
    lemma_all_valid("Cc"@, address_list(mail.cc));
    lemma_all_valid("Bcc"@, address_list(mail.bcc));
    lemma_readable(mail.attachments, files, mail.attachments.len());
}

proof fn lemma_readable(paths: Seq<Seq<char>>, files: Seq<FileContents>, n: nat)
    requires
        n <= paths.len(),
        attachment_problem(paths, files, n) is None,
    ensures
        forall|i: int| 0 <= i < n ==> (#[trigger] files[i]) is Ok,
    decreases n,
{
    if n > 0 {
        lemma_readable(paths, files, (n - 1) as nat);
    }
}

proof fn lemma_first_named(label: Seq<char>, ts: Seq<Seq<char>>, k: int)
    requires
        0 <= k < ts.len(),
        mailbox_of(ts[k]) is Err,
        forall|i: int| 0 <= i < k ==> mailbox_of(#[trigger] ts[i]) is Ok,
    ensures
        first_invalid(label, parsed_list(ts)) == Some(
            "Invalid "@ + label + " address "@ + ts[k] + ": "@ + mailbox_of(ts[k])->Err_0,
        ),
    decreases ts.len(),
{
    assert(parsed_list(ts)[0] == (ParsedAddressView { text: ts[0], result: mailbox_of(ts[0]) }));
    if k > 0 {
        let t = ts.drop_first();
        assert(mailbox_of(ts[0]) is Ok);
        assert(parsed_list(ts).drop_first() =~= parsed_list(t));
        assert forall|i: int| 0 <= i < k - 1 implies mailbox_of(#[trigger] t[i]) is Ok by {
            assert(mailbox_of(ts[i + 1]) is Ok);
        }
        lemma_first_named(label, t, k - 1);
    }
}

/// The refusal names the field and the first address of it that is none, To
/// before Cc before Bcc, and says what is wrong with it.
pub proof fn a_bad_address_is_named(
    from: Seq<char>,
    mail: OutgoingView,
    files: Seq<FileContents>,
    k: int,
)
    requires
        mailbox_of(from) is Ok,
    ensures
        ({
            let good = |l: Seq<Seq<char>>, n: int|
                forall|i: int| 0 <= i < n ==> mailbox_of(#[trigger] l[i]) is Ok;
            let to = address_list(mail.to);
            let cc = address_list(mail.cc);
            let bcc = address_list(mail.bcc);
            let p = outgoing_problem(from, mail, files);
            &&& 0 <= k < to.len() && good(to, k) && mailbox_of(to[k]) is Err ==> p == Some(
                "Invalid "@ + "To"@ + " address "@ + to[k] + ": "@ + mailbox_of(to[k])->Err_0,
            )
            &&& good(to, to.len() as int) && 0 <= k < cc.len() && good(cc, k) && mailbox_of(cc[k])
                is Err ==> p == Some(
                "Invalid "@ + "Cc"@ + " address "@ + cc[k] + ": "@ + mailbox_of(cc[k])->Err_0,
            )
            &&& good(to, to.len() as int) && good(cc, cc.len() as int) && 0 <= k < bcc.len()
                && good(bcc, k) && mailbox_of(bcc[k]) is Err ==> p == Some(
                "Invalid "@ + "Bcc"@ + " address "@ + bcc[k] + ": "@ + mailbox_of(bcc[k])->Err_0,
            )
        }),
{
    let to = address_list(mail.to);
    let cc = address_list(mail.cc);
    let bcc = address_list(mail.bcc);
    lemma_all_valid("To"@, to);
    lemma_all_valid("Cc"@, cc);
    lemma_all_valid("Bcc"@, bcc);
    if 0 <= k < to.len() && mailbox_of(to[k]) is Err && (forall|i: int|
        0 <= i < k ==> mailbox_of(#[trigger] to[i]) is Ok) {
        lemma_first_named("To"@, to, k);
    }
    if 0 <= k < cc.len() && mailbox_of(cc[k]) is Err && (forall|i: int|
        0 <= i < k ==> mailbox_of(#[trigger] cc[i]) is Ok) {
        lemma_first_named("Cc"@, cc, k);
    }
    if 0 <= k < bcc.len() && mailbox_of(bcc[k]) is Err && (forall|i: int|
        0 <= i < k ==> mailbox_of(#[trigger] bcc[i]) is Ok) {
        lemma_first_named("Bcc"@, bcc, k);
    }
}

// ---------------------------------------------------------------------------
// Lists of addresses

proof fn lemma_nonblank_piecewise(a: Seq<Seq<char>>, b: Seq<Seq<char>>)
    ensures
        nonblank(a + b) == nonblank(a) + nonblank(b),
    decreases b.len(),
{
    if b.len() == 0 {
        assert(a + b =~= a);
        assert(nonblank(a) + nonblank(b) =~= nonblank(a));
    } else {
        lemma_nonblank_piecewise(a, b.drop_last());
        assert((a + b).drop_last() =~= a + b.drop_last());
        assert((a + b).last() == b.last());
        if trim(b.last()).len() > 0 {
            assert(nonblank(a) + nonblank(b.drop_last()).push(trim(b.last())) =~= (nonblank(a)
                + nonblank(b.drop_last())).push(trim(b.last())));
        }
    }
}

proof fn lemma_one_nonblank(s: Seq<char>)
    ensures
        nonblank(seq![s]) == if trim(s).len() == 0 {
            Seq::empty()
        } else {
            seq![trim(s)]
        },
{
    assert(seq![s].drop_last() =~= Seq::empty());
    assert(nonblank(Seq::<Seq<char>>::empty()) == Seq::<Seq<char>>::empty());
    if trim(s).len() > 0 {
        assert(Seq::<Seq<char>>::empty().push(trim(s)) =~= seq![trim(s)]);
    }
}

/// A list of addresses is read address by address, at its commas: each is
/// taken without the blanks around it, and a blank one is none.
pub proof fn addresses_are_read_one_by_one(x: Seq<char>, y: Seq<char>)
    ensures
        address_list(x + seq![','] + y) == address_list(x) + address_list(y),
        (forall|i: int| 0 <= i < x.len() ==> x[i] != ',') ==> address_list(x) == if trim(x).len()
            == 0 {
            Seq::empty()
        } else {
            seq![trim(x)]
        },
{
    splitting_is_piecewise(x, ',', y);
    lemma_nonblank_piecewise(split(x, ','), split(y, ','));
    if forall|i: int| 0 <= i < x.len() ==> x[i] != ',' {
        lemma_split_none(x, ',');
        lemma_one_nonblank(x);
    }
}

/// An address as a list gives it: no comma in it, not blank, no blanks around
/// it.
pub open spec fn is_listed(a: Seq<char>) -> bool {
    &&& a.len() > 0
    &&& !is_space(a[0])
    &&& !is_space(a.last())
    &&& forall|i: int| 0 <= i < a.len() ==> a[i] != ','
}

proof fn lemma_listed(parts: Seq<Seq<char>>)
    requires
        forall|i: int, k: int|
            0 <= i < parts.len() && 0 <= k < (#[trigger] parts[i]).len() ==> #[trigger] parts[i][k]
                != ',',
    ensures
        forall|i: int| 0 <= i < nonblank(parts).len() ==> is_listed(#[trigger] nonblank(parts)[i]),
    decreases parts.len(),
{
    if parts.len() > 0 {
        let t = parts.drop_last();
        assert forall|i: int, k: int|
            0 <= i < t.len() && 0 <= k < (#[trigger] t[i]).len() implies #[trigger] t[i][k]
            != ',' by {
            assert(parts[i][k] != ',');
        }
        lemma_listed(t);
        let p = parts.last();
        trimming_takes_outer_space_alone(p);
        if trim(p).len() > 0 {
            let (i, j) = choose|i: int, j: int|
                0 <= i <= j <= p.len() && trim(p) == #[trigger] p.subrange(i, j) && (forall|k: int|
                    0 <= k < i || j <= k < p.len() ==> is_space(#[trigger] p[k])) && (i < j
                    ==> !is_space(p[i]) && !is_space(p[j - 1]));
            assert forall|k: int| 0 <= k < trim(p).len() implies trim(p)[k] != ',' by {
                assert(trim(p)[k] == p[i + k]);
                assert(parts[parts.len() - 1][i + k] != ',');
            }
            assert(is_listed(trim(p)));
        }
        assert forall|i: int| 0 <= i < nonblank(parts).len() implies is_listed(
            #[trigger] nonblank(parts)[i],
        ) by {
            if i < nonblank(t).len() {
                assert(nonblank(parts)[i] == nonblank(t)[i]);
            }
        }
    }
}

/// Every address of a list is without comma and blanks around it.
pub proof fn listed_addresses_are_clean(s: Seq<char>)
    ensures
        forall|i: int| 0 <= i < address_list(s).len() ==> is_listed(#[trigger] address_list(s)[i]),
{
    joining_undoes_splitting(s, ',');
    lemma_listed(split(s, ','));
}

/// Addresses joined with commas are read back as they were.
pub proof fn joined_addresses_read_back(list: Seq<Seq<char>>)
    requires
        forall|i: int| 0 <= i < list.len() ==> is_listed(#[trigger] list[i]),
    ensures
        address_list(join(list, ", "@)) == list,
    decreases list.len(),
{
    reveal_strlit(", ");
    if list.len() == 0 {
        lemma_split_none(Seq::empty(), ',');
        lemma_one_nonblank(Seq::empty());
        lemma_trim_none(Seq::empty());
    } else {
        let a = list.last();
        assert(is_listed(list[list.len() - 1]));
        lemma_trim_none(a);
        if list.len() == 1 {
            addresses_are_read_one_by_one(a, a);
            assert(list =~= seq![a]);
        } else {
            let t = list.drop_last();
            assert forall|i: int| 0 <= i < t.len() implies is_listed(#[trigger] t[i]) by {
                assert(t[i] == list[i]);
            }
            joined_addresses_read_back(t);
            let spaced = seq![' '] + a;
            assert(join(list, ", "@) =~= join(t, ", "@) + seq![','] + spaced);
            addresses_are_read_one_by_one(join(t, ", "@), spaced);
            addresses_are_read_one_by_one(spaced, spaced);
            assert(spaced.drop_first() =~= a);
            assert(crate::scan::trim_start(spaced) == crate::scan::trim_start(a));
            assert(trim(spaced) == a);
            assert forall|i: int| 0 <= i < spaced.len() implies spaced[i] != ',' by {
                if i > 0 {
                    assert(spaced[i] == a[i - 1]);
                }
            }
            assert(list =~= t + seq![a]);
        }
    }
}

// ---------------------------------------------------------------------------
// Links

/// A link is one that starts with its scheme in lower or in upper case, and no
/// other text is.
pub proof fn a_link_starts_with_its_scheme(arg: Seq<char>, rest: Seq<char>)
    ensures
        mailto_prefill("mailto:"@ + rest) is Some,
        mailto_prefill("MAILTO:"@ + rest) == mailto_prefill("mailto:"@ + rest),
        after_scheme("mailto:"@ + rest) == Some(rest),
        mailto_prefill(arg) is Some ==> arg.len() >= 7 && (arg.take(7) == "mailto:"@ || arg.take(7)
            == "MAILTO:"@),
{
    reveal_strlit("mailto:");
    reveal_strlit("MAILTO:");
    let a = "mailto:"@ + rest;
    let b = "MAILTO:"@ + rest;
    assert(a.take(7) =~= "mailto:"@);
    assert(a.skip(7) =~= rest);
    assert(b.take(7) =~= "MAILTO:"@);
    assert(b.skip(7) =~= rest);
    assert("MAILTO:"@[0] == 'M' && "mailto:"@[0] == 'm');
    assert("mailto:"@ != "MAILTO:"@);
}

/// The addresses a link prefills are those that it names, each in the field it
/// names them for.
pub proof fn prefilled_addresses_read_back(rest: Seq<char>)
    ensures
        mailto_prefill("mailto:"@ + rest) matches Some(p) && {
            let f = fields_of(rest);
            &&& address_list(p.to) == f.to
            &&& address_list(p.cc) == f.cc
            &&& address_list(p.bcc) == f.bcc
            &&& p.subject == f.subject
            &&& p.body == f.body
        },
{
    a_link_starts_with_its_scheme(rest, rest);
    let f = fields_of(rest);
    lemma_fields_listed(rest);
    joined_addresses_read_back(f.to);
    joined_addresses_read_back(f.cc);
    joined_addresses_read_back(f.bcc);
}

pub open spec fn all_listed(f: Fields) -> bool {
    &&& forall|i: int| 0 <= i < f.to.len() ==> is_listed(#[trigger] f.to[i])
    &&& forall|i: int| 0 <= i < f.cc.len() ==> is_listed(#[trigger] f.cc[i])
    &&& forall|i: int| 0 <= i < f.bcc.len() ==> is_listed(#[trigger] f.bcc[i])
}

proof fn lemma_pairs_listed(f: Fields, pairs: Seq<Seq<char>>)
    requires
        all_listed(f),
    ensures
        all_listed(with_pairs(f, pairs)),
    decreases pairs.len(),
{
    if pairs.len() > 0 {
        lemma_pairs_listed(f, pairs.drop_last());
        listed_addresses_are_clean(percent_decoded(key_value(pairs.last()).1));
    }
}

proof fn lemma_fields_listed(rest: Seq<char>)
    ensures
        all_listed(fields_of(rest)),
{
    let (path, pairs) = match split_once(rest, '?') {
        Some(pq) => (pq.0, split(pq.1, '&')),
        None => (rest, Seq::empty()),
    };
    listed_addresses_are_clean(percent_decoded(path));
    lemma_pairs_listed(
        Fields {
            to: address_list(percent_decoded(path)),
            cc: Seq::empty(),
            bcc: Seq::empty(),
            subject: Seq::empty(),
            body: Seq::empty(),
        },
        pairs,
    );
}

/// A link without a query names recipients alone.
pub proof fn a_bare_link_names_recipients(path: Seq<char>)
    requires
        forall|i: int| 0 <= i < path.len() ==> path[i] != '?',
    ensures
        fields_of(path).to == address_list(percent_decoded(path)),
        fields_of(path).cc.len() == 0,
        fields_of(path).bcc.len() == 0,
        fields_of(path).subject.len() == 0,
        fields_of(path).body.len() == 0,
{
    lemma_until_is(path, '?', path.len());
}

/// What one more pair at the end of a link's query adds: `to`, `cc` and `bcc`
/// add addresses to their own fields, `subject` and `body` set theirs, in
/// whatever case they are written, and nothing else changes.
pub open spec fn pair_fills(before: Fields, after: Fields, name: Seq<char>, value: Seq<char>) -> bool {
    let v = percent_decoded(value);
    &&& after.to == if lower(name) == "to"@ {
        before.to + address_list(v)
    } else {
        before.to
    }
    &&& after.cc == if lower(name) == "cc"@ {
        before.cc + address_list(v)
    } else {
        before.cc
    }
    &&& after.bcc == if lower(name) == "bcc"@ {
        before.bcc + address_list(v)
    } else {
        before.bcc
    }
    &&& after.subject == if lower(name) == "subject"@ {
        v
    } else {
        before.subject
    }
    &&& after.body == if lower(name) == "body"@ {
        v
    } else {
        before.body
    }
}

/// A pair at the end of a link fills its own field, whatever stands before it.
pub proof fn a_pair_fills_its_own_field(
    path: Seq<char>,
    query: Seq<char>,
    name: Seq<char>,
    value: Seq<char>,
)
    requires
        forall|i: int| 0 <= i < path.len() ==> path[i] != '?',
        forall|i: int| 0 <= i < name.len() ==> name[i] != '=' && name[i] != '&',
        forall|i: int| 0 <= i < value.len() ==> value[i] != '&',
    ensures
        ({
            let pair = name + seq!['='] + value;
            &&& pair_fills(
                fields_of(path + seq!['?'] + query),
                fields_of(path + seq!['?'] + (query + seq!['&'] + pair)),
                name,
                value,
            )
            &&& pair_fills(fields_of(path), fields_of(path + seq!['?'] + pair), name, value)
        }),
{
    let pair = name + seq!['='] + value;
    assert forall|i: int| 0 <= i < pair.len() implies pair[i] != '&' by {
        if i > name.len() {
            assert(pair[i] == value[i - name.len() - 1]);
        }
    }
    lemma_split_none(pair, '&');
    splitting_is_piecewise(query, '&', pair);
    let long = query + seq!['&'] + pair;
    lemma_query(path, query);
    lemma_query(path, long);
    lemma_query(path, pair);
    lemma_until_is(path, '?', path.len());
    let start = fields_of(path);
    let all = split(long, '&');
    assert(all =~= split(query, '&').push(pair));
    assert(all.drop_last() =~= split(query, '&'));
    lemma_pair(with_pairs(start, split(query, '&')), name, value);
    lemma_pair(start, name, value);
    assert(seq![pair].drop_last() =~= Seq::empty());
    assert(with_pairs(start, seq![pair]) == with_pair(with_pairs(start, Seq::empty()), pair));
}

proof fn lemma_query(path: Seq<char>, query: Seq<char>)
    requires
        forall|i: int| 0 <= i < path.len() ==> path[i] != '?',
    ensures
        fields_of(path + seq!['?'] + query) == with_pairs(fields_of(path), split(query, '&')),
{
    let s = path + seq!['?'] + query;
    lemma_until_is(s, '?', path.len());
    lemma_until_is(path, '?', path.len());
    assert(s.take(path.len() as int) =~= path);
    assert(s.skip(path.len() as int + 1) =~= query);
}

proof fn lemma_pair(f: Fields, name: Seq<char>, value: Seq<char>)
    requires
        forall|i: int| 0 <= i < name.len() ==> name[i] != '=' && name[i] != '&',
    ensures
        pair_fills(f, with_pair(f, name + seq!['='] + value), name, value),
{
    let pair = name + seq!['='] + value;
    lemma_until_is(pair, '=', name.len());
    assert(pair.take(name.len() as int) =~= name);
    assert(pair.skip(name.len() as int + 1) =~= value);
    reveal_strlit("to");
    reveal_strlit("cc");
    reveal_strlit("bcc");
    reveal_strlit("subject");
    reveal_strlit("body");
    assert("to"@[0] == 't' && "cc"@[0] == 'c');
    assert("to"@.len() == 2 && "cc"@.len() == 2 && "bcc"@.len() == 3 && "subject"@.len() == 7
        && "body"@.len() == 4);
}

// ---------------------------------------------------------------------------
// Escapes

/// A hex digit in upper and in lower case.
pub open spec fn hex_bytes(d: int) -> (u8, u8) {
    if d < 10 {
        ((48 + d) as u8, (48 + d) as u8)
    } else {
        ((55 + d) as u8, (87 + d) as u8)
    }
}

pub open spec fn is_digit_byte(b: u8, d: int) -> bool {
    0 <= d < 16 && (b == hex_bytes(d).0 || b == hex_bytes(d).1)
}

/// A percent sign and two hex digits, each in either case, stand for the byte
/// that they count; behind any other byte a percent sign stands for itself.
pub proof fn an_escape_stands_for_its_byte(hi: u8, lo: u8, h: int, l: int, rest: Seq<u8>)
    ensures
        is_digit_byte(hi, h) && is_digit_byte(lo, l) ==> unescaped(seq![37u8, hi, lo] + rest)
            == seq![(16 * h + l) as u8] + unescaped(rest),
        (forall|d: int| !is_digit_byte(hi, d)) ==> unescaped(seq![37u8, hi, lo] + rest)
            == seq![37u8] + unescaped(seq![hi, lo] + rest),
        (forall|d: int| !is_digit_byte(lo, d)) ==> unescaped(seq![37u8, hi, lo] + rest)
            == seq![37u8] + unescaped(seq![hi, lo] + rest),
        hi != 37 ==> unescaped(seq![hi, lo] + rest) == seq![hi] + unescaped(seq![lo] + rest),
{
    let b = seq![37u8, hi, lo] + rest;
    assert(b.skip(3) =~= rest);
    assert(b.skip(1) =~= seq![hi, lo] + rest);
    assert(b[0] == 37 && b[1] == hi && b[2] == lo);
    let c = seq![hi, lo] + rest;
    assert(c.skip(1) =~= seq![lo] + rest);
    assert(c[0] == hi);
    if is_hex(hi) {
        let d: int = if hi <= 57 {
            hi - 48
        } else if hi <= 70 {
            hi - 55
        } else {
            hi - 87
        };
        assert(is_digit_byte(hi, d));
    }
    if is_hex(lo) {
        let d: int = if lo <= 57 {
            lo - 48
        } else if lo <= 70 {
            lo - 55
        } else {
            lo - 87
        };
        assert(is_digit_byte(lo, d));
    }
}

/// A text whose escapes make UTF-8 is decoded to what they encode.
pub proof fn escapes_encode_text(s: Seq<char>)
    ensures
        ({
            let b = unescaped(encode_utf8(s));
            valid_utf8(b) ==> percent_decoded(s) == decode_utf8(b)
        }),
{
}

// ---------------------------------------------------------------------------
// What is wrong with a mail

proof fn lemma_first_problem(paths: Seq<Seq<char>>, files: Seq<FileContents>, i: int, n: nat)
    requires
        0 <= i < n <= paths.len(),
        attachment_problem(paths, files, i as nat) is None,
        files[i] is Err,
    ensures
        attachment_problem(paths, files, n) == Some(
            "Cannot read "@ + paths[i] + ": "@ + files[i]->Err_0@,
        ),
    decreases n,
{
    if n > i + 1 {
        lemma_first_problem(paths, files, i, (n - 1) as nat);
    }
}

/// The first file that cannot be read is what is wrong with a mail whose
/// recipients are in order; it is named, with the reason.
pub proof fn an_unread_file_is_named(
    from: Seq<char>,
    mail: OutgoingView,
    files: Seq<FileContents>,
    i: int,
)
    requires
        outgoing_delivery(from, mail) is Ok,
        0 <= i < mail.attachments.len(),
        attachment_problem(mail.attachments, files, i as nat) is None,
        files[i] is Err,
    ensures
        outgoing_problem(from, mail, files) == Some(
            "Cannot read "@ + mail.attachments[i] + ": "@ + files[i]->Err_0@,
        ),
{
    lemma_first_problem(mail.attachments, files, i, mail.attachments.len());
}

/// A mail without attachments is built from its text, and one with them from
/// parts: what the building says is wrong is reported.
pub proof fn a_mail_that_is_not_built_is_reported(
    from: Seq<char>,
    mail: OutgoingView,
    files: Seq<FileContents>,
)
    requires
        outgoing_delivery(from, mail) is Ok,
    ensures
        mail.attachments.len() == 0 ==> outgoing_problem(from, mail, files) == (
        match body_problem(Some(from_header(from)), None) {
            Some(e) => Some("Failed to build message: "@ + e),
            None => None,
        }),
        mail.attachments.len() > 0 && attachment_problem(
            mail.attachments,
            files,
            mail.attachments.len(),
        ) is None ==> outgoing_problem(from, mail, files) == (match multipart_problem(
            Some(from_header(from)),
            None,
        ) {
            Some(e) => Some("Failed to build message: "@ + e),
            None => None,
        }),
{
}

} // verus!
