//! What holds of the texts that are shown, and of what is read before.
use vstd::prelude::*;

use crate::intake::{
    byte_lines, ends_negative, has_cut_dashes, has_least, has_word, is_parsable, least_at, levels,
    line_in_type, names_coding, names_digest, names_message, scanned, word_at,
};
use crate::ipc::client_line_of;
use crate::json::{array_text, member_of, number_in, string_in};
use crate::list::{chip_text, inbox_text, inbox_unread, rounded, single_step, size_text, snippet};
use crate::message::{
    collapsed, is_blank, parsed_contents, parsed_headers, readable_mail, whole_mail,
};
use crate::model::{AccountView, EmailView, FolderInfoView, RemoteAttachmentView};
use crate::net::{granted, RefreshView};
use crate::number::decimal;
use crate::render::{
    account_object, account_objects, account_row, account_rows, accounts_reply, count_in,
    folder_object, folder_row, folders_reply,
};
use crate::scan::{ellipsized, join, lemma_join_push, lines, trim_end, until_space, words};
use crate::text::is_space;
use crate::text_laws::{
    holds_text, joined_parts_are_held, lemma_holds_within, lemma_trim_none,
    words_are_read_one_by_one,
};

verus! {

// ---------------------------------------------------------------------------
// Cut texts

/// A text within its budget shows whole; a longer one shows as many of its
/// first characters as the budget has, and an ellipsis.
pub proof fn a_text_is_cut_to_its_budget(s: Seq<char>, max: nat, i: int)
    ensures
        s.len() <= max ==> ellipsized(s, max) == s,
        s.len() > max ==> ellipsized(s, max).len() == max + 3 && (0 <= i < max ==> ellipsized(
            s,
            max,
        )[i] == s[i]) && (max <= i < max + 3 ==> ellipsized(s, max)[i] == '.'),
{
    reveal_strlit("...");
}

// ---------------------------------------------------------------------------
// Labels

pub open spec fn are_words(ws: Seq<Seq<char>>) -> bool {
    forall|i: int|
        #![trigger ws[i]]
        0 <= i < ws.len() ==> ws[i].len() > 0 && forall|k: int|
            0 <= k < ws[i].len() ==> !is_space(#[trigger] ws[i][k])
}

proof fn lemma_are_words(s: Seq<char>)
    ensures
        are_words(words(s)),
    decreases s.len(),
{
    if s.len() > 0 {
        if is_space(s[0]) {
            lemma_are_words(s.drop_first());
        } else {
            crate::scan::lemma_until_space(s);
            let n = until_space(s);
            lemma_are_words(s.skip(n as int));
            let first = s.take(n as int);
            let rest = words(s.skip(n as int));
            let ws = seq![first] + rest;
            assert forall|i: int|
                #![trigger ws[i]]
                0 <= i < ws.len() implies ws[i].len() > 0 && forall|k: int|
                0 <= k < ws[i].len() ==> !is_space(#[trigger] ws[i][k]) by {
                if i > 0 {
                    assert(ws[i] == rest[i - 1]);
                } else {
                    assert forall|k: int| 0 <= k < first.len() implies !is_space(
                        #[trigger] first[k],
                    ) by {
                        assert(first[k] == s[k]);
                    }
                }
            }
        }
    }
}

proof fn lemma_joined_words(ws: Seq<Seq<char>>)
    requires
        are_words(ws),
    ensures
        words(join(ws, seq![' '])) == ws,
    decreases ws.len(),
{
    let sep = seq![' '];
    if ws.len() > 0 {
        let front = ws.drop_last();
        let last = ws.last();
        assert(front.push(last) =~= ws);
        lemma_join_push(front, sep, last);
        assert(last == ws[ws.len() - 1]);
        words_are_read_one_by_one(last, ' ', Seq::empty());
        if front.len() > 0 {
            assert forall|i: int|
                #![trigger front[i]]
                0 <= i < front.len() implies front[i].len() > 0 && forall|k: int|
                0 <= k < front[i].len() ==> !is_space(#[trigger] front[i][k]) by {
                assert(front[i] == ws[i]);
            }
            lemma_joined_words(front);
            words_are_read_one_by_one(join(front, sep), ' ', last);
            assert(front + seq![last] =~= ws);
        } else {
            assert(seq![last] =~= ws);
        }
    }
}

/// A row shows the body on one line: its words, all of them in order, with one
/// space between them.
pub proof fn a_row_shows_the_words_of_the_body(body: Seq<char>)
    ensures
        words(snippet(body)) == words(body),
        snippet(body) == join(words(snippet(body)), seq![' ']),
{
    reveal_strlit(" ");
    assert(" "@ =~= seq![' ']);
    lemma_are_words(body);
    lemma_joined_words(words(body));
}

/// An attachment's chip shows its name, cut to 26 characters, and then its
/// size.
pub proof fn a_chip_shows_name_and_size(a: RemoteAttachmentView)
    ensures
        a.name.len() <= 26 ==> chip_text(a).take(a.name.len() as int) == a.name && chip_text(a).len()
            == a.name.len() + 3 + size_text(a.size).len(),
        a.name.len() > 26 ==> chip_text(a).take(26) == a.name.take(26) && chip_text(a).len() == 29 + 3
            + size_text(a.size).len(),
        chip_text(a).skip(chip_text(a).len() - size_text(a.size).len()) == size_text(a.size),
{
    reveal_strlit(" · ");
    reveal_strlit("...");
    let s = size_text(a.size);
    let t = chip_text(a);
    assert(t.skip(t.len() - s.len()) =~= s);
    if a.name.len() <= 26 {
        assert(t.take(a.name.len() as int) =~= a.name);
    } else {
        assert(t.take(26) =~= a.name.take(26));
    }
}

/// The inbox shows how many of its messages are unread, where any are.
pub proof fn the_inbox_shows_its_unread(emails: Seq<EmailView>)
    ensures
        inbox_unread(emails) == emails.filter(
            |e: EmailView| e.folder == "inbox"@ && !e.read,
        ).len(),
        inbox_text(0) == "Inbox"@,
        forall|n: nat| n > 0 ==> #[trigger] inbox_text(n) == "Inbox ("@ + decimal(n) + ")"@,
{
    crate::control_laws::counts_are_of_the_folder(emails, "inbox"@);
}

/// Rounding goes to the nearest number, and to the even one of two that are
/// equally near.
pub proof fn rounding_goes_to_the_nearest(n: nat, d: nat)
    requires
        d > 0,
    ensures
        2 * (n - rounded(n, d) * d) <= d,
        2 * (rounded(n, d) * d - n) <= d,
        2 * (n - rounded(n, d) * d) == d || 2 * (rounded(n, d) * d - n) == d ==> rounded(n, d) % 2
            == 0,
{
    let q = n / d;
    let r = n % d;
    vstd::arithmetic::div_mod::lemma_fundamental_div_mod(n as int, d as int);
    vstd::arithmetic::mul::lemma_mul_is_commutative(d as int, q as int);
    vstd::arithmetic::mul::lemma_mul_is_distributive_add_other_way(d as int, q as int, 1);
    assert(n == q * d + r);
    assert((q + 1) * d == q * d + d);
}

/// Single precision holds 24 bits: its step at a size is the least power of
/// two that leaves no more of the size.
pub proof fn single_precision_holds_24_bits(n: u32)
    ensures
        ({
            let step = single_step(n as nat);
            &&& n as nat / step < 0x100_0000
            &&& step == 1 || n as nat / step >= 0x80_0000
            &&& step == 1 || step == 2 || step == 4 || step == 8 || step == 16 || step == 32 || step
                == 64 || step == 128 || step == 256
        }),
{
}

// ---------------------------------------------------------------------------
// HTML as text

/// Of lines that follow one another, each shows on a line of its own without
/// the white space behind it; of blank ones in a row only the first shows.
pub proof fn blank_lines_collapse(ls: Seq<Seq<char>>, line: Seq<char>)
    ensures
        collapsed(Seq::empty()).len() == 0,
        !is_blank(line) || ls.len() == 0 || !is_blank(ls.last()) ==> collapsed(ls.push(line))
            == collapsed(ls) + trim_end(line) + seq!['\n'],
        is_blank(line) && ls.len() > 0 && is_blank(ls.last()) ==> collapsed(ls.push(line))
            == collapsed(ls),
{
    reveal_strlit("\n");
    assert("\n"@ =~= seq!['\n']);
    assert(ls.push(line).drop_last() =~= ls);
    if ls.len() > 0 {
        assert(ls.push(line)[ls.len() - 1] == ls.last());
    }
}

// ---------------------------------------------------------------------------
// Parsed mail

/// What is read off a message stands in its own field: the addresses, the
/// subject and the date off its header, the text, the HTML and the attachment
/// off its contents.
pub proof fn a_parsed_mail_keeps_its_fields(raw: Seq<u8>)
    requires
        raw.len() <= i32::MAX,
        is_parsable(raw),
    ensures
        parsed_contents(raw) is None ==> readable_mail(raw) is None && whole_mail(raw) is None,
        parsed_contents(raw) matches Some(c) ==> {
            &&& readable_mail(raw) matches Some(m)
            &&& m.text == c.0 && m.html == c.1 && m.attachment == c.2
            &&& parsed_headers(raw) matches Some(h) ==> m.from == h.0 && m.to == h.1 && m.subject
                == h.2 && m.date == h.3
        },
        parsed_contents(raw) matches Some(c) ==> {
            &&& whole_mail(raw) matches Some(m)
            &&& m.text == c.0 && m.html == c.1 && m.attachment == c.2
        },
{
}

/// What a token reply grants is what its document says under the two names.
pub proof fn a_token_reply_is_read_by_name(document: Seq<char>)
    ensures
        granted(None) is Unreadable,
        granted(Some(document)) matches RefreshView::Granted(token, lasts) && token == (
        match member_of(document, "access_token"@) {
            Some(t) => string_in(t),
            None => None,
        }) && lasts == (match member_of(document, "expires_in"@) {
            Some(n) => number_in(n),
            None => None,
        }),
{
}

// ---------------------------------------------------------------------------
// What the parser is not given

/// A mail that holds the least number of 64 bits, with whatever zeros before
/// its digits, is not parsed, wherever that stands.
pub proof fn the_least_number_is_left_out(
    before: Seq<u8>,
    zeros: Seq<u8>,
    digits: Seq<u8>,
    after: Seq<u8>,
)
    requires
        forall|i: int| 0 <= i < zeros.len() ==> zeros[i] == 48,
        digits.len() == "9223372036854775808"@.len(),
        forall|i: int|
            0 <= i < digits.len() ==> #[trigger] digits[i] as char == "9223372036854775808"@[i],
    ensures
        has_least(before + seq![45u8] + zeros + digits + after),
        !is_parsable(before + seq![45u8] + zeros + digits + after),
{
    let head = before + seq![45u8] + zeros;
    let raw = head + digits + after;
    let i = head.len() as int;
    assert(raw.take(i) =~= head);
    lemma_ends_negative(before, zeros);
    reveal_strlit("9223372036854775808");
    let w = "9223372036854775808"@;
    assert forall|k: int| 0 <= k < w.len() implies crate::text::lower_char(raw[i + k] as char)
        == #[trigger] w[k] by {
        assert(raw[i + k] == digits[k]);
    }
    assert(word_at(raw, w, i));
    assert(least_at(raw, i));
}

proof fn lemma_ends_negative(before: Seq<u8>, zeros: Seq<u8>)
    requires
        forall|i: int| 0 <= i < zeros.len() ==> zeros[i] == 48,
    ensures
        ends_negative(before + seq![45u8] + zeros),
    decreases zeros.len(),
{
    let s = before + seq![45u8] + zeros;
    if zeros.len() == 0 {
        assert(s.last() == 45u8);
    } else {
        lemma_ends_negative(before, zeros.drop_last());
        assert(s.drop_last() =~= before + seq![45u8] + zeros.drop_last());
        assert(s.last() == zeros.last());
    }
}

/// Every line of a type header that names a message or a digest counts for the
/// depth of a mail, and no other line does; a mail that counts more than 512
/// is not parsed.
pub proof fn nested_messages_are_counted(lines: Seq<Seq<u8>>, line: Seq<u8>, raw: Seq<u8>)
    ensures
        levels(Seq::empty()) == 0,
        !crate::intake::is_blank(line) && line_in_type(scanned(lines), line) && (names_message(line)
            || names_digest(line)) ==> levels(lines.push(line)) == levels(lines) + 1,
        crate::intake::is_blank(line) || !line_in_type(scanned(lines), line) || !(names_message(
            line,
        ) || names_digest(line)) ==> levels(lines.push(line)) == levels(lines),
        levels(byte_lines(raw)) > 512 ==> !is_parsable(raw),
{
    assert(lines.push(line).drop_last() =~= lines);
}

// ---------------------------------------------------------------------------
// Lists of accounts and folders

/// A list of accounts has a row for each of them, in order, of which the one in
/// use is marked.
pub proof fn accounts_are_listed_one_by_one(accounts: Seq<AccountView>, a: AccountView, selected: int)
    ensures
        accounts_reply(Seq::empty(), selected, false).len() == 0,
        accounts_reply(seq![a], selected, false) == account_row(a, selected == 0),
        accounts.len() > 0 ==> accounts_reply(accounts.push(a), selected, false) == accounts_reply(
            accounts,
            selected,
            false,
        ) + "\n"@ + account_row(a, selected == accounts.len()),
        holds_text(
            accounts_reply(accounts.push(a), selected, true),
            account_object(a, selected == accounts.len()),
        ),
{
    let all = accounts.push(a);
    let rows = account_rows(accounts, selected);
    let row = account_row(a, selected == accounts.len());
    assert(account_rows(all, selected) =~= rows.push(row));
    lemma_join_push(rows, "\n"@, row);
    assert(account_rows(seq![a], selected) =~= Seq::<Seq<char>>::empty().push(
        account_row(a, selected == 0),
    ));
    lemma_join_push(Seq::empty(), "\n"@, account_row(a, selected == 0));
    let objects = account_objects(all, selected);
    assert(objects[accounts.len() as int] == account_object(a, selected == accounts.len()));
    lemma_array_holds(objects, accounts.len() as int);
}

proof fn lemma_array_holds(items: Seq<Seq<char>>, i: int)
    requires
        0 <= i < items.len(),
    ensures
        holds_text(array_text(items), items[i]),
{
    let j = join(items, ","@);
    joined_parts_are_held(items, ","@, i);
    lemma_holds_within(array_text(items), "["@, j, "]"@, items[i]);
}

/// A list of folders has a row for each of them, in order, with the counts of
/// its own mail.
pub proof fn folders_are_listed_one_by_one(
    folders: Seq<FolderInfoView>,
    f: FolderInfoView,
    emails: Seq<EmailView>,
    current: Seq<char>,
)
    ensures
        folders.len() > 0 ==> folders_reply(folders.push(f), emails, current, false)
            == folders_reply(folders, emails, current, false) + "\n"@ + folder_row(
            f,
            count_in(emails, f.tag),
            current,
        ),
        folders_reply(seq![f], emails, current, false) == folder_row(
            f,
            count_in(emails, f.tag),
            current,
        ),
        holds_text(
            folders_reply(folders.push(f), emails, current, true),
            folder_object(f, count_in(emails, f.tag), current),
        ),
{
    let line = |g: FolderInfoView| folder_row(g, count_in(emails, g.tag), current);
    let object = |g: FolderInfoView| folder_object(g, count_in(emails, g.tag), current);
    let rows = folders.map_values(line);
    assert(folders.push(f).map_values(line) =~= rows.push(line(f)));
    lemma_join_push(rows, "\n"@, line(f));
    assert(seq![f].map_values(line) =~= Seq::<Seq<char>>::empty().push(line(f)));
    lemma_join_push(Seq::empty(), "\n"@, line(f));
    let objects = folders.push(f).map_values(object);
    assert(objects[folders.len() as int] == object(f));
    lemma_array_holds(objects, folders.len() as int);
}

// ---------------------------------------------------------------------------
// The client's line

proof fn lemma_joined_ends(ws: Seq<Seq<char>>)
    requires
        are_words(ws),
        ws.len() > 0,
    ensures
        join(ws, seq![' ']).len() > 0,
        join(ws, seq![' '])[0] == ws[0][0],
        join(ws, seq![' ']).last() == ws.last().last(),
    decreases ws.len(),
{
    let front = ws.drop_last();
    assert(front.push(ws.last()) =~= ws);
    lemma_join_push(front, seq![' '], ws.last());
    assert(ws.last() == ws[ws.len() - 1]);
    if front.len() > 0 {
        assert forall|i: int|
            #![trigger front[i]]
            0 <= i < front.len() implies front[i].len() > 0 && forall|k: int|
            0 <= k < front[i].len() ==> !is_space(#[trigger] front[i][k]) by {
            assert(front[i] == ws[i]);
        }
        lemma_joined_ends(front);
        assert(front[0] == ws[0]);
    }
}

/// The line that a client sends holds its arguments, each a word, in order.
pub proof fn a_client_sends_its_arguments(args: Seq<Seq<char>>)
    requires
        args.len() > 0,
        are_words(args),
    ensures
        words(client_line_of(args)) == args,
{
    reveal_strlit(" ");
    assert(" "@ =~= seq![' ']);
    lemma_joined_words(args);
    lemma_joined_ends(args);
    let s = join(args, seq![' ']);
    assert(args[0][0] == s[0] && !is_space(args[0][0]));
    let w = args[args.len() - 1];
    assert(w == args.last());
    assert(!is_space(w[w.len() - 1]));
    lemma_trim_none(s);
}

// ---------------------------------------------------------------------------
// Lines

/// A line ends before its line feed, and before a carriage return in front of
/// that; what follows is read on its own.
pub proof fn lines_end_at_their_breaks(line: Seq<char>, rest: Seq<char>)
    requires
        forall|i: int| 0 <= i < line.len() ==> line[i] != '\n' && line[i] != '\r',
    ensures
        lines(line + seq!['\n'] + rest) == seq![line] + lines(rest),
        lines(line + seq!['\r'] + seq!['\n'] + rest) == seq![line] + lines(rest),
        line.len() > 0 ==> lines(line) == seq![line],
        lines(Seq::empty()).len() == 0,
{
    let a = line + seq!['\n'] + rest;
    crate::scan::lemma_until_is(a, '\n', line.len());
    assert(a.take(line.len() as int) =~= line);
    assert(a.skip(line.len() as int + 1) =~= rest);
    let r = line + seq!['\r'];
    let b = r + seq!['\n'] + rest;
    crate::scan::lemma_until_is(b, '\n', r.len());
    assert(b.take(r.len() as int) =~= r);
    assert(b.skip(r.len() as int + 1) =~= rest);
    assert(r.drop_last() =~= line);
    assert(crate::scan::without_cr(r) =~= line);
    crate::scan::lemma_until_is(line, '\n', line.len());
}

/// A header that names a forwarded message, in either of its types, or a
/// digest, is one that nests; no other word is.
pub proof fn nesting_types_go_by_their_names(line: Seq<u8>)
    ensures
        names_message(line) <==> has_word(line, "rfc822"@) || has_word(line, "global"@),
        names_digest(line) <==> has_word(line, "digest"@),
        names_coding(line) <==> has_word(line, "base64"@) || has_word(line, "quoted-printable"@)
            || has_word(line, "=?"@),
{
}

/// A mail that names an encoding and has dashes behind a line that is cut short
/// is not parsed; neither is one that hides a message behind an encoding.
pub proof fn cut_and_hidden_mail_is_left_out(raw: Seq<u8>)
    ensures
        ({
            let s = scanned(byte_lines(raw));
            &&& s.ever_coded && has_cut_dashes(raw) ==> !is_parsable(raw)
            &&& s.hides ==> !is_parsable(raw)
            &&& s.ever_coded && s.ever_digest ==> !is_parsable(raw)
            &&& !s.hides && !s.ever_digest && !has_cut_dashes(raw) && !has_least(raw) && levels(
                byte_lines(raw),
            ) <= 512 ==> is_parsable(raw)
        }),
{
}

} // verus!
