//! What holds of every command on the control socket and of every reply.

use vstd::prelude::*;
use crate::ipc::{
    command_of, debug_of, exit_code_of, meaning, no_flags, one_id, read_flags, reply_written,
    CommandView, Flags, ParsedView,
};
use crate::json::{array_text, json_string, member, object_text, optional_text};
use crate::model::{AccountView, EmailView, FolderInfoView, RemoteAttachmentView};
use crate::number::{decimal, decimal_reads_back, is_digit, parsed, unsigned_part, value};
use crate::render::{
    account_object, account_row, attachment_object, cell_text, cells_have_no_separators, count_in,
    email_object, email_text, folder_object, folder_row, is_cell, json_flag, names_shown,
    optional_line, optional_signed, row_object, row_text, rows_reply, status_object, status_text,
    StatusView,
};
use crate::scan::{join, split, starts_with};
use crate::text_laws::{
    holds_text, joined_parts_are_held, lemma_holds, lemma_holds_within, splitting_undoes_joining,
};

verus! {

// ---------------------------------------------------------------------------
// Commands

/// A word that is no flag.
pub open spec fn is_plain(w: Seq<char>) -> bool {
    w != "-n"@ && !(w.len() >= 2 && w.take(2) == "--"@)
}

pub open spec fn all_plain(ws: Seq<Seq<char>>) -> bool {
    forall|i: int| 0 <= i < ws.len() ==> is_plain(#[trigger] ws[i])
}

proof fn lemma_flag_words()
    ensures
        "--json"@.len() == 6,
        "--unread"@.len() == 8,
        "--limit"@.len() == 7,
        "-n"@.len() == 2,
        "--json"@.take(2) == "--"@,
        "--unread"@.take(2) == "--"@,
        "--limit"@.take(2) == "--"@,
        "--"@.len() == 2,
{
    reveal_strlit("--json");
    reveal_strlit("--unread");
    reveal_strlit("--limit");
    reveal_strlit("-n");
    reveal_strlit("--");
    assert("--json"@.take(2) =~= "--"@);
    assert("--unread"@.take(2) =~= "--"@);
    assert("--limit"@.take(2) =~= "--"@);
}

proof fn lemma_plain_words(ws: Seq<Seq<char>>, f: Flags)
    requires
        all_plain(ws),
    ensures
        read_flags(ws, f) == Ok::<Flags, Seq<char>>(Flags { words: f.words + ws, ..f }),
    decreases ws.len(),
{
    if ws.len() == 0 {
        assert(f.words + ws =~= f.words);
    } else {
        lemma_flag_words();
        assert(is_plain(ws[0]));
        let t = ws.skip(1);
        assert forall|i: int| 0 <= i < t.len() implies is_plain(#[trigger] t[i]) by {
            assert(t[i] == ws[i + 1]);
        }
        let g = Flags { words: f.words.push(ws[0]), ..f };
        lemma_plain_words(t, g);
        assert(g.words + t =~= f.words + ws);
        assert(!starts_with(ws[0], "--"@));
    }
}

/// What a line of a command and plain arguments means, in text and without
/// flags.
pub open spec fn says(cmd: Seq<char>, args: Seq<Seq<char>>, c: CommandView) -> bool {
    meaning(seq![cmd] + args) == Ok::<ParsedView, Seq<char>>(
        ParsedView { command: c, json: false },
    )
}

proof fn lemma_says(cmd: Seq<char>, args: Seq<Seq<char>>)
    requires
        is_plain(cmd),
        all_plain(args),
    ensures
        meaning(seq![cmd] + args) == match command_of(
            Flags { words: seq![cmd] + args, ..no_flags() },
        ) {
            Ok(c) => Ok::<ParsedView, Seq<char>>(ParsedView { command: c, json: false }),
            Err(e) => Err(e),
        },
        (seq![cmd] + args)[0] == cmd,
        (seq![cmd] + args).skip(1) == args,
{
    let ws = seq![cmd] + args;
    assert forall|i: int| 0 <= i < ws.len() implies is_plain(#[trigger] ws[i]) by {
        if i > 0 {
            assert(ws[i] == args[i - 1]);
        }
    }
    lemma_plain_words(ws, no_flags());
    assert(no_flags().words + ws =~= ws);
    assert(ws.skip(1) =~= args);
}

proof fn lemma_command_words()
    ensures
        "help"@.len() == 4 && "help"@[0] == 'h',
        "status"@.len() == 6 && "status"@[1] == 't',
        "accounts"@.len() == 8,
        "folders"@.len() == 7 && "folders"@[0] == 'f',
        "sync"@.len() == 4 && "sync"@[0] == 's',
        "quit"@.len() == 4 && "quit"@[0] == 'q',
        "list"@.len() == 4 && "list"@[0] == 'l',
        "search"@.len() == 6 && "search"@[1] == 'e',
        "get"@.len() == 3,
        "open"@.len() == 4 && "open"@[0] == 'o',
        "mark-read"@.len() == 9,
        "mark-unread"@.len() == 11,
        "select-account"@.len() == 14,
        "switch-folder"@.len() == 13,
        "compose"@.len() == 7 && "compose"@[0] == 'c',
        is_plain("help"@),
        is_plain("status"@),
        is_plain("accounts"@),
        is_plain("folders"@),
        is_plain("sync"@),
        is_plain("quit"@),
        is_plain("list"@),
        is_plain("search"@),
        is_plain("get"@),
        is_plain("open"@),
        is_plain("mark-read"@),
        is_plain("mark-unread"@),
        is_plain("select-account"@),
        is_plain("switch-folder"@),
        is_plain("compose"@),
{
    reveal_strlit("help");
    reveal_strlit("status");
    reveal_strlit("accounts");
    reveal_strlit("folders");
    reveal_strlit("sync");
    reveal_strlit("quit");
    reveal_strlit("list");
    reveal_strlit("search");
    reveal_strlit("get");
    reveal_strlit("open");
    reveal_strlit("mark-read");
    reveal_strlit("mark-unread");
    reveal_strlit("select-account");
    reveal_strlit("switch-folder");
    reveal_strlit("compose");
    reveal_strlit("-n");
    reveal_strlit("--");
    lemma_not_dashed("help"@);
    lemma_not_dashed("status"@);
    lemma_not_dashed("accounts"@);
    lemma_not_dashed("folders"@);
    lemma_not_dashed("sync"@);
    lemma_not_dashed("quit"@);
    lemma_not_dashed("list"@);
    lemma_not_dashed("search"@);
    lemma_not_dashed("get"@);
    lemma_not_dashed("open"@);
    lemma_not_dashed("mark-read"@);
    lemma_not_dashed("mark-unread"@);
    lemma_not_dashed("select-account"@);
    lemma_not_dashed("switch-folder"@);
    lemma_not_dashed("compose"@);
}

proof fn lemma_not_dashed(w: Seq<char>)
    requires
        w.len() > 0,
        w[0] != '-',
    ensures
        is_plain(w),
{
    reveal_strlit("-n");
    reveal_strlit("--");
    if w.len() >= 2 && w.take(2) == "--"@ {
        assert(w.take(2)[0] == '-');
    }
}

/// Commands without arguments mean what they are called, and refuse arguments.
pub proof fn bare_commands_take_no_arguments(args: Seq<Seq<char>>)
    requires
        all_plain(args),
    ensures
        args.len() == 0 ==> {
            &&& says("help"@, args, CommandView::Help)
            &&& says("status"@, args, CommandView::Status)
            &&& says("accounts"@, args, CommandView::Accounts)
            &&& says("folders"@, args, CommandView::Folders)
            &&& says("sync"@, args, CommandView::Sync)
            &&& says("quit"@, args, CommandView::Quit)
        },
        args.len() > 0 ==> {
            &&& meaning(seq!["help"@] + args) is Err
            &&& meaning(seq!["status"@] + args) is Err
            &&& meaning(seq!["accounts"@] + args) is Err
            &&& meaning(seq!["folders"@] + args) is Err
            &&& meaning(seq!["sync"@] + args) is Err
            &&& meaning(seq!["quit"@] + args) is Err
        },
{
    lemma_command_words();
    lemma_says("help"@, args);
    lemma_says("status"@, args);
    lemma_says("accounts"@, args);
    lemma_says("folders"@, args);
    lemma_says("sync"@, args);
    lemma_says("quit"@, args);
}

/// `list` lists the folder its words name, or the open one; `search` searches
/// for its words and needs one; both up to fifty rows.
pub proof fn lists_and_searches_take_words(args: Seq<Seq<char>>)
    requires
        all_plain(args),
    ensures
        args.len() == 0 ==> says(
            "list"@,
            args,
            CommandView::List { folder: None, limit: 50, unread: false },
        ),
        args.len() > 0 ==> says(
            "list"@,
            args,
            CommandView::List { folder: Some(join(args, " "@)), limit: 50, unread: false },
        ),
        args.len() > 0 ==> says(
            "search"@,
            args,
            CommandView::Search { query: join(args, " "@), limit: 50 },
        ),
        args.len() == 0 ==> meaning(seq!["search"@] + args) is Err,
        args.len() > 0 ==> says("switch-folder"@, args, CommandView::SwitchFolder(join(args, " "@))),
        args.len() == 0 ==> meaning(seq!["switch-folder"@] + args) is Err,
{
    lemma_command_words();
    lemma_says("list"@, args);
    lemma_says("search"@, args);
    lemma_says("switch-folder"@, args);
}

proof fn lemma_id(n: nat)
    requires
        n <= usize::MAX,
    ensures
        parsed(decimal(n), usize::MAX as nat) == Some(n),
        is_plain(decimal(n)),
{
    decimal_reads_back(n, usize::MAX as nat);
    let d = decimal(n);
    assert(is_digit(d[0]));
    assert(unsigned_part(d) == d);
    lemma_not_dashed(d);
}

/// Commands on a message take its id, one account command an address, and
/// `compose` a link or nothing.
pub proof fn message_commands_take_an_id(n: nat, word: Seq<char>)
    requires
        n <= usize::MAX,
        is_plain(word),
    ensures
        says("get"@, seq![decimal(n)], CommandView::Get(n)),
        says("open"@, seq![decimal(n)], CommandView::Open(n)),
        says("mark-read"@, seq![decimal(n)], CommandView::MarkRead(n, true)),
        says("mark-unread"@, seq![decimal(n)], CommandView::MarkRead(n, false)),
        meaning(seq!["get"@]) is Err,
        parsed(word, usize::MAX as nat) is None ==> meaning(seq!["get"@] + seq![word]) is Err
            && meaning(seq!["open"@] + seq![word]) is Err && meaning(
            seq!["mark-read"@] + seq![word],
        ) is Err && meaning(seq!["mark-unread"@] + seq![word]) is Err,
        says("select-account"@, seq![word], CommandView::SelectAccount(word)),
        says("compose"@, seq![word], CommandView::Compose(Some(word))),
        says("compose"@, Seq::empty(), CommandView::Compose(None)),
{
    lemma_command_words();
    lemma_id(n);
    let id = seq![decimal(n)];
    let w = seq![word];
    let none = Seq::<Seq<char>>::empty();
    lemma_says("get"@, id);
    lemma_says("open"@, id);
    lemma_says("mark-read"@, id);
    lemma_says("mark-unread"@, id);
    lemma_says("get"@, w);
    lemma_says("open"@, w);
    lemma_says("mark-read"@, w);
    lemma_says("mark-unread"@, w);
    lemma_says("select-account"@, w);
    lemma_says("compose"@, w);
    lemma_says("compose"@, none);
    lemma_says("get"@, none);
    assert(seq!["get"@] + none =~= seq!["get"@]);
}

/// A line without a command, with an unknown flag, or with a limit that is no
/// number means nothing.
pub proof fn bad_lines_are_refused(ws: Seq<Seq<char>>, w: Seq<char>)
    requires
        all_plain(ws),
    ensures
        meaning(Seq::empty()) is Err,
        w.len() >= 2 && w.take(2) == "--"@ && w != "--json"@ && w != "--unread"@ && w != "--limit"@
            ==> meaning(seq![w] + ws) == Err::<ParsedView, Seq<char>>("unknown flag "@ + w),
        parsed(w, usize::MAX as nat) is None ==> meaning(seq!["--limit"@, w] + ws) == Err::<
            ParsedView,
            Seq<char>,
        >("bad limit "@ + debug_of(w)) && meaning(seq!["-n"@, w] + ws) == meaning(
            seq!["--limit"@, w] + ws,
        ),
        meaning(seq!["--limit"@]) == Err::<ParsedView, Seq<char>>("--limit needs a number"@),
        parsed(w, usize::MAX as nat) is None ==> one_id("show"@, seq![w]) == Err::<nat, Seq<char>>(
            "bad message id "@ + debug_of(w),
        ),
{
    lemma_flag_words();
    reveal_strlit("--");
    reveal_strlit("-n");
    assert("-n"@[1] == 'n' && "--"@[1] == '-');
    let a = seq![w] + ws;
    assert(a[0] == w);
    assert(starts_with(w, "--"@) == (w.len() >= 2 && w.take(2) == "--"@));
    assert("-n"@.take(2) =~= "-n"@);
    let b = seq!["--limit"@, w] + ws;
    assert(b[0] == "--limit"@ && b[1] == w);
    let c = seq!["-n"@, w] + ws;
    assert(c[0] == "-n"@ && c[1] == w);
    assert(Seq::<Seq<char>>::empty().len() == 0);
}

/// A flag changes what it names and nothing else: `--json` the form of the
/// reply, `--unread` what a list shows, `--limit` how many rows there are.
pub proof fn flags_change_what_they_name(args: Seq<Seq<char>>, n: nat)
    requires
        all_plain(args),
        args.len() > 0,
        n <= usize::MAX,
    ensures
        meaning(args) matches Ok(p) ==> meaning(seq!["--json"@] + args) == Ok::<
            ParsedView,
            Seq<char>,
        >(ParsedView { json: true, ..p }),
        meaning(args) is Err ==> meaning(seq!["--json"@] + args) == meaning(args),
        args[0] == "list"@ ==> meaning(seq!["--unread"@] + args) == Ok::<ParsedView, Seq<char>>(
            ParsedView {
                command: CommandView::List {
                    folder: if args.len() == 1 {
                        None
                    } else {
                        Some(join(args.skip(1), " "@))
                    },
                    limit: 50,
                    unread: true,
                },
                json: false,
            },
        ),
        args[0] == "list"@ ==> meaning(seq!["--limit"@, decimal(n)] + args) == Ok::<
            ParsedView,
            Seq<char>,
        >(
            ParsedView {
                command: CommandView::List {
                    folder: if args.len() == 1 {
                        None
                    } else {
                        Some(join(args.skip(1), " "@))
                    },
                    limit: n,
                    unread: false,
                },
                json: false,
            },
        ),
        args[0] == "search"@ && args.len() > 1 ==> meaning(seq!["-n"@, decimal(n)] + args) == Ok::<
            ParsedView,
            Seq<char>,
        >(
            ParsedView {
                command: CommandView::Search { query: join(args.skip(1), " "@), limit: n },
                json: false,
            },
        ),
{
    lemma_flag_words();
    lemma_command_words();
    lemma_id(n);
    reveal_strlit("--json");
    reveal_strlit("--unread");
    reveal_strlit("--limit");
    reveal_strlit("-n");
    let f = no_flags();
    lemma_plain_words(args, f);
    assert(f.words + args =~= args);
    let a = seq!["--json"@] + args;
    assert(a.skip(1) =~= args);
    lemma_plain_words(args, Flags { json: true, ..f });
    let b = seq!["--unread"@] + args;
    assert(b.skip(1) =~= args);
    lemma_plain_words(args, Flags { unread: true, ..f });
    let c = seq!["--limit"@, decimal(n)] + args;
    assert(c.skip(2) =~= args);
    assert(c[0] == "--limit"@ && c[1] == decimal(n));
    let d = seq!["-n"@, decimal(n)] + args;
    assert(d.skip(2) =~= args);
    assert(d[0] == "-n"@ && d[1] == decimal(n));
    lemma_plain_words(args, Flags { limit: n, ..f });
}

/// A client fails on an error reply and where none came, and on no other.
pub proof fn a_client_fails_on_errors_alone(r: Seq<char>)
    ensures
        exit_code_of(None) == 2,
        r.len() >= 6 && r.take(6) == "error:"@ ==> exit_code_of(Some(r)) == 1,
        !(r.len() >= 6 && r.take(6) == "error:"@) ==> exit_code_of(Some(r)) == 0,
        reply_written(r).take(r.len() as int) == r,
        reply_written(r).len() <= r.len() + 1,
{
    reveal_strlit("error:");
    reveal_strlit("\n");
    assert(reply_written(r).take(r.len() as int) =~= r);
}

// ---------------------------------------------------------------------------
// Replies in text

/// A row of a list has six columns: the message's id, whether it is read, its
/// folder, its date, its sender and its subject.
pub proof fn a_row_has_its_columns(e: EmailView)
    ensures
        ({
            let cols = split(row_text(e), '\t');
            &&& cols.len() == 6
            &&& value(cols[0]) == e.id
            &&& cols[1] == if e.read {
                "read"@
            } else {
                "unread"@
            }
            &&& cols[2] == cell_text(e.folder)
            &&& cols[3] == cell_text(e.date)
            &&& cols[4] == cell_text(e.from)
            &&& cols[5] == cell_text(e.subject)
        }),
        forall|i: int| 0 <= i < row_text(e).len() ==> row_text(e)[i] != '\n',
{
    reveal_strlit("\t");
    reveal_strlit("read");
    reveal_strlit("unread");
    decimal_reads_back(e.id as nat, usize::MAX as nat);
    cells_have_no_separators(e.folder);
    cells_have_no_separators(e.date);
    cells_have_no_separators(e.from);
    cells_have_no_separators(e.subject);
    let mark = if e.read {
        "read"@
    } else {
        "unread"@
    };
    let id = decimal(e.id as nat);
    assert(is_cell(id)) by {
        assert forall|i: int| 0 <= i < id.len() implies id[i] != '\t' && id[i] != '\n' && id[i]
            != '\r' by {
            assert(is_digit(id[i]));
        }
    }
    assert(is_cell(mark));
    let cols = seq![
        id,
        mark,
        cell_text(e.folder),
        cell_text(e.date),
        cell_text(e.from),
        cell_text(e.subject),
    ];
    lemma_columns(cols);
    assert(row_text(e) =~= joined_six(cols));
}

/// Six cells with tabs between them.
spec fn joined_six(c: Seq<Seq<char>>) -> Seq<char> {
    let t = seq!['\t'];
    c[0] + t + c[1] + t + c[2] + t + c[3] + t + c[4] + t + c[5]
}

proof fn lemma_columns(cols: Seq<Seq<char>>)
    requires
        cols.len() == 6,
        forall|i: int| 0 <= i < 6 ==> is_cell(#[trigger] cols[i]),
    ensures
        split(joined_six(cols), '\t') == cols,
        forall|i: int| 0 <= i < joined_six(cols).len() ==> joined_six(cols)[i] != '\n',
{
    assert forall|i: int, k: int|
        0 <= i < cols.len() && 0 <= k < (#[trigger] cols[i]).len() implies #[trigger] cols[i][k]
        != '\t' by {
        assert(is_cell(cols[i]));
    }
    lemma_join_six(cols, seq!['\t']);
    splitting_undoes_joining(cols, '\t');
    assert(is_cell(cols[0]) && is_cell(cols[1]) && is_cell(cols[2]) && is_cell(cols[3]) && is_cell(
        cols[4],
    ) && is_cell(cols[5]));
}

proof fn lemma_join_six(c: Seq<Seq<char>>, t: Seq<char>)
    requires
        c.len() == 6,
    ensures
        join(c, t) == c[0] + t + c[1] + t + c[2] + t + c[3] + t + c[4] + t + c[5],
{
    reveal_with_fuel(join, 7);
    assert(c.drop_last().drop_last().drop_last().drop_last().drop_last()[0] == c[0]);
    assert(c.drop_last().drop_last().drop_last().drop_last().last() == c[1]);
    assert(c.drop_last().drop_last().drop_last().last() == c[2]);
    assert(c.drop_last().drop_last().last() == c[3]);
    assert(c.drop_last().last() == c[4]);
}

/// A cell shows its text character by character; only a tab or a line break in
/// it shows as a blank.
pub proof fn a_cell_shows_its_text(s: Seq<char>, i: int)
    requires
        0 <= i < s.len(),
    ensures
        cell_text(s).len() == s.len(),
        cell_text(s)[i] == if s[i] == '\t' || s[i] == '\n' || s[i] == '\r' {
            ' '
        } else {
            s[i]
        },
{
}

/// A list in text has one line for each message, in the order given.
pub proof fn a_list_has_a_line_for_each(rows: Seq<EmailView>, i: int)
    requires
        0 <= i < rows.len(),
    ensures
        split(rows_reply(rows, false), '\n').len() == rows.len(),
        split(rows_reply(rows, false), '\n')[i] == row_text(rows[i]),
{
    reveal_strlit("\n");
    assert("\n"@ =~= seq!['\n']);
    let lines = rows.map_values(|e: EmailView| row_text(e));
    assert forall|n: int, k: int|
        0 <= n < lines.len() && 0 <= k < (#[trigger] lines[n]).len() implies #[trigger] lines[n][k]
        != '\n' by {
        a_row_has_its_columns(rows[n]);
    }
    splitting_undoes_joining(lines, '\n');
}

/// The first `n` of some pieces in a row.
spec fn flat(ps: Seq<Seq<char>>, n: nat) -> Seq<char>
    decreases n,
{
    if n == 0 {
        Seq::empty()
    } else {
        flat(ps, (n - 1) as nat) + ps[n - 1]
    }
}

/// The pieces from `i` up to `j` in a row.
spec fn between(ps: Seq<Seq<char>>, i: nat, j: nat) -> Seq<char>
    decreases j,
{
    if j <= i {
        Seq::empty()
    } else {
        between(ps, i, (j - 1) as nat) + ps[j - 1]
    }
}

proof fn lemma_between(ps: Seq<Seq<char>>, i: nat, j: nat)
    requires
        i <= j,
    ensures
        flat(ps, j) == flat(ps, i) + between(ps, i, j),
    decreases j,
{
    if i < j {
        lemma_between(ps, i, (j - 1) as nat);
        assert(flat(ps, j) =~= flat(ps, i) + between(ps, i, j));
    } else {
        assert(flat(ps, j) =~= flat(ps, i) + between(ps, i, j));
    }
}

proof fn lemma_pieces_held(ps: Seq<Seq<char>>, i: nat, j: nat, n: nat)
    requires
        i <= j <= n,
    ensures
        holds_text(flat(ps, n), between(ps, i, j)),
{
    lemma_between(ps, i, j);
    lemma_between(ps, j, n);
    lemma_holds(flat(ps, n), flat(ps, i), between(ps, i, j), between(ps, j, n));
}

/// A message in text shows its headers under their names, one behind the other:
/// id, folder, sender and recipient, then the copies, if any, then date, subject
/// and whether it is read, then the attachments, if any; and, behind a blank
/// line, the whole body.
pub proof fn a_message_shows_its_headers_and_body(e: EmailView)
    ensures
        ({
            let t = email_text(e);
            let read = if e.read {
                "yes"@
            } else {
                "no"@
            };
            &&& holds_text(
                t,
                "id: "@ + decimal(e.id as nat) + "\nfolder: "@ + cell_text(e.folder),
            )
            &&& holds_text(t, "\nfrom: "@ + cell_text(e.from) + "\nto: "@ + cell_text(e.to) + "\n"@)
            &&& holds_text(
                t,
                "date: "@ + cell_text(e.date) + "\nsubject: "@ + cell_text(e.subject)
                    + "\nread: "@ + read + "\n"@,
            )
            &&& e.cc.len() > 0 ==> holds_text(t, "cc: "@ + cell_text(e.cc) + "\n"@)
            &&& e.bcc.len() > 0 ==> holds_text(t, "bcc: "@ + cell_text(e.bcc) + "\n"@)
            &&& names_shown(e).len() > 0 ==> holds_text(
                t,
                "attachments: "@ + cell_text(join(names_shown(e), ", "@)) + "\n"@,
            )
            &&& t.len() > e.body.len()
            &&& t.skip(t.len() - e.body.len()) == e.body
            &&& t[t.len() - e.body.len() - 1] == '\n'
        }),
{
    let nl = "\n"@;
    let read = if e.read {
        "yes"@
    } else {
        "no"@
    };
    let names = names_shown(e);
    let attachments = if names.len() > 0 {
        "attachments: "@ + cell_text(join(names, ", "@)) + nl
    } else {
        Seq::empty()
    };
    let ps = seq![
        "id: "@,
        decimal(e.id as nat),
        "\nfolder: "@,
        cell_text(e.folder),
        "\nfrom: "@,
        cell_text(e.from),
        "\nto: "@,
        cell_text(e.to),
        nl,
        optional_line("cc: "@, e.cc),
        optional_line("bcc: "@, e.bcc),
        "date: "@,
        cell_text(e.date),
        "\nsubject: "@,
        cell_text(e.subject),
        "\nread: "@,
        read,
        nl,
        attachments,
        nl,
        e.body,
    ];
    let t = email_text(e);
    assert(t == flat(ps, 21)) by {
        reveal_with_fuel(flat, 22);
        assert(Seq::<char>::empty() + "id: "@ =~= "id: "@);
    }
    assert(holds_text(t, "id: "@ + decimal(e.id as nat) + "\nfolder: "@ + cell_text(e.folder))) by {
        lemma_pieces_held(ps, 0, 4, 21);
        reveal_with_fuel(between, 6);
        assert(Seq::<char>::empty() + "id: "@ =~= "id: "@);
    }
    assert(holds_text(t, "\nfrom: "@ + cell_text(e.from) + "\nto: "@ + cell_text(e.to) + nl)) by {
        lemma_pieces_held(ps, 4, 9, 21);
        reveal_with_fuel(between, 7);
        assert(Seq::<char>::empty() + "\nfrom: "@ =~= "\nfrom: "@);
    }
    assert(holds_text(
        t,
        "date: "@ + cell_text(e.date) + "\nsubject: "@ + cell_text(e.subject) + "\nread: "@ + read
            + nl,
    )) by {
        lemma_pieces_held(ps, 11, 18, 21);
        reveal_with_fuel(between, 9);
        assert(Seq::<char>::empty() + "date: "@ =~= "date: "@);
    }
    assert(holds_text(t, ps[9]) && holds_text(t, ps[10]) && holds_text(t, ps[18])) by {
        lemma_pieces_held(ps, 9, 10, 21);
        lemma_pieces_held(ps, 10, 11, 21);
        lemma_pieces_held(ps, 18, 19, 21);
        reveal_with_fuel(between, 3);
        assert(Seq::<char>::empty() + ps[9] =~= ps[9]);
        assert(Seq::<char>::empty() + ps[10] =~= ps[10]);
        assert(Seq::<char>::empty() + ps[18] =~= ps[18]);
    }
    let before = flat(ps, 19);
    assert(t =~= before + nl + e.body) by {
        reveal_with_fuel(flat, 3);
    }
    reveal_strlit("\n");
    assert(t.skip(t.len() - e.body.len()) =~= e.body);
}

/// A folder's counts are those of its messages, and of its unread ones.
pub proof fn counts_are_of_the_folder(s: Seq<EmailView>, tag: Seq<char>)
    ensures
        count_in(s, tag).0 == s.filter(|e: EmailView| e.folder == tag).len(),
        count_in(s, tag).1 == s.filter(|e: EmailView| e.folder == tag && !e.read).len(),
    decreases s.len(),
{
    reveal(Seq::filter);
    if s.len() > 0 {
        counts_are_of_the_folder(s.drop_last(), tag);
    }
}

/// The names of a message's attachments are those the server reported; mail
/// composed here has the names of its files.
pub proof fn attachments_show_by_name(e: EmailView, i: int)
    ensures
        e.remote_attachments.len() > 0 ==> names_shown(e).len() == e.remote_attachments.len() && (0
            <= i < e.remote_attachments.len() ==> names_shown(e)[i]
            == e.remote_attachments[i].name),
        e.remote_attachments.len() == 0 ==> names_shown(e).len() == e.attachments.len() && (0 <= i
            < e.attachments.len() ==> names_shown(e)[i] == match crate::path::file_name(
            e.attachments[i],
        ) {
            Some(n) => n,
            None => e.attachments[i],
        }),
{
}

/// An account's row has four columns: its address, whether it is selected,
/// whether it is the default, and its server.
pub proof fn an_account_row_has_its_columns(a: AccountView, selected: bool)
    ensures
        ({
            let cols = split(account_row(a, selected), '\t');
            &&& cols.len() == 4
            &&& cols[0] == cell_text(a.email)
            &&& cols[1] == if selected {
                "selected"@
            } else {
                "-"@
            }
            &&& cols[2] == if a.is_default {
                "default"@
            } else {
                "-"@
            }
            &&& cols[3] == cell_text(a.imap)
        }),
{
    reveal_strlit("\t");
    reveal_strlit("selected");
    reveal_strlit("default");
    reveal_strlit("-");
    cells_have_no_separators(a.email);
    cells_have_no_separators(a.imap);
    let c = seq![
        cell_text(a.email),
        if selected {
            "selected"@
        } else {
            "-"@
        },
        if a.is_default {
            "default"@
        } else {
            "-"@
        },
        cell_text(a.imap),
    ];
    assert(is_cell("selected"@) && is_cell("default"@) && is_cell("-"@));
    let t = seq!['\t'];
    assert forall|i: int, k: int|
        0 <= i < c.len() && 0 <= k < (#[trigger] c[i]).len() implies #[trigger] c[i][k] != '\t' by {
        assert(is_cell(c[i]));
    }
    reveal_with_fuel(join, 5);
    assert(c.drop_last().drop_last().drop_last()[0] == c[0]);
    assert(c.drop_last().drop_last().last() == c[1]);
    assert(c.drop_last().last() == c[2]);
    assert(account_row(a, selected) =~= join(c, t));
    splitting_undoes_joining(c, '\t');
}

/// A folder's row has six columns: its tag, its label, its mailbox, whether it
/// is the one shown, and how many messages it has and how many unread ones.
pub proof fn a_folder_row_has_its_columns(
    f: FolderInfoView,
    count: (nat, nat),
    current: Seq<char>,
)
    ensures
        ({
            let cols = split(folder_row(f, count, current), '\t');
            &&& cols.len() == 6
            &&& cols[0] == cell_text(f.tag)
            &&& cols[1] == cell_text(f.label)
            &&& cols[2] == if f.mailbox.len() == 0 {
                "(local)"@
            } else {
                cell_text(f.mailbox)
            }
            &&& cols[3] == if f.tag == current {
                "current"@
            } else {
                "-"@
            }
            &&& value(cols[4]) == count.0
            &&& value(cols[5]) == count.1
        }),
{
    reveal_strlit("\t");
    reveal_strlit("(local)");
    reveal_strlit("current");
    reveal_strlit("-");
    cells_have_no_separators(f.tag);
    cells_have_no_separators(f.label);
    cells_have_no_separators(f.mailbox);
    decimal_reads_back(count.0, 0);
    decimal_reads_back(count.1, 0);
    let a = decimal(count.0);
    let b = decimal(count.1);
    assert(is_cell(a)) by {
        assert forall|i: int| 0 <= i < a.len() implies a[i] != '\t' && a[i] != '\n' && a[i]
            != '\r' by {
            assert(is_digit(a[i]));
        }
    }
    assert(is_cell(b)) by {
        assert forall|i: int| 0 <= i < b.len() implies b[i] != '\t' && b[i] != '\n' && b[i]
            != '\r' by {
            assert(is_digit(b[i]));
        }
    }
    assert(is_cell("(local)"@) && is_cell("current"@) && is_cell("-"@));
    let cols = seq![
        cell_text(f.tag),
        cell_text(f.label),
        if f.mailbox.len() == 0 {
            "(local)"@
        } else {
            cell_text(f.mailbox)
        },
        if f.tag == current {
            "current"@
        } else {
            "-"@
        },
        a,
        b,
    ];
    lemma_columns(cols);
    assert(folder_row(f, count, current) =~= joined_six(cols));
}

// ---------------------------------------------------------------------------
// Replies as JSON

proof fn lemma_member_held(ms: Seq<Seq<char>>, i: int)
    requires
        0 <= i < ms.len(),
    ensures
        holds_text(object_text(ms), ms[i]),
{
    joined_parts_are_held(ms, ","@, i);
    lemma_holds_within(object_text(ms), "{"@, join(ms, ","@), "}"@, ms[i]);
}

/// Whether an object's text holds a member under this name with this value.
pub open spec fn has_member(object: Seq<char>, name: Seq<char>, value: Seq<char>) -> bool {
    holds_text(object, json_string(name) + ":"@ + value)
}

/// A row as JSON holds each field of its message under its own name.
pub proof fn a_json_row_holds_its_fields(e: EmailView)
    ensures
        ({
            let o = row_object(e);
            &&& has_member(o, "id"@, decimal(e.id as nat))
            &&& has_member(o, "from"@, json_string(e.from))
            &&& has_member(o, "to"@, json_string(e.to))
            &&& has_member(o, "subject"@, json_string(e.subject))
            &&& has_member(o, "date"@, json_string(e.date))
            &&& has_member(o, "folder"@, json_string(e.folder))
            &&& has_member(
                o,
                "read"@,
                if e.read {
                    "true"@
                } else {
                    "false"@
                },
            )
            &&& e.ts is None ==> has_member(o, "ts"@, "null"@)
        }),
{
    let ms = seq![
        member("attachments"@, array_text(crate::json::strings(names_shown(e)))),
        member("date"@, json_string(e.date)),
        member("folder"@, json_string(e.folder)),
        member("from"@, json_string(e.from)),
        member("id"@, decimal(e.id as nat)),
        member("read"@, json_flag(e.read)),
        member("subject"@, json_string(e.subject)),
        member("to"@, json_string(e.to)),
        member("ts"@, optional_signed(e.ts)),
    ];
    assert(row_object(e) == object_text(ms));
    lemma_member_held(ms, 1);
    lemma_member_held(ms, 2);
    lemma_member_held(ms, 3);
    lemma_member_held(ms, 4);
    lemma_member_held(ms, 5);
    lemma_member_held(ms, 6);
    lemma_member_held(ms, 7);
    lemma_member_held(ms, 8);
}

/// A message as JSON holds each field of it under its own name.
pub proof fn a_json_message_holds_its_fields(e: EmailView)
    ensures
        ({
            let o = email_object(e);
            &&& has_member(o, "id"@, decimal(e.id as nat))
            &&& has_member(o, "from"@, json_string(e.from))
            &&& has_member(o, "to"@, json_string(e.to))
            &&& has_member(o, "subject"@, json_string(e.subject))
            &&& has_member(o, "body"@, json_string(e.body))
            &&& has_member(o, "date"@, json_string(e.date))
            &&& has_member(o, "folder"@, json_string(e.folder))
            &&& has_member(o, "cc"@, json_string(e.cc))
            &&& has_member(o, "bcc"@, json_string(e.bcc))
            &&& has_member(
                o,
                "read"@,
                if e.read {
                    "true"@
                } else {
                    "false"@
                },
            )
            &&& e.uid matches Some(u) ==> has_member(o, "uid"@, decimal(u as nat))
            &&& e.uid is None ==> has_member(o, "uid"@, "null"@)
            &&& has_member(o, "attachments"@, array_text(crate::json::strings(e.attachments)))
            &&& has_member(
                o,
                "remote_attachments"@,
                array_text(
                    e.remote_attachments.map_values(|a: RemoteAttachmentView| attachment_object(a)),
                ),
            )
            &&& e.ts is None ==> has_member(o, "ts"@, "null"@)
            &&& e.ts matches Some(t) ==> (t >= 0 ==> has_member(o, "ts"@, decimal(t as nat)))
            &&& e.ts matches Some(t) ==> (t < 0 ==> has_member(o, "ts"@, "-"@ + decimal((-t) as nat)))
            &&& e.origin_folder is None ==> has_member(o, "origin_folder"@, "null"@)
            &&& e.origin_folder matches Some(f) ==> has_member(o, "origin_folder"@, json_string(f))
        }),
{
    let ms = seq![
        member("id"@, decimal(e.id as nat)),
        member("from"@, json_string(e.from)),
        member("to"@, json_string(e.to)),
        member("subject"@, json_string(e.subject)),
        member("body"@, json_string(e.body)),
        member("date"@, json_string(e.date)),
        member("read"@, json_flag(e.read)),
        member("folder"@, json_string(e.folder)),
        member("cc"@, json_string(e.cc)),
        member("bcc"@, json_string(e.bcc)),
        member("attachments"@, array_text(crate::json::strings(e.attachments))),
        member(
            "remote_attachments"@,
            array_text(
                e.remote_attachments.map_values(|a: RemoteAttachmentView| attachment_object(a)),
            ),
        ),
        member("uid"@, crate::json::optional_number(crate::render::opt_u32(e.uid))),
        member("ts"@, optional_signed(e.ts)),
        member("origin_folder"@, optional_text(e.origin_folder)),
    ];
    assert(email_object(e) == object_text(ms));
    lemma_member_held(ms, 0);
    lemma_member_held(ms, 1);
    lemma_member_held(ms, 2);
    lemma_member_held(ms, 3);
    lemma_member_held(ms, 4);
    lemma_member_held(ms, 5);
    lemma_member_held(ms, 6);
    lemma_member_held(ms, 7);
    lemma_member_held(ms, 8);
    lemma_member_held(ms, 9);
    lemma_member_held(ms, 10);
    lemma_member_held(ms, 11);
    lemma_member_held(ms, 12);
    lemma_member_held(ms, 13);
    lemma_member_held(ms, 14);
}

/// An attachment as JSON holds each field of it under its own name.
pub proof fn a_json_attachment_holds_its_fields(a: RemoteAttachmentView)
    ensures
        ({
            let o = attachment_object(a);
            &&& has_member(o, "name"@, json_string(a.name))
            &&& has_member(
                o,
                "section"@,
                array_text(a.section.map_values(|n: u32| decimal(n as nat))),
            )
            &&& has_member(o, "encoding"@, json_string(a.encoding))
            &&& has_member(o, "mime"@, json_string(a.mime))
            &&& has_member(o, "size"@, decimal(a.size as nat))
        }),
{
    let ms = seq![
        member("name"@, json_string(a.name)),
        member("section"@, array_text(crate::render::numbers(a.section))),
        member("encoding"@, json_string(a.encoding)),
        member("mime"@, json_string(a.mime)),
        member("size"@, decimal(a.size as nat)),
    ];
    assert(attachment_object(a) == object_text(ms));
    lemma_member_held(ms, 0);
    lemma_member_held(ms, 1);
    lemma_member_held(ms, 2);
    lemma_member_held(ms, 3);
    lemma_member_held(ms, 4);
}

/// An account as JSON holds what it shows of itself under its own names.
pub proof fn a_json_account_holds_its_fields(a: AccountView, selected: bool)
    ensures
        ({
            let o = account_object(a, selected);
            let flag = |b: bool|
                if b {
                    "true"@
                } else {
                    "false"@
                };
            &&& has_member(o, "email"@, json_string(a.email))
            &&& has_member(o, "imap"@, json_string(a.imap))
            &&& has_member(o, "smtp"@, json_string(a.smtp))
            &&& has_member(o, "default"@, flag(a.is_default))
            &&& has_member(o, "oauth"@, flag(a.is_oauth))
            &&& has_member(o, "selected"@, flag(selected))
        }),
{
    let ms = seq![
        member("default"@, json_flag(a.is_default)),
        member("email"@, json_string(a.email)),
        member("imap"@, json_string(a.imap)),
        member("oauth"@, json_flag(a.is_oauth)),
        member("selected"@, json_flag(selected)),
        member("smtp"@, json_string(a.smtp)),
    ];
    assert(account_object(a, selected) == object_text(ms));
    lemma_member_held(ms, 0);
    lemma_member_held(ms, 1);
    lemma_member_held(ms, 2);
    lemma_member_held(ms, 3);
    lemma_member_held(ms, 4);
    lemma_member_held(ms, 5);
}

/// A folder as JSON holds its names and its counts under their own names.
pub proof fn a_json_folder_holds_its_fields(
    f: FolderInfoView,
    count: (nat, nat),
    current: Seq<char>,
)
    ensures
        ({
            let o = folder_object(f, count, current);
            &&& has_member(o, "tag"@, json_string(f.tag))
            &&& has_member(o, "label"@, json_string(f.label))
            &&& has_member(o, "messages"@, decimal(count.0))
            &&& has_member(o, "unread"@, decimal(count.1))
            &&& f.mailbox.len() > 0 ==> has_member(o, "mailbox"@, json_string(f.mailbox))
            &&& f.mailbox.len() == 0 ==> has_member(o, "mailbox"@, "null"@)
            &&& f.tag == current ==> has_member(o, "current"@, "true"@)
            &&& f.tag != current ==> has_member(o, "current"@, "false"@)
        }),
{
    let ms = seq![
        member("current"@, json_flag(f.tag == current)),
        member("label"@, json_string(f.label)),
        member(
            "mailbox"@,
            if f.mailbox.len() == 0 {
                "null"@
            } else {
                json_string(f.mailbox)
            },
        ),
        member("messages"@, decimal(count.0)),
        member("tag"@, json_string(f.tag)),
        member("unread"@, decimal(count.1)),
    ];
    assert(folder_object(f, count, current) == object_text(ms));
    lemma_member_held(ms, 0);
    lemma_member_held(ms, 1);
    lemma_member_held(ms, 2);
    lemma_member_held(ms, 3);
    lemma_member_held(ms, 4);
    lemma_member_held(ms, 5);
}

/// A status as JSON holds each of its figures under its own name.
pub proof fn a_json_status_holds_its_fields(s: StatusView, socket: Seq<char>)
    ensures
        ({
            let o = status_object(s, socket);
            &&& s.account matches Some(a) ==> has_member(o, "account"@, json_string(a))
            &&& s.account is None ==> has_member(o, "account"@, "null"@)
            &&& has_member(o, "accounts"@, decimal(s.accounts))
            &&& has_member(o, "cached"@, decimal(s.cached))
            &&& has_member(o, "folder"@, json_string(s.folder_tag))
            &&& has_member(o, "folder_label"@, json_string(s.folder_label))
            &&& has_member(o, "in_folder"@, decimal(s.in_folder))
            &&& has_member(o, "unread_in_folder"@, decimal(s.unread_in_folder))
            &&& has_member(o, "socket"@, json_string(socket))
            &&& s.syncing ==> has_member(o, "syncing"@, "true"@)
            &&& !s.syncing ==> has_member(o, "syncing"@, "false"@)
            &&& s.selected matches Some(id) ==> has_member(o, "selected"@, decimal(id))
            &&& s.last_sync_secs_ago matches Some(n) ==> has_member(
                o,
                "last_sync_secs_ago"@,
                decimal(n),
            )
        }),
{
    let ms = seq![
        member("account"@, optional_text(s.account)),
        member("accounts"@, decimal(s.accounts)),
        member("cached"@, decimal(s.cached)),
        member("folder"@, json_string(s.folder_tag)),
        member("folder_label"@, json_string(s.folder_label)),
        member("in_folder"@, decimal(s.in_folder)),
        member("last_sync_secs_ago"@, crate::json::optional_number(s.last_sync_secs_ago)),
        member("selected"@, crate::json::optional_number(s.selected)),
        member("socket"@, json_string(socket)),
        member("syncing"@, json_flag(s.syncing)),
        member("unread_in_folder"@, decimal(s.unread_in_folder)),
    ];
    assert(status_object(s, socket) == object_text(ms));
    lemma_member_held(ms, 0);
    lemma_member_held(ms, 1);
    lemma_member_held(ms, 2);
    lemma_member_held(ms, 3);
    lemma_member_held(ms, 4);
    lemma_member_held(ms, 5);
    lemma_member_held(ms, 6);
    lemma_member_held(ms, 7);
    lemma_member_held(ms, 8);
    lemma_member_held(ms, 9);
    lemma_member_held(ms, 10);
}

/// A status in text says whose it is, which folder is shown, how many messages
/// are cached, shown and unread, what is selected, and on which socket.
pub proof fn a_status_says_its_figures(s: StatusView, socket: Seq<char>)
    ensures
        ({
            let t = status_text(s, socket);
            &&& s.account matches Some(a) ==> holds_text(t, "account: "@ + a + " ("@)
            &&& s.account is None ==> holds_text(t, "account: "@ + "(none)"@ + " ("@)
            &&& holds_text(t, decimal(s.accounts) + " configured)\nfolder: "@ + s.folder_tag)
            &&& holds_text(t, decimal(s.cached) + " cached, "@)
            &&& holds_text(t, decimal(s.in_folder) + " in folder, "@)
            &&& holds_text(t, decimal(s.unread_in_folder) + " unread\nselected: "@)
            &&& s.selected matches Some(id) ==> holds_text(
                t,
                " unread\nselected: "@ + decimal(id) + "\nsync: "@,
            )
            &&& s.syncing ==> holds_text(t, "\nsync: "@ + "in flight"@)
            &&& !s.syncing ==> holds_text(t, "\nsync: "@ + "idle"@)
            &&& t.len() >= socket.len()
            &&& t.skip(t.len() - socket.len()) == socket
        }),
{
    let account = match s.account {
        Some(a) => a,
        None => "(none)"@,
    };
    let selected = match s.selected {
        Some(id) => decimal(id),
        None => "none"@,
    };
    let state = if s.syncing {
        "in flight"@
    } else {
        "idle"@
    };
    let last = match s.last_sync_secs_ago {
        Some(secs) => "last started "@ + decimal(secs) + "s ago"@,
        None => "never"@,
    };
    let ps = seq![
        "account: "@,
        account,
        " ("@,
        decimal(s.accounts),
        " configured)\nfolder: "@,
        s.folder_tag,
        " ("@,
        s.folder_label,
        ")\nmessages: "@,
        decimal(s.cached),
        " cached, "@,
        decimal(s.in_folder),
        " in folder, "@,
        decimal(s.unread_in_folder),
        " unread\nselected: "@,
        selected,
        "\nsync: "@,
        state,
        ", "@,
        last,
        "\nsocket: "@,
        socket,
    ];
    let t = status_text(s, socket);
    let e0 = Seq::<char>::empty();
    assert(t == flat(ps, 22)) by {
        reveal_with_fuel(flat, 23);
        assert(e0 + "account: "@ =~= "account: "@);
    }
    assert(holds_text(t, "account: "@ + account + " ("@)) by {
        lemma_pieces_held(ps, 0, 3, 22);
        reveal_with_fuel(between, 5);
        assert(e0 + "account: "@ =~= "account: "@);
    }
    assert(holds_text(t, decimal(s.accounts) + " configured)\nfolder: "@ + s.folder_tag)) by {
        lemma_pieces_held(ps, 3, 6, 22);
        reveal_with_fuel(between, 5);
        assert(e0 + decimal(s.accounts) =~= decimal(s.accounts));
    }
    assert(holds_text(t, decimal(s.cached) + " cached, "@)) by {
        lemma_pieces_held(ps, 9, 11, 22);
        reveal_with_fuel(between, 4);
        assert(e0 + decimal(s.cached) =~= decimal(s.cached));
    }
    assert(holds_text(t, decimal(s.in_folder) + " in folder, "@)) by {
        lemma_pieces_held(ps, 11, 13, 22);
        reveal_with_fuel(between, 4);
        assert(e0 + decimal(s.in_folder) =~= decimal(s.in_folder));
    }
    assert(holds_text(t, decimal(s.unread_in_folder) + " unread\nselected: "@)) by {
        lemma_pieces_held(ps, 13, 15, 22);
        reveal_with_fuel(between, 4);
        assert(e0 + decimal(s.unread_in_folder) =~= decimal(s.unread_in_folder));
    }
    assert(holds_text(t, " unread\nselected: "@ + selected + "\nsync: "@)) by {
        lemma_pieces_held(ps, 14, 17, 22);
        reveal_with_fuel(between, 5);
        assert(e0 + " unread\nselected: "@ =~= " unread\nselected: "@);
    }
    assert(holds_text(t, "\nsync: "@ + state)) by {
        lemma_pieces_held(ps, 16, 18, 22);
        reveal_with_fuel(between, 4);
        assert(e0 + "\nsync: "@ =~= "\nsync: "@);
    }
    assert(t == flat(ps, 21) + socket);
    assert(t.skip(t.len() - socket.len()) =~= socket);
}

} // verus!
