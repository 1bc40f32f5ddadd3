//! The control socket's language: one command line in.
//!
//! [`crate::render`] makes the reply.

use vstd::prelude::*;
use crate::number::{parse_unsigned, parsed};
use crate::scan::{
    join, join_from, split_words, starts_with, text_ends_with, text_starts_with, trim, trim_text,
    words,
};
use crate::text::{opt_text, same, texts, texts_push};

verus! {

/// Rows `list` and `search` return when no `--limit` is given.
pub const DEFAULT_LIMIT: usize = 50;

pub const HELP: &'static str = "\
cce-mail ctl <command> [--json]

  help                          this list
  status                        account, folder, counts, sync state
  accounts                      the configured accounts
  folders                       the selected account's folders, with counts
  list [folder] [--limit N] [--unread]
                                messages in a folder (default: the open one), newest first
  search <words…> [--limit N]   messages whose from/subject/body contain the words, every folder
  get <id>                      one message: headers and the cached text body (a preview, up to 1200 chars)
  open <id>                     show a message in the window (marks it read, like a click)
  mark-read <id>                set the read flag; mirrored to the server for inbox mail
  mark-unread <id>
  select-account <email>
  switch-folder <folder>        by tag (inbox, sent, drafts, trash, …) or label
  sync                          start a sync now
  compose [mailto:…]            open the compose dialog, prefilled from the URL if given
  quit

Text replies are tab-separated rows (list/search: id, read state, folder,
date, from, subject); --json returns JSON instead. Message ids are the app's
own and can change between syncs — take them from a fresh list.";

// ---------------------------------------------------------------------------
// Parsing

#[derive(Debug, Clone, PartialEq)]
pub enum Command {
    Help,
    Status,
    Accounts,
    Folders,
    List { folder: Option<String>, limit: usize, unread: bool },
    Search { query: String, limit: usize },
    Get(usize),
    Open(usize),
    MarkRead(usize, bool),
    SelectAccount(String),
    SwitchFolder(String),
    Sync,
    Compose(Option<String>),
    Quit,
}

#[derive(Debug, Clone, PartialEq)]
pub struct Parsed {
    pub command: Command,
    /// `--json` was given: render the reply as JSON.
    pub json: bool,
}

pub ghost enum CommandView {
    Help,
    Status,
    Accounts,
    Folders,
    List { folder: Option<Seq<char>>, limit: nat, unread: bool },
    Search { query: Seq<char>, limit: nat },
    Get(nat),
    Open(nat),
    MarkRead(nat, bool),
    SelectAccount(Seq<char>),
    SwitchFolder(Seq<char>),
    Sync,
    Compose(Option<Seq<char>>),
    Quit,
}

pub ghost struct ParsedView {
    pub command: CommandView,
    pub json: bool,
}

impl View for Command {
    type V = CommandView;

    open spec fn view(&self) -> CommandView {
        match *self {
            Command::Help => CommandView::Help,
            Command::Status => CommandView::Status,
            Command::Accounts => CommandView::Accounts,
            Command::Folders => CommandView::Folders,
            Command::List { folder, limit, unread } => CommandView::List {
                folder: opt_text(folder),
                limit: limit as nat,
                unread,
            },
            Command::Search { query, limit } => CommandView::Search {
                query: query@,
                limit: limit as nat,
            },
            Command::Get(id) => CommandView::Get(id as nat),
            Command::Open(id) => CommandView::Open(id as nat),
            Command::MarkRead(id, read) => CommandView::MarkRead(id as nat, read),
            Command::SelectAccount(e) => CommandView::SelectAccount(e@),
            Command::SwitchFolder(f) => CommandView::SwitchFolder(f@),
            Command::Sync => CommandView::Sync,
            Command::Compose(u) => CommandView::Compose(opt_text(u)),
            Command::Quit => CommandView::Quit,
        }
    }
}

impl View for Parsed {
    type V = ParsedView;

    open spec fn view(&self) -> ParsedView {
        ParsedView { command: self.command@, json: self.json }
    }
}

/// A text as `{:?}` shows it.
pub uninterp spec fn debug_of(s: Seq<char>) -> Seq<char>;

/// `format!` with `{:?}` for a `str`: the text quoted and escaped, which
/// depends on the text alone.
#[verifier::external_body]
fn debug_text(s: &str) -> (r: String)
    ensures
        r@ == debug_of(s@),
{
    format!("{s:?}")
}

/// The flags of a line, and its other words.
pub ghost struct Flags {
    pub json: bool,
    pub unread: bool,
    pub limit: nat,
    pub words: Seq<Seq<char>>,
}

pub open spec fn no_flags() -> Flags {
    Flags { json: false, unread: false, limit: DEFAULT_LIMIT as nat, words: Seq::empty() }
}

pub open spec fn is_limit_flag(w: Seq<char>) -> bool {
    w == "--limit"@ || w == "-n"@
}

/// What the words `ws` add to `f`.
pub open spec fn read_flags(ws: Seq<Seq<char>>, f: Flags) -> Result<Flags, Seq<char>>
    decreases ws.len(),
{
    if ws.len() == 0 {
        Ok(f)
    } else {
        let w = ws[0];
        if w == "--json"@ {
            read_flags(ws.skip(1), Flags { json: true, ..f })
        } else if w == "--unread"@ {
            read_flags(ws.skip(1), Flags { unread: true, ..f })
        } else if is_limit_flag(w) {
            if ws.len() < 2 {
                Err("--limit needs a number"@)
            } else {
                match parsed(ws[1], usize::MAX as nat) {
                    Some(n) => read_flags(ws.skip(2), Flags { limit: n, ..f }),
                    None => Err("bad limit "@ + debug_of(ws[1])),
                }
            }
        } else if starts_with(w, "--"@) {
            Err("unknown flag "@ + w)
        } else {
            read_flags(ws.skip(1), Flags { words: f.words.push(w), ..f })
        }
    }
}

pub open spec fn one_id(cmd: Seq<char>, rest: Seq<Seq<char>>) -> Result<nat, Seq<char>> {
    if rest.len() == 1 {
        match parsed(rest[0], usize::MAX as nat) {
            Some(n) => Ok(n),
            None => Err("bad message id "@ + debug_of(rest[0])),
        }
    } else {
        Err(cmd + " takes exactly one message id"@)
    }
}

pub open spec fn no_args(cmd: Seq<char>, rest: Seq<Seq<char>>, c: CommandView) -> Result<
    CommandView,
    Seq<char>,
> {
    if rest.len() == 0 {
        Ok(c)
    } else {
        Err(cmd + " takes no arguments"@)
    }
}

/// The command the words of a line name.
pub open spec fn command_of(f: Flags) -> Result<CommandView, Seq<char>> {
    if f.words.len() == 0 {
        Err("empty command (try `help`)"@)
    } else {
        let cmd = f.words[0];
        let rest = f.words.skip(1);
        if cmd == "help"@ {
            no_args(cmd, rest, CommandView::Help)
        } else if cmd == "status"@ {
            no_args(cmd, rest, CommandView::Status)
        } else if cmd == "accounts"@ {
            no_args(cmd, rest, CommandView::Accounts)
        } else if cmd == "folders"@ {
            no_args(cmd, rest, CommandView::Folders)
        } else if cmd == "sync"@ {
            no_args(cmd, rest, CommandView::Sync)
        } else if cmd == "quit"@ {
            no_args(cmd, rest, CommandView::Quit)
        } else if cmd == "list"@ {
            Ok(
                CommandView::List {
                    folder: if rest.len() == 0 {
                        None
                    } else {
                        Some(join(rest, " "@))
                    },
                    limit: f.limit,
                    unread: f.unread,
                },
            )
        } else if cmd == "search"@ {
            if rest.len() == 0 {
                Err("search needs at least one word"@)
            } else {
                Ok(CommandView::Search { query: join(rest, " "@), limit: f.limit })
            }
        } else if cmd == "get"@ {
            match one_id(cmd, rest) {
                Ok(id) => Ok(CommandView::Get(id)),
                Err(e) => Err(e),
            }
        } else if cmd == "open"@ {
            match one_id(cmd, rest) {
                Ok(id) => Ok(CommandView::Open(id)),
                Err(e) => Err(e),
            }
        } else if cmd == "mark-read"@ {
            match one_id(cmd, rest) {
                Ok(id) => Ok(CommandView::MarkRead(id, true)),
                Err(e) => Err(e),
            }
        } else if cmd == "mark-unread"@ {
            match one_id(cmd, rest) {
                Ok(id) => Ok(CommandView::MarkRead(id, false)),
                Err(e) => Err(e),
            }
        } else if cmd == "select-account"@ {
            if rest.len() == 1 {
                Ok(CommandView::SelectAccount(rest[0]))
            } else {
                Err("select-account takes one email address"@)
            }
        } else if cmd == "switch-folder"@ {
            if rest.len() == 0 {
                Err("switch-folder needs a folder tag or label"@)
            } else {
                Ok(CommandView::SwitchFolder(join(rest, " "@)))
            }
        } else if cmd == "compose"@ {
            if rest.len() == 0 {
                Ok(CommandView::Compose(None))
            } else if rest.len() == 1 {
                Ok(CommandView::Compose(Some(rest[0])))
            } else {
                Err("compose takes at most one mailto: URL"@)
            }
        } else {
            Err("unknown command "@ + debug_of(cmd) + " (try `help`)"@)
        }
    }
}

/// What a line of words means.
pub open spec fn meaning(ws: Seq<Seq<char>>) -> Result<ParsedView, Seq<char>> {
    match read_flags(ws, no_flags()) {
        Err(e) => Err(e),
        Ok(f) => match command_of(f) {
            Err(e) => Err(e),
            Ok(command) => Ok(ParsedView { command, json: f.json }),
        },
    }
}

/// The view of a parse.
pub open spec fn result_view<T: View>(r: Result<T, String>) -> Result<T::V, Seq<char>> {
    match r {
        Ok(x) => Ok(x@),
        Err(e) => Err(e@),
    }
}

struct Line {
    json: bool,
    unread: bool,
    limit: usize,
    words: Vec<String>,
}

impl Line {
    spec fn flags(&self) -> Flags {
        Flags {
            json: self.json,
            unread: self.unread,
            limit: self.limit as nat,
            words: texts(self.words@),
        }
    }
}

fn parse_usize(s: &str) -> (r: Option<usize>)
    ensures
        parsed(s@, usize::MAX as nat) == (match r {
            Some(n) => Some(n as nat),
            None => None,
        }),
{
    match parse_unsigned(s, usize::MAX as u64) {
        Some(n) => Some(n as usize),
        None => None,
    }
}

fn read_line_flags(ws: &Vec<String>) -> (r: Result<Line, String>)
    ensures
        read_flags(texts(ws@), no_flags()) == (match r {
            Ok(l) => Ok(l.flags()),
            Err(e) => Err(e@),
        }),
{
    broadcast use texts_push;

    let ghost all = texts(ws@);
    let mut line = Line { json: false, unread: false, limit: DEFAULT_LIMIT, words: Vec::new() };
    let mut i: usize = 0;
    proof {
        assert(all.skip(0) =~= all);
        assert(texts(line.words@) =~= Seq::empty());
    }
    while i < ws.len()
        invariant
            i <= ws@.len(),
            all == texts(ws@),
            read_flags(all, no_flags()) == read_flags(all.skip(i as int), line.flags()),
        decreases ws@.len() - i,
    {
        broadcast use texts_push;

        let ghost rest = all.skip(i as int);
        let w = ws[i].as_str();
        proof {
            assert(rest[0] == w@);
            assert(rest.skip(1) =~= all.skip(i + 1));
        }
        if same(w, "--json") {
            line.json = true;
        } else if same(w, "--unread") {
            line.unread = true;
        } else if same(w, "--limit") || same(w, "-n") {
            if ws.len() - i < 2 {
                return Err("--limit needs a number".to_owned());
            }
            proof {
                assert(rest[1] == ws@[i + 1]@);
                assert(rest.skip(2) =~= all.skip(i + 2));
            }
            match parse_usize(ws[i + 1].as_str()) {
                Some(n) => {
                    line.limit = n;
                    i = i + 1;
                },
                None => {
                    let mut e = "bad limit ".to_owned();
                    e.append(debug_text(ws[i + 1].as_str()).as_str());
                    return Err(e);
                },
            }
        } else if text_starts_with(w, "--") {
            let mut e = "unknown flag ".to_owned();
            e.append(w);
            return Err(e);
        } else {
            line.words.push(w.to_owned());
        }
        i = i + 1;
    }
    proof {
        assert(all.skip(i as int) =~= Seq::empty());
    }
    Ok(line)
}

fn read_id(cmd: &str, words: &Vec<String>) -> (r: Result<usize, String>)
    requires
        words@.len() > 0,
    ensures
        one_id(cmd@, texts(words@).skip(1)) == (match r {
            Ok(n) => Ok(n as nat),
            Err(e) => Err(e@),
        }),
{
    if words.len() == 2 {
        match parse_usize(words[1].as_str()) {
            Some(n) => Ok(n),
            None => {
                let mut e = "bad message id ".to_owned();
                e.append(debug_text(words[1].as_str()).as_str());
                Err(e)
            },
        }
    } else {
        let mut e = cmd.to_owned();
        e.append(" takes exactly one message id");
        Err(e)
    }
}

fn bare(cmd: &str, words: &Vec<String>, c: Command) -> (r: Result<Command, String>)
    requires
        words@.len() > 0,
    ensures
        result_view(r) == no_args(cmd@, texts(words@).skip(1), c@),
{
    if words.len() == 1 {
        Ok(c)
    } else {
        let mut e = cmd.to_owned();
        e.append(" takes no arguments");
        Err(e)
    }
}

#[verifier::rlimit(40)]
fn read_command(line: &Line) -> (r: Result<Command, String>)
    ensures
        result_view(r) == command_of(line.flags()),
{
    let words = &line.words;
    if words.len() == 0 {
        return Err("empty command (try `help`)".to_owned());
    }
    let cmd = words[0].as_str();
    if same(cmd, "help") {
        bare(cmd, words, Command::Help)
    } else if same(cmd, "status") {
        bare(cmd, words, Command::Status)
    } else if same(cmd, "accounts") {
        bare(cmd, words, Command::Accounts)
    } else if same(cmd, "folders") {
        bare(cmd, words, Command::Folders)
    } else if same(cmd, "sync") {
        bare(cmd, words, Command::Sync)
    } else if same(cmd, "quit") {
        bare(cmd, words, Command::Quit)
    } else if same(cmd, "list") {
        // Folder labels can carry spaces ("All Mail"), so the rest is the name.
        let folder = if words.len() == 1 {
            None
        } else {
            Some(join_from(words, 1, " "))
        };
        Ok(Command::List { folder, limit: line.limit, unread: line.unread })
    } else if same(cmd, "search") {
        if words.len() == 1 {
            Err("search needs at least one word".to_owned())
        } else {
            Ok(Command::Search { query: join_from(words, 1, " "), limit: line.limit })
        }
    } else if same(cmd, "get") {
        match read_id(cmd, words) {
            Ok(id) => Ok(Command::Get(id)),
            Err(e) => Err(e),
        }
    } else if same(cmd, "open") {
        match read_id(cmd, words) {
            Ok(id) => Ok(Command::Open(id)),
            Err(e) => Err(e),
        }
    } else if same(cmd, "mark-read") {
        match read_id(cmd, words) {
            Ok(id) => Ok(Command::MarkRead(id, true)),
            Err(e) => Err(e),
        }
    } else if same(cmd, "mark-unread") {
        match read_id(cmd, words) {
            Ok(id) => Ok(Command::MarkRead(id, false)),
            Err(e) => Err(e),
        }
    } else if same(cmd, "select-account") {
        if words.len() == 2 {
            Ok(Command::SelectAccount(words[1].clone()))
        } else {
            Err("select-account takes one email address".to_owned())
        }
    } else if same(cmd, "switch-folder") {
        if words.len() == 1 {
            Err("switch-folder needs a folder tag or label".to_owned())
        } else {
            Ok(Command::SwitchFolder(join_from(words, 1, " ")))
        }
    } else if same(cmd, "compose") {
        if words.len() == 1 {
            Ok(Command::Compose(None))
        } else if words.len() == 2 {
            Ok(Command::Compose(Some(words[1].clone())))
        } else {
            Err("compose takes at most one mailto: URL".to_owned())
        }
    } else {
        let mut e = "unknown command ".to_owned();
        e.append(debug_text(cmd).as_str());
        e.append(" (try `help`)");
        Err(e)
    }
}

/// Parse one command line. Flags (`--json`, `--unread`, `--limit N`) may sit
/// anywhere; the remaining words are the command and its arguments.
pub fn parse(line: &str) -> (r: Result<Parsed, String>)
    ensures
        result_view(r) == meaning(words(line@)),
{
    let ws = split_words(line);
    match read_line_flags(&ws) {
        Err(e) => Err(e),
        Ok(l) => match read_command(&l) {
            Err(e) => Err(e),
            Ok(command) => Ok(Parsed { command, json: l.json }),
        },
    }
}

// ---------------------------------------------------------------------------
// The client

/// What a client has to do for its arguments.
#[derive(Debug, PartialEq)]
pub enum ClientStep {
    /// Print [`HELP`]; no socket is needed.
    ShowHelp,
    /// Send this line and print the reply.
    Send(String),
}

/// The line a client's arguments make.
pub open spec fn client_line_of(args: Seq<Seq<char>>) -> Seq<char> {
    trim(join(args, " "@))
}

pub fn client_step(args: &Vec<String>) -> (r: ClientStep)
    ensures
        ({
            let line = client_line_of(texts(args@));
            match r {
                ClientStep::ShowHelp => line.len() == 0 || line == "help"@,
                ClientStep::Send(s) => s@ == line && line.len() > 0 && line != "help"@,
            }
        }),
{
    let line = trim_text(crate::scan::join_all(args, " ").as_str());
    if line.as_str().is_empty() || same(line.as_str(), "help") {
        ClientStep::ShowHelp
    } else {
        ClientStep::Send(line)
    }
}

/// A client's exit code: 0 on success, 1 when the reply is an error, 2 when
/// none came.
pub open spec fn exit_code_of(reply: Option<Seq<char>>) -> int {
    match reply {
        Some(r) => if starts_with(r, "error:"@) {
            1
        } else {
            0
        },
        None => 2,
    }
}

pub fn exit_code(reply: &Option<String>) -> (r: i32)
    ensures
        r == exit_code_of(opt_text(*reply)),
{
    match reply {
        Some(t) => if text_starts_with(t.as_str(), "error:") {
            1
        } else {
            0
        },
        None => 2,
    }
}

/// A reply as it is written: with a newline at its end.
pub open spec fn reply_written(reply: Seq<char>) -> Seq<char> {
    if crate::scan::ends_with(reply, "\n"@) {
        reply
    } else {
        reply + "\n"@
    }
}

pub fn framed_reply(reply: &str) -> (r: String)
    ensures
        r@ == reply_written(reply@),
{
    let mut out = reply.to_owned();
    if !text_ends_with(reply, "\n") {
        out.append("\n");
    }
    out
}

/// The command line a client sent, without what surrounds it.
pub fn received_line(line: &str) -> (r: String)
    ensures
        r@ == trim(line@),
{
    trim_text(line)
}

// ---------------------------------------------------------------------------
// Laws

/// Every error reply makes a client fail, and the newline it is written with
/// does not change that.
pub proof fn error_replies_fail(msg: Seq<char>)
    ensures
        exit_code_of(Some(reply_written("error: "@ + msg))) == 1,
{
    reveal_strlit("error: ");
    reveal_strlit("error:");
    let reply = "error: "@ + msg;
    let written = reply_written(reply);
    assert(written.take(6) =~= "error:"@) by {
        assert(written.take(6) =~= "error: "@.take(6));
        assert("error: "@.take(6) =~= "error:"@);
    }
}

/// A written reply ends in a newline.
pub proof fn written_replies_end_in_newline(reply: Seq<char>)
    ensures
        crate::scan::ends_with(reply_written(reply), "\n"@),
{
    reveal_strlit("\n");
    let r = reply_written(reply);
    if !crate::scan::ends_with(reply, "\n"@) {
        assert(r.skip(r.len() - 1) =~= "\n"@);
    }
}

pub open spec fn is_switch(w: Seq<char>) -> bool {
    w == "--json"@ || w == "--unread"@
}

/// What a switch does to the flags read so far.
pub open spec fn switched(w: Seq<char>, f: Flags) -> Flags {
    if w == "--json"@ {
        Flags { json: true, ..f }
    } else {
        Flags { unread: true, ..f }
    }
}

proof fn lemma_read_flags_split(a: Seq<Seq<char>>, b: Seq<Seq<char>>, f: Flags)
    requires
        read_flags(a, f) is Ok,
    ensures
        read_flags(a + b, f) == read_flags(b, read_flags(a, f)->Ok_0),
    decreases a.len(),
{
    if a.len() == 0 {
        assert(a + b =~= b);
    } else {
        let w = a[0];
        assert((a + b)[0] == w);
        assert((a + b).skip(1) =~= a.skip(1) + b);
        if w == "--json"@ {
            lemma_read_flags_split(a.skip(1), b, Flags { json: true, ..f });
        } else if w == "--unread"@ {
            lemma_read_flags_split(a.skip(1), b, Flags { unread: true, ..f });
        } else if is_limit_flag(w) {
            assert((a + b)[1] == a[1]);
            assert((a + b).skip(2) =~= a.skip(2) + b);
            let n = parsed(a[1], usize::MAX as nat)->0;
            lemma_read_flags_split(a.skip(2), b, Flags { limit: n, ..f });
        } else {
            lemma_read_flags_split(a.skip(1), b, Flags { words: f.words.push(w), ..f });
        }
    }
}

/// A switch commutes with whatever else is read.
proof fn lemma_switch_commutes(w: Seq<char>, ws: Seq<Seq<char>>, f: Flags)
    requires
        is_switch(w),
    ensures
        read_flags(ws, switched(w, f)) == (match read_flags(ws, f) {
            Ok(g) => Ok::<Flags, Seq<char>>(switched(w, g)),
            Err(e) => Err(e),
        }),
    decreases ws.len(),
{
    if ws.len() > 0 {
        let x = ws[0];
        if x == "--json"@ {
            lemma_switch_commutes(w, ws.skip(1), Flags { json: true, ..f });
        } else if x == "--unread"@ {
            lemma_switch_commutes(w, ws.skip(1), Flags { unread: true, ..f });
        } else if is_limit_flag(x) {
            if ws.len() >= 2 {
                if let Some(n) = parsed(ws[1], usize::MAX as nat) {
                    lemma_switch_commutes(w, ws.skip(2), Flags { limit: n, ..f });
                }
            }
        } else if !starts_with(x, "--"@) {
            lemma_switch_commutes(w, ws.skip(1), Flags { words: f.words.push(x), ..f });
        }
    }
}

/// A switch may sit anywhere but where a number is due: after any words that
/// are complete in themselves it means what it means at the front.
pub proof fn switches_may_sit_anywhere(a: Seq<Seq<char>>, w: Seq<char>, b: Seq<Seq<char>>)
    requires
        is_switch(w),
        read_flags(a, no_flags()) is Ok,
    ensures
        meaning(a + seq![w] + b) == meaning(seq![w] + a + b),
{
    let f = no_flags();
    let mid = read_flags(a, f)->Ok_0;
    lemma_read_flags_split(a, seq![w] + b, f);
    assert(a + seq![w] + b =~= a + (seq![w] + b));
    assert((seq![w] + b).skip(1) =~= b);
    assert(read_flags(seq![w] + b, mid) == read_flags(b, switched(w, mid)));
    assert(seq![w] + a + b =~= seq![w] + (a + b));
    assert((seq![w] + (a + b)).skip(1) =~= a + b);
    assert(read_flags(seq![w] + (a + b), f) == read_flags(a + b, switched(w, f)));
    lemma_switch_commutes(w, a, f);
    lemma_read_flags_split(a, b, switched(w, f));
}

/// So may a limit: `--limit` and its number mean the same after any words
/// that are complete in themselves, unless a later limit overrides both.
pub proof fn limits_may_sit_anywhere(
    a: Seq<Seq<char>>,
    flag: Seq<char>,
    number: Seq<char>,
    b: Seq<Seq<char>>,
)
    requires
        is_limit_flag(flag),
        parsed(number, usize::MAX as nat) is Some,
        read_flags(a, no_flags()) is Ok,
        forall|i: int| 0 <= i < a.len() ==> !is_limit_flag(#[trigger] a[i]),
    ensures
        meaning(a + seq![flag, number] + b) == meaning(seq![flag, number] + a + b),
{
    reveal_strlit("--limit");
    reveal_strlit("-n");
    reveal_strlit("--json");
    reveal_strlit("--unread");
    assert("--limit"@.len() == 7 && "-n"@.len() == 2 && "--json"@.len() == 6);
    assert("--unread"@.len() == 8);
    let f = no_flags();
    let n = parsed(number, usize::MAX as nat)->0;
    let pair = seq![flag, number];
    let mid = read_flags(a, f)->Ok_0;
    lemma_read_flags_split(a, pair + b, f);
    assert(a + pair + b =~= a + (pair + b));
    assert((pair + b).skip(2) =~= b);
    assert(read_flags(pair + b, mid) == read_flags(b, Flags { limit: n, ..mid }));
    assert(pair + a + b =~= pair + (a + b));
    assert((pair + (a + b)).skip(2) =~= a + b);
    assert(read_flags(pair + (a + b), f) == read_flags(a + b, Flags { limit: n, ..f }));
    lemma_limit_commutes(n, a, f);
    lemma_read_flags_split(a, b, Flags { limit: n, ..f });
}

proof fn lemma_limit_commutes(n: nat, ws: Seq<Seq<char>>, f: Flags)
    requires
        forall|i: int| 0 <= i < ws.len() ==> !is_limit_flag(#[trigger] ws[i]),
    ensures
        read_flags(ws, Flags { limit: n, ..f }) == (match read_flags(ws, f) {
            Ok(g) => Ok::<Flags, Seq<char>>(Flags { limit: n, ..g }),
            Err(e) => Err(e),
        }),
    decreases ws.len(),
{
    if ws.len() > 0 {
        let x = ws[0];
        let t = ws.skip(1);
        assert forall|i: int| 0 <= i < t.len() implies !is_limit_flag(#[trigger] t[i]) by {
            assert(t[i] == ws[i + 1]);
        }
        if x == "--json"@ {
            lemma_limit_commutes(n, t, Flags { json: true, ..f });
        } else if x == "--unread"@ {
            lemma_limit_commutes(n, t, Flags { unread: true, ..f });
        } else if !starts_with(x, "--"@) {
            lemma_limit_commutes(n, t, Flags { words: f.words.push(x), ..f });
        }
    }
}

} // verus!
