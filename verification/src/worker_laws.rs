//! What holds of the workers: where they connect and as whom, what they ask a
//! server for, and what they make of the answers.
use vstd::prelude::*;

use crate::accounts::{
    after_event, cache_name, dropdown_options, is_mock, remembered, SecretEventView, SecretStep,
};
use crate::fetch::{
    ascending, fetching_text, finished, held, missing, newest, part_paths, part_query_text,
    pending_in, seen_in_reply, text_requests_for, uids_at, uids_without_part, wanted,
    whole_query_text, with_replies, PendingView,
};
use crate::fetch_laws::ascending_is_sorted;
use crate::jobs::{
    delete_after, delete_says, delete_step, part_after, part_start, part_step, save_after,
    save_start, save_step, seen_after, seen_step, send_goes_on, send_says, send_start, send_step,
    sync_order, DeleteStage, PartReplyView, PartStepView, SaveReplyView, SaveStepView, SaveView,
    SeenStage, SendReply, SendStepView, SendView, ServerStepView, SyncStage, SyncView,
};
use crate::message::decoded;
use crate::model::{AccountView, OutgoingView, RemoteAttachmentView};
use crate::net::{
    after_refresh, candidate, domain_of, mailboxes_of, oauth_text, own_or, port_of, refresh_outcome,
    token_step_of, RefreshView, Security, TokenView,
};
use crate::number::{decimal, decimal_reads_back, is_digit, parsed};
use crate::outgoing::{is_outgoing, outgoing_problem};
use crate::pass::{
    folder_step, fresh_pass, pass_after, pass_result, pass_says, FolderReply, FolderStepView,
    KindView, PassView, Stage,
};
use crate::path::{below, file_name};
use crate::scan::{join, part_at, replace, split, trim};
use crate::session::{
    open_step, opening_after, opening_of, opening_says, OpenReplyView, OpenStepView, OpeningView,
    SaidView,
};
use crate::structure::decimals;
use crate::text::is_space;
use crate::text_laws::{
    a_file_name_follows_the_last_slash, holds_text, lemma_holds, lemma_last_is, lemma_split_first,
    lemma_split_none, splitting_undoes_joining,
};

verus! {

// ---------------------------------------------------------------------------
// Endpoints

pub open spec fn lacks(s: Seq<char>, c: char) -> bool {
    forall|i: int| 0 <= i < s.len() ==> s[i] != c
}

proof fn lemma_decimal_lacks(n: nat, c: char)
    requires
        !is_digit(c),
    ensures
        lacks(decimal(n), c),
        decimal(n).len() > 0,
{
    decimal_reads_back(n, n);
}

/// A server text is a host, or a host and a port with a colon between them. A
/// port that is no number counts as none.
pub proof fn a_server_is_a_host_and_a_port(
    host: Seq<char>,
    port: u16,
    word: Seq<char>,
    default: u16,
)
    requires
        lacks(host, ':'),
        lacks(word, ':'),
        parsed(word, u16::MAX as nat) is None,
    ensures
        domain_of(host) == host,
        port_of(host, default) == default,
        domain_of(host + seq![':'] + decimal(port as nat)) == host,
        port_of(host + seq![':'] + decimal(port as nat), default) == port,
        domain_of(host + seq![':'] + word) == host,
        port_of(host + seq![':'] + word, default) == default,
{
    lemma_split_none(host, ':');
    lemma_decimal_lacks(port as nat, ':');
    decimal_reads_back(port as nat, u16::MAX as nat);
    lemma_split_none(decimal(port as nat), ':');
    lemma_split_first(host, ':', decimal(port as nat));
    lemma_split_none(word, ':');
    lemma_split_first(host, ':', word);
}

/// An OAuth login names its user first and its token second, each in its own
/// field.
pub proof fn an_oauth_login_names_user_and_token(user: Seq<char>, token: Seq<char>)
    requires
        lacks(user, '\u{1}'),
        lacks(token, '\u{1}'),
    ensures
        ({
            let fields = split(oauth_text(user, token), '\u{1}');
            &&& fields.len() == 4
            &&& fields[0] == "user="@ + user
            &&& fields[1] == "auth=Bearer "@ + token
            &&& fields[2].len() == 0
            &&& fields[3].len() == 0
        }),
{
    reveal_strlit("user=");
    reveal_strlit("auth=Bearer ");
    reveal_strlit("\u{1}auth=Bearer ");
    reveal_strlit("\u{1}\u{1}");
    let a = "user="@ + user;
    let b = "auth=Bearer "@ + token;
    let e = Seq::<char>::empty();
    assert("\u{1}auth=Bearer "@ =~= seq!['\u{1}'] + "auth=Bearer "@);
    assert(oauth_text(user, token) =~= a + seq!['\u{1}'] + (b + seq!['\u{1}'] + (e + seq!['\u{1}']
        + e)));
    assert forall|i: int| 0 <= i < a.len() implies a[i] != '\u{1}' by {
        if i >= 5 {
            assert(a[i] == user[i - 5]);
        }
    }
    assert forall|i: int| 0 <= i < b.len() implies b[i] != '\u{1}' by {
        if i >= 12 {
            assert(b[i] == token[i - 12]);
        }
    }
    lemma_split_first(a, '\u{1}', b + seq!['\u{1}'] + (e + seq!['\u{1}'] + e));
    lemma_split_first(b, '\u{1}', e + seq!['\u{1}'] + e);
    lemma_split_first(e, '\u{1}', e);
    lemma_split_none(e, '\u{1}');
}

// ---------------------------------------------------------------------------
// Tokens

/// An OAuth account uses its token while that lasts for more than five more
/// minutes, asks for another one with its refresh token after that, and fails
/// without one. No other account has a token.
pub proof fn a_token_is_used_then_renewed(a: AccountView, token: Seq<char>, expiry: u64, now: u64)
    ensures
        !a.is_oauth ==> token_step_of(a, now) is Fail,
        a.is_oauth && a.access_token == Some(token) && a.token_expiry == Some(expiry) && now + 300
            < expiry ==> token_step_of(a, now) == TokenView::Use(token),
        a.is_oauth && (a.access_token is None || a.token_expiry is None || a.token_expiry->0 <= now
            + 300) ==> match a.refresh_token {
            Some(t) => token_step_of(a, now) == TokenView::Refresh(t),
            None => token_step_of(a, now) is Fail,
        },
{
}

/// A token that was granted is the one to use from then on, until five minutes
/// before it expires; one with no time given lasts an hour. Whatever else the
/// account holds stays.
pub proof fn a_granted_token_is_used(
    a: AccountView,
    token: Seq<char>,
    lasts: Option<u64>,
    now: u64,
    later: u64,
)
    requires
        a.is_oauth,
        now + 3600 <= u64::MAX,
        lasts matches Some(n) ==> now + n <= u64::MAX,
        later + 300 < now + (match lasts {
            Some(n) => n as int,
            None => 3600,
        }),
    ensures
        ({
            let reply = RefreshView::Granted(Some(token), lasts);
            let b = after_refresh(a, reply, now);
            &&& refresh_outcome(reply) == Ok::<Seq<char>, Seq<char>>(token)
            &&& token_step_of(b, later) == TokenView::Use(token)
            &&& b.token_expiry == Some((now + (match lasts {
                Some(n) => n as int,
                None => 3600,
            })) as u64)
            &&& b == (AccountView { access_token: b.access_token, token_expiry: b.token_expiry, ..a
            })
        }),
{
}

/// A refresh that brought nothing leaves the account as it is, and says why.
pub proof fn a_refused_token_says_why(a: AccountView, reply: RefreshView, now: u64)
    ensures
        !(reply is Granted) ==> after_refresh(a, reply, now) == a && refresh_outcome(reply) is Err,
        reply matches RefreshView::Unreachable(e) ==> holds_text(refresh_outcome(reply)->Err_0, e),
        reply matches RefreshView::Refused(status, text) ==> holds_text(
            refresh_outcome(reply)->Err_0,
            status,
        ) && holds_text(refresh_outcome(reply)->Err_0, text) && holds_text(
            refresh_outcome(reply)->Err_0,
            status + ", error: "@ + text,
        ),
        reply matches RefreshView::Granted(None, _) ==> refresh_outcome(reply) == Ok::<
            Seq<char>,
            Seq<char>,
        >(Seq::empty()),
{
    match reply {
        RefreshView::Unreachable(e) => {
            let h = "Refresh request request failed: "@ + e;
            assert(h =~= "Refresh request request failed: "@ + e + Seq::<char>::empty());
            lemma_holds(h, "Refresh request request failed: "@, e, Seq::empty());
        },
        RefreshView::Refused(s, t) => {
            let a0 = "Refresh request failed status: "@;
            let m = ", error: "@;
            let h = a0 + s + m + t;
            assert(h =~= a0 + s + (m + t));
            lemma_holds(h, a0, s, m + t);
            assert(h =~= (a0 + s + m) + t + Seq::<char>::empty());
            lemma_holds(h, a0 + s + m, t, Seq::empty());
            assert(h =~= a0 + (s + m + t) + Seq::<char>::empty());
            lemma_holds(h, a0, s + m + t, Seq::empty());
        },
        _ => {},
    }
}

/// What an account has of its own goes before what is configured.
pub proof fn an_account_s_own_value_comes_first(own: Seq<char>, configured: Seq<char>)
    ensures
        own_or(Some(own), configured) == own,
        own_or(None, configured) == configured,
{
}

// ---------------------------------------------------------------------------
// Opening a session

/// An account with a password connects to its IMAP server, on port 993 where
/// none is named, and logs in with its address and its password.
pub proof fn a_password_opens_a_session(a: AccountView)
    requires
        !a.is_oauth,
    ensures
        ({
            let o = opening_of(a);
            let p = opening_after(o, OpenReplyView::Done);
            let q = opening_after(p, OpenReplyView::Done);
            &&& open_step(o) matches OpenStepView::Connect { domain, port, note } && domain
                == domain_of(a.imap) && port == port_of(a.imap, 993) && holds_text(note, a.imap)
            &&& open_step(p) == OpenStepView::Login(a.email, a.password)
            &&& open_step(q) is Opened
            &&& q.account == a
        }),
{
    lemma_holds("Connecting to "@ + a.imap + "..."@, "Connecting to "@, a.imap, "..."@);
}

/// An OAuth account comes by a token first, and logs in with its address and
/// that token. The account holds the tokens from then on.
pub proof fn a_token_opens_a_session(
    a: AccountView,
    token: Seq<char>,
    access: Option<Seq<char>>,
    expiry: Option<u64>,
)
    requires
        a.is_oauth,
    ensures
        ({
            let o = opening_of(a);
            let reply = OpenReplyView::Token(token, access, expiry);
            let p = opening_after(o, reply);
            let q = opening_after(p, OpenReplyView::Done);
            let r = opening_after(q, OpenReplyView::Done);
            &&& open_step(o) is Token
            &&& opening_says(o, reply) == seq![SaidView::Tokens(a.email, access, expiry)]
            &&& open_step(p) matches OpenStepView::Connect { domain, port, note } && domain
                == domain_of(a.imap) && port == port_of(a.imap, 993) && holds_text(note, a.imap)
            &&& open_step(q) == OpenStepView::Authenticate(oauth_text(a.email, token))
            &&& open_step(r) is Opened
            &&& r.account == (AccountView { access_token: access, token_expiry: expiry, ..a })
        }),
{
    lemma_holds("Connecting to "@ + a.imap + "..."@, "Connecting to "@, a.imap, "..."@);
}

/// A session that fails to open names the step that failed and why, and is not
/// opened any more.
pub proof fn a_failed_opening_names_its_step(o: OpeningView, why: Seq<char>)
    ensures
        ({
            let reply = OpenReplyView::Failed(why);
            let says = opening_says(o, reply);
            let up = o.stage is Token || o.stage is Connect || o.stage is Login;
            &&& up ==> open_step(opening_after(o, reply)) is Failed && says.len() == 1
            &&& o.stage is Token ==> says[0] == SaidView::Error("OAuth Refresh Failed: "@ + why)
            &&& o.stage is Connect ==> says[0] == SaidView::Error(
                "IMAP Connection failed: "@ + why,
            )
            &&& o.stage is Login && o.account.is_oauth ==> says[0] == SaidView::Error(
                "IMAP OAuth Login failed: "@ + why,
            )
            &&& o.stage is Login && !o.account.is_oauth ==> says[0] == SaidView::Error(
                "IMAP Login failed: "@ + why,
            )
            &&& !up ==> says.len() == 0 && opening_after(o, reply) == o
        }),
        o.stage is Connect ==> open_step(opening_after(o, OpenReplyView::NoTls)) is Failed
            && opening_says(o, OpenReplyView::NoTls) == seq![
            SaidView::Error("Failed to create TLS connector"@),
        ],
{
}

// ---------------------------------------------------------------------------
// Mailboxes and names

/// The sent folder is looked for under two names, one after the other; any
/// other folder is the inbox. A sync asks for the inbox first and then for the
/// sent folder, under the names that an attachment is looked for later.
pub proof fn folders_are_found_where_they_were_synced(s: SyncView, i: usize)
    ensures
        forall|folder: Seq<char>|
            folder != "sent"@ ==> #[trigger] mailboxes_of(folder) == seq!["INBOX"@],
        mailboxes_of("sent"@) == seq!["[Gmail]/Sent Mail"@, "Sent"@],
        s.stage is Inbox ==> (sync_order(s) matches Some(o) && o.folder == "inbox"@ && o.mailbox
            == mailboxes_of(o.folder)[0] && o.verbose),
        s.stage == SyncStage::Sent(i) && i < 2 ==> (sync_order(s) matches Some(o) && o.folder
            == "sent"@ && o.mailbox == mailboxes_of(o.folder)[i as int] && !o.verbose),
        s.stage is Report || s.stage is Over ==> sync_order(s) is None,
{
    reveal_strlit("inbox");
    reveal_strlit("sent");
    assert("inbox"@.len() != "sent"@.len());
}

/// A name is tried as it is first, and then with a number before its
/// extension. Where the server names directories, its last part counts alone.
pub proof fn a_number_goes_before_the_extension(
    dir: Seq<char>,
    stem: Seq<char>,
    ext: Seq<char>,
    n: nat,
)
    requires
        stem.len() > 0,
        lacks(stem, '/'),
        lacks(ext, '/'),
        lacks(ext, '.'),
        stem + seq!['.'] + ext != seq!['.', '.'],
        n > 0,
    ensures
        ({
            let name = stem + seq!['.'] + ext;
            &&& candidate(name, 0) == name
            &&& candidate(dir + seq!['/'] + name, 0) == name
            &&& candidate(name, n) == stem + seq![' ', '('] + decimal(n) + seq![')', '.'] + ext
            &&& candidate(dir + seq!['/'] + name, n) == candidate(name, n)
        }),
{
    let name = stem + seq!['.'] + ext;
    assert forall|i: int| 0 <= i < name.len() implies name[i] != '/' by {
        if i > stem.len() {
            assert(name[i] == ext[i - stem.len() - 1]);
        }
    }
    assert(name.len() >= 2);
    a_file_name_follows_the_last_slash(dir, name);
    assert forall|i: int| stem.len() < i < name.len() implies name[i] != '.' by {
        assert(name[i] == ext[i - stem.len() - 1]);
    }
    lemma_last_is(name, '.', stem.len() as int);
    assert(name.take(stem.len() as int) =~= stem);
    assert(name.skip(stem.len() as int + 1) =~= ext);
    reveal_strlit(" (");
    reveal_strlit(")");
    reveal_strlit(".");
    assert(" ("@ =~= seq![' ', '(']);
    assert(stem + " ("@ + decimal(n) + ")"@ + ("."@ + ext) =~= stem + seq![' ', '('] + decimal(n)
        + seq![')', '.'] + ext);
}

/// A name without an extension gets its number at its end.
pub proof fn a_number_ends_a_bare_name(name: Seq<char>, n: nat)
    requires
        name.len() > 0,
        lacks(name, '/'),
        lacks(name, '.'),
        n > 0,
    ensures
        candidate(name, 0) == name,
        candidate(name, n) == name + seq![' ', '('] + decimal(n) + seq![')'],
{
    if name == seq!['.', '.'] {
        assert(name[0] == '.');
    }
    if name == seq!['.'] {
        assert(name[0] == '.');
    }
    a_file_name_follows_the_last_slash(Seq::empty(), name);
    crate::scan::lemma_last_index(name, '.');
    reveal_strlit(" (");
    reveal_strlit(")");
    assert(" ("@ =~= seq![' ', '(']);
    assert(")"@ =~= seq![')']);
    assert(name + " ("@ + decimal(n) + ")"@ + Seq::<char>::empty() =~= name + seq![' ', '(']
        + decimal(n) + seq![')']);
}

// ---------------------------------------------------------------------------
// Changing a message

/// The text of a step's messages, where it names any.
pub open spec fn step_uids(step: ServerStepView) -> Option<Seq<char>> {
    match step {
        ServerStepView::Copy(u, _) => Some(u),
        ServerStepView::Store(u, _) => Some(u),
        ServerStepView::Expunge(u) => Some(u),
        _ => None,
    }
}

/// A deletion is of its own message, in the inbox: every step that names
/// messages names that one alone.
pub proof fn a_deletion_is_of_its_message(uid: u32, stage: DeleteStage)
    ensures
        step_uids(delete_step(uid, stage)) matches Some(u) ==> parsed(u, u32::MAX as nat) == Some(
            uid as nat,
        ) && lacks(u, ',') && lacks(u, ':') && lacks(u, '*'),
        stage is Copy || stage is Store || stage is Expunge ==> step_uids(delete_step(uid, stage))
            is Some,
        delete_step(uid, DeleteStage::Select) == ServerStepView::Select("INBOX"@),
{
    decimal_reads_back(uid as nat, u32::MAX as nat);
    lemma_decimal_lacks(uid as nat, ',');
    lemma_decimal_lacks(uid as nat, ':');
    lemma_decimal_lacks(uid as nat, '*');
}

/// A deletion whose steps all work selects the inbox, copies the message to
/// the trash, marks it as deleted, removes it and is over; it says that the
/// message is gone.
pub proof fn a_deletion_takes_its_course(uid: u32)
    ensures
        ({
            let set = decimal(uid as nat);
            let a = DeleteStage::Select;
            let b = delete_after(a, true);
            let c = delete_after(b, true);
            let d = delete_after(c, true);
            let e = delete_after(d, true);
            &&& delete_step(uid, b) == ServerStepView::Copy(set, "[Gmail]/Trash"@)
            &&& delete_step(uid, c) == ServerStepView::Store(set, "+FLAGS (\\Deleted)"@)
            &&& delete_step(uid, d) == ServerStepView::Expunge(set)
            &&& delete_step(uid, e) == ServerStepView::Logout
            &&& delete_says(a, None).len() == 0
            &&& delete_says(b, None).len() == 0
            &&& delete_says(c, None).len() == 0
            &&& delete_says(d, None) == seq![SaidView::Note("Deleted on server"@)]
        }),
{
}

/// A trash that cannot be had is tried under its other name, and then done
/// without; a message that cannot be removed alone is removed with all that
/// are marked. An inbox that cannot be selected, or a message that cannot be
/// marked, ends it with a word on why.
pub proof fn a_deletion_gets_over_failures(uid: u32, why: Seq<char>)
    ensures
        ({
            let set = decimal(uid as nat);
            let b = delete_after(DeleteStage::Select, true);
            let b2 = delete_after(b, false);
            let c = delete_after(b2, false);
            let d = delete_after(c, true);
            let e = delete_after(d, false);
            &&& delete_step(uid, b2) == ServerStepView::Copy(set, "Trash"@)
            &&& delete_says(b, Some(why)).len() == 0
            &&& delete_says(b2, Some(why)).len() == 0
            &&& delete_after(b2, true) == c
            &&& delete_step(uid, c) == ServerStepView::Store(set, "+FLAGS (\\Deleted)"@)
            &&& delete_step(uid, e) == ServerStepView::ExpungeAll
            &&& delete_says(e, Some(why)) == seq![SaidView::Note("Deleted on server"@)]
            &&& delete_says(e, None) == seq![SaidView::Note("Deleted on server"@)]
            &&& delete_step(uid, delete_after(DeleteStage::Select, false))
                == ServerStepView::Logout
            &&& delete_says(DeleteStage::Select, Some(why)) == seq![
                SaidView::Error("Failed to select INBOX: "@ + why),
            ]
            &&& delete_step(uid, delete_after(c, false)) == ServerStepView::Logout
            &&& delete_says(c, Some(why)) == seq![SaidView::Error("Server delete failed: "@ + why)]
        }),
{
}

/// A read flag is pushed to its own message, in the inbox: set for a message
/// that was read, taken off for one that was not.
pub proof fn a_read_flag_is_pushed(uid: u32, seen: bool)
    ensures
        ({
            let b = seen_after(SeenStage::Select, true);
            &&& seen_step(uid, seen, SeenStage::Select) == ServerStepView::Select("INBOX"@)
            &&& seen_step(uid, seen, b) matches ServerStepView::Store(u, flags) && parsed(
                u,
                u32::MAX as nat,
            ) == Some(uid as nat) && lacks(u, ',') && flags.skip(1) == "FLAGS (\\Seen)"@
                && flags[0] == (if seen {
                '+'
            } else {
                '-'
            })
            &&& seen_step(uid, seen, seen_after(b, true)) == ServerStepView::Logout
            &&& seen_step(uid, seen, seen_after(b, false)) == ServerStepView::Logout
            &&& seen_step(uid, seen, seen_after(SeenStage::Select, false))
                == ServerStepView::Logout
        }),
{
    decimal_reads_back(uid as nat, u32::MAX as nat);
    lemma_decimal_lacks(uid as nat, ',');
    reveal_strlit("+FLAGS (\\Seen)");
    reveal_strlit("-FLAGS (\\Seen)");
    reveal_strlit("FLAGS (\\Seen)");
    assert("+FLAGS (\\Seen)"@.skip(1) =~= "FLAGS (\\Seen)"@);
    assert("-FLAGS (\\Seen)"@.skip(1) =~= "FLAGS (\\Seen)"@);
}

// ---------------------------------------------------------------------------
// Saving a file

/// Another name that is taken.
pub open spec fn after_taken(s: SaveView, n: nat) -> SaveView
    decreases n,
{
    if n == 0 {
        s
    } else {
        save_after(after_taken(s, (n - 1) as nat), SaveReplyView::Taken)
    }
}

/// The downloads directory below the home directory.
pub open spec fn downloads(home: Seq<char>) -> Seq<char> {
    below(home, "Downloads"@)
}

proof fn lemma_after_taken(home: Seq<char>, name: Seq<char>, n: u64)
    ensures
        ({
            let s = save_after(save_start(Some(home), name), SaveReplyView::Worked);
            after_taken(s, n as nat) == (SaveView { tried: n, ..s })
        }),
    decreases n,
{
    if n > 0 {
        lemma_after_taken(home, name, (n - 1) as u64);
    }
}

/// A file is saved in the downloads directory, which is made first, under the
/// first name that is free, and reported where it was written.
pub proof fn a_file_is_saved_under_the_first_free_name(
    home: Seq<char>,
    name: Seq<char>,
    taken: u64,
    why: Seq<char>,
)
    ensures
        ({
            let s = save_start(Some(home), name);
            let p = after_taken(save_after(s, SaveReplyView::Worked), taken as nat);
            let w = save_after(p, SaveReplyView::Worked);
            let d = save_after(w, SaveReplyView::Worked);
            let f = save_after(w, SaveReplyView::Failed(why));
            let at = below(downloads(home), candidate(name, taken as nat));
            &&& save_step(s) == SaveStepView::CreateDirectory(downloads(home))
            &&& save_step(p) == SaveStepView::Probe(at)
            &&& save_step(w) == SaveStepView::Write(at)
            &&& save_step(d) == SaveStepView::Done(Ok(at))
            &&& save_step(f) matches SaveStepView::Done(Err(e)) && e == "Cannot write "@ + at
                + ": "@ + why
            &&& save_step(save_after(s, SaveReplyView::Failed(why))) matches SaveStepView::Done(
                Err(e),
            ) && e == "Cannot create "@ + downloads(home) + ": "@ + why
        }),
        save_step(save_start(None, name)) is Done,
        save_step(save_start(None, name))->Done_0 is Err,
{
    lemma_after_taken(home, name, taken);
}

/// A file stands below its directory, whether or not that ends in a slash, and
/// under its own name.
pub proof fn a_file_stands_below_its_directory(dir: Seq<char>, name: Seq<char>)
    requires
        dir.len() > 0,
        dir.last() != '/',
        name.len() > 0,
        name != seq!['.'],
        name != seq!['.', '.'],
        lacks(name, '/'),
    ensures
        below(dir, name) == dir + seq!['/'] + name,
        below(dir.push('/'), name) == dir + seq!['/'] + name,
        file_name(below(dir, name)) == Some(name),
        below(Seq::empty(), name) == name,
{
    assert(dir.push('/') =~= dir + seq!['/']);
    assert(dir.push('/').last() == '/');
    a_file_name_follows_the_last_slash(dir, name);
    assert(Seq::<char>::empty() + name =~= name);
}

// ---------------------------------------------------------------------------
// Fetching an attachment

/// An attachment is fetched off its own message, from the first mailbox of the
/// folder that can be selected, decoded as the message said, and saved under
/// its name; where it was saved is what is reported.
pub proof fn an_attachment_comes_off_its_message(
    a: AccountView,
    folder: Seq<char>,
    uid: u32,
    at: RemoteAttachmentView,
    bytes: Seq<u8>,
    outcome: Result<Seq<char>, Seq<char>>,
)
    requires
        !is_mock(a),
        at.section.len() > 0,
    ensures
        ({
            let s = part_start(a, folder, uid, at);
            let f = part_after(s, PartReplyView::Selected(true));
            let g = part_after(f, PartReplyView::Part(Some(bytes)));
            let d = part_after(g, PartReplyView::Saved(outcome));
            &&& part_step(s) == PartStepView::Select(mailboxes_of(folder)[0])
            &&& part_step(f) matches PartStepView::Fetch(set, query, path) && parsed(
                set,
                u32::MAX as nat,
            ) == Some(uid as nat) && path == at.section && holds_text(
                query,
                join(decimals(at.section), "."@),
            ) && split(join(decimals(at.section), "."@), '.') == decimals(at.section)
            &&& part_step(g) == PartStepView::Save(at.name)
            &&& g.contents == decoded(at.encoding, bytes)
            &&& part_step(d) == PartStepView::Done(outcome)
        }),
{
    decimal_reads_back(uid as nat, u32::MAX as nat);
    let sec = join(decimals(at.section), "."@);
    lemma_holds("(BODY.PEEK["@ + sec + "])"@, "(BODY.PEEK["@, sec, "])"@);
    lemma_decimals_read_back(at.section, '.');
    reveal_strlit(".");
    assert("."@ =~= seq!['.']);
}

proof fn lemma_decimals_read_back(ns: Seq<u32>, c: char)
    requires
        ns.len() > 0,
        !is_digit(c),
    ensures
        split(join(decimals(ns), seq![c]), c) == decimals(ns),
{
    let ds = decimals(ns);
    assert forall|i: int, k: int|
        0 <= i < ds.len() && 0 <= k < (#[trigger] ds[i]).len() implies #[trigger] ds[i][k] != c by {
        lemma_decimal_lacks(ns[i] as nat, c);
    }
    splitting_undoes_joining(ds, c);
}

/// An attachment that cannot be had is reported with the reason: the demo
/// account has none, no mailbox may be selected, the fetch may fail or bring
/// nothing.
pub proof fn a_missing_attachment_is_reported(
    a: AccountView,
    folder: Seq<char>,
    uid: u32,
    at: RemoteAttachmentView,
    why: Seq<char>,
)
    ensures
        ({
            let s = part_start(a, folder, uid, at);
            let f = part_after(s, PartReplyView::Selected(true));
            let n = part_after(s, PartReplyView::Selected(false));
            let m = part_after(n, PartReplyView::Selected(false));
            &&& is_mock(a) ==> part_step(s) == PartStepView::Done(
                Err("This account has no server copy"@),
            )
            &&& !is_mock(a) && folder == "sent"@ ==> part_step(n) == PartStepView::Select("Sent"@)
                && part_step(m) == PartStepView::Done(Err("Cannot select mailbox"@))
                && part_step(part_after(n, PartReplyView::Selected(true))) == part_step(f)
            &&& !is_mock(a) && folder != "sent"@ ==> part_step(n) == PartStepView::Done(
                Err("Cannot select mailbox"@),
            )
            &&& !is_mock(a) ==> part_step(part_after(f, PartReplyView::Part(None)))
                == PartStepView::Done(Err("Server returned no data for the part"@))
            &&& !is_mock(a) ==> part_step(part_after(f, PartReplyView::Failed(why)))
                == PartStepView::Done(Err("Fetch failed: "@ + why))
        }),
{
}

// ---------------------------------------------------------------------------
// Sending

/// A mail goes over the account's SMTP server, by TLS on port 465, which is
/// taken where none is named, and by an upgrade on any other; the login is the
/// account's address, with its password or else the token that was come by.
pub proof fn a_mail_goes_over_its_account(a: AccountView, mail: OutgoingView, reply: SendReply, t: SendView)
    requires
        a.password != "mock_password"@,
        send_goes_on(send_start(a, mail), reply, t),
    ensures
        ({
            let s = send_start(a, mail);
            &&& a.is_oauth ==> send_step(s) is Token
            &&& !a.is_oauth ==> (send_step(s) matches SendStepView::Read(note, files) && files
                == mail.attachments)
            &&& a.is_oauth ==> (reply matches SendReply::Token(token, access, expiry) ==> t.token
                == token@ && (send_step(t) matches SendStepView::Read(_, files) && files
                == mail.attachments) && t.account.smtp == a.smtp && t.account.email == a.email)
            &&& !a.is_oauth ==> t.token == a.password
        }),
{
}

/// The hand-over of a mail that is built.
pub proof fn a_built_mail_is_handed_over(s: SendView)
    requires
        s.stage is Deliver,
    ensures
        send_step(s) matches SendStepView::Deliver(d) && d.domain == domain_of(s.account.smtp)
            && d.port == port_of(s.account.smtp, 465) && d.user == s.account.email && d.secret
            == s.token && d.oauth == s.account.is_oauth && (d.security == Security::Tls <==> d.port
            == 465),
{
}

/// A mail is built from its files once they are read, or the send fails with
/// what is wrong with it; it counts as sent when the server took it, and fails
/// with the server's reason where it did not.
pub proof fn a_send_ends_as_the_server_says(s: SendView, reply: SendReply, t: SendView)
    requires
        s.failure is None,
        send_goes_on(s, reply, t),
    ensures
        s.stage is Read ==> (reply matches SendReply::Files(files) ==> match outgoing_problem(
            s.account.email,
            s.mail,
            files@,
        ) {
            Some(e) => t.stage is Done && t.failure == Some(e),
            None => t.stage is Deliver && t.failure is None && t.message is Some && is_outgoing(
                t.message->0,
                s.account.email,
                s.mail,
                files@,
            ),
        }),
        s.stage is Deliver && reply is Delivered ==> t.stage is Done && t.failure is None,
        s.stage is Deliver ==> (reply matches SendReply::Failed(e) ==> t.stage is Done && t.failure
            == Some("SMTP send failed: "@ + e@)),
        s.stage is Token ==> (reply matches SendReply::Failed(e) ==> t.stage is Done && t.failure
            == Some("OAuth Refresh Failed: "@ + e@)),
        s.stage is Token ==> (reply matches SendReply::Token(_, access, expiry) ==> send_says(
            s,
            reply,
        ) == seq![
            SaidView::Tokens(s.account.email, crate::text::opt_text(access), expiry),
        ]),
        t.mail == s.mail,
        t.account.email == s.account.email,
        t.account.smtp == s.account.smtp,
{
}

/// The demo account's mail counts as sent at once.
pub proof fn demo_mail_is_sent_at_once(a: AccountView, mail: OutgoingView)
    requires
        a.password == "mock_password"@,
    ensures
        send_step(send_start(a, mail)) is Done,
        send_start(a, mail).failure is None,
        send_start(a, mail).mail == mail,
{
}

// ---------------------------------------------------------------------------
// Planning a pass

proof fn lemma_filter_members(s: Seq<u32>, p: spec_fn(u32) -> bool, u: u32)
    ensures
        s.filter(p).contains(u) <==> s.contains(u) && p(u),
    decreases s.len(),
{
    reveal(Seq::filter);
    if s.len() > 0 {
        let rest = s.drop_last();
        lemma_filter_members(rest, p, u);
        let f = rest.filter(p);
        if s.contains(u) {
            let i = choose|i: int| 0 <= i < s.len() && s[i] == u;
            if i < rest.len() {
                assert(rest[i] == u);
            }
        }
        if rest.contains(u) {
            let i = choose|i: int| 0 <= i < rest.len() && rest[i] == u;
            assert(s[i] == u);
        }
        assert(s[s.len() - 1] == s.last());
        if p(s.last()) {
            let g = f.push(s.last());
            assert(g[f.len() as int] == s.last());
            if f.contains(u) {
                let i = choose|i: int| 0 <= i < f.len() && f[i] == u;
                assert(g[i] == u);
            }
            if g.contains(u) {
                let i = choose|i: int| 0 <= i < g.len() && g[i] == u;
                if i < f.len() {
                    assert(f[i] == u);
                }
            }
        }
    }
}

proof fn lemma_ascending_members(s: Seq<u32>, u: u32)
    ensures
        ascending(s).contains(u) <==> s.contains(u),
{
    broadcast use vstd::seq_lib::group_to_multiset_ensures;

    ascending_is_sorted(s);
    assert(s.contains(u) <==> s.to_multiset().count(u) > 0);
    assert(ascending(s).contains(u) <==> ascending(s).to_multiset().count(u) > 0);
}

/// A message is missing where the server lists it and the cache lacks it, and
/// held where both have it; each message that the server lists is one or the
/// other.
pub proof fn a_listed_message_is_missing_or_held(server: Seq<u32>, known: Set<u32>, u: u32)
    ensures
        missing(server, known).contains(u) <==> server.contains(u) && !known.contains(u),
        held(server, known).contains(u) <==> server.contains(u) && known.contains(u),
{
    lemma_ascending_members(server, u);
    lemma_filter_members(ascending(server), |x: u32| !known.contains(x), u);
    lemma_filter_members(ascending(server), |x: u32| known.contains(x), u);
}

/// The newest of a list are its last ones, in their order.
pub proof fn the_newest_come_last(s: Seq<u32>, n: nat)
    ensures
        newest(s, n).len() == if s.len() <= n {
            s.len()
        } else {
            n
        },
        forall|i: int|
            0 <= i < newest(s, n).len() ==> #[trigger] newest(s, n)[i] == s[s.len() - newest(
                s,
                n,
            ).len() + i],
{
}

/// Once its mailbox is listed, a pass asks for the messages that the cache
/// lacks, five hundred at most and the newest of them, fifty at a time; it
/// counts what it leaves for later, and refreshes the flags of two hundred
/// messages that the cache holds.
pub proof fn a_pass_asks_for_what_is_missing(s: PassView, uids: Vec<u32>, u: u32)
    requires
        s.stage is Search,
    ensures
        ({
            let t = pass_after(s, FolderReply::Uids(uids));
            let asked = crate::fetch_laws::asked_for(t.batches);
            let lacking = missing(uids@, s.known);
            &&& asked.len() + t.remaining == lacking.len()
            &&& lacking.len() <= 500 ==> t.remaining == 0 && (asked.contains(u) <==> uids@.contains(
                u,
            ) && !s.known.contains(u))
            &&& lacking.len() > 500 ==> asked.len() == 500
            &&& asked.contains(u) ==> uids@.contains(u) && !s.known.contains(u)
            &&& forall|k: int| 0 <= k < t.batches.len() ==> (#[trigger] t.batches[k]).len() <= 50
            &&& t.server_uids.contains(u) <==> uids@.contains(u)
            &&& t.server_uids.len() == uids@.len()
            &&& t.recent_known.contains(u) ==> uids@.contains(u) && s.known.contains(u)
            &&& t.recent_known.len() <= 200
            &&& held(uids@, s.known).len() <= 200 ==> (t.recent_known.contains(u)
                <==> uids@.contains(u) && s.known.contains(u))
            &&& t.fetched == s.fetched && t.seen == s.seen && t.folder == s.folder && t.account
                == s.account
        }),
{
    broadcast use vstd::seq_lib::group_filter_ensures;

    let lacking = missing(uids@, s.known);
    let w = wanted(uids@, s.known);
    assert(uids.len() <= usize::MAX);
    crate::fetch_laws::round_trips_cover(w, 50);
    the_newest_come_last(lacking, 500);
    a_listed_message_is_missing_or_held(uids@, s.known, u);
    assert(w.len() <= 500);
    if lacking.len() <= 500 {
        assert(w =~= lacking);
    }
    if w.contains(u) {
        let i = choose|i: int| 0 <= i < w.len() && w[i] == u;
        assert(lacking[lacking.len() - w.len() + i] == u);
    }
    let h = held(uids@, s.known);
    let r = newest(h, 200);
    the_newest_come_last(h, 200);
    if r.contains(u) {
        let i = choose|i: int| 0 <= i < r.len() && r[i] == u;
        assert(h[h.len() - r.len() + i] == u);
    }
    if h.len() <= 200 {
        assert(r =~= h);
    }
    ascending_is_sorted(uids@);
    lemma_ascending_members(uids@, u);
}

/// A pass selects its mailbox and lists it; then it asks for the headers of
/// its batches, by uid, and at last for the flags of the messages it holds.
pub proof fn a_pass_asks_its_mailbox(
    account: Seq<char>,
    mailbox: Seq<char>,
    folder: Seq<char>,
    known: Set<u32>,
    s: PassView,
    k: usize,
    why: String,
)
    ensures
        ({
            let p = fresh_pass(account, mailbox, folder, known);
            let q = pass_after(p, FolderReply::Selected);
            &&& folder_step(p) == FolderStepView::Select(mailbox)
            &&& folder_step(q) is Search
            &&& q == (PassView { stage: q.stage, ..p })
            &&& p.folder == folder && p.account == account && p.known == known
            &&& p.fetched.len() == 0 && p.seen.len() == 0 && p.server_uids.len() == 0
            &&& folder_step(pass_after(p, FolderReply::Failed(why))) is GivenUp
            &&& folder_step(pass_after(q, FolderReply::Failed(why))) is GivenUp
            &&& pass_says(p, FolderReply::Failed(why)) == seq![
                SaidView::Error("Failed to select "@ + mailbox + ": "@ + why@),
            ]
            &&& pass_says(q, FolderReply::Failed(why)) == seq![
                SaidView::Error("IMAP Search failed: "@ + why@),
            ]
        }),
        s.stage == Stage::Headers(k) && k < s.batches.len() && s.batches[k as int].len() > 0 ==> (
        folder_step(s) matches FolderStepView::Fetch { set, query, kind } && split(set, ',')
            == decimals(s.batches[k as int]) && kind is Headers && query
            == "(UID FLAGS RFC822.HEADER BODYSTRUCTURE)"@),
        s.stage is Flags && s.recent_known.len() > 0 ==> (folder_step(
            s,
        ) matches FolderStepView::Fetch { set, query, kind } && split(set, ',') == decimals(
            s.recent_known,
        ) && kind is Flags && query == "(UID FLAGS)"@),
{
    reveal_strlit(",");
    assert(","@ =~= seq![',']);
    if s.stage == Stage::Headers(k) && k < s.batches.len() && s.batches[k as int].len() > 0 {
        lemma_decimals_read_back(s.batches[k as int], ',');
    }
    if s.stage is Flags && s.recent_known.len() > 0 {
        lemma_decimals_read_back(s.recent_known, ',');
    }
}

/// A batch whose headers are here goes through its text fetches in order,
/// whether they work or not; then its mail joins what was fetched, behind it,
/// and the next batch is up, or the flags, or the end.
pub proof fn a_batch_goes_in_order(s: PassView, k: usize, i: usize, reply: FolderReply)
    requires
        s.stage == Stage::Texts(k, i),
        k < s.batches.len() <= usize::MAX,
        i < s.requests.len() <= usize::MAX,
        reply is Texts || reply is Failed,
    ensures
        ({
            let t = pass_after(s, reply);
            let ps = match reply {
                FolderReply::Texts(ts) => with_replies(
                    s.pending,
                    ts@,
                    s.requests[i as int].path is None,
                ),
                _ => s.pending,
            };
            &&& i + 1 < s.requests.len() ==> t.stage == Stage::Texts(k, (i + 1) as usize)
                && t.pending == ps && t.requests == s.requests && t.fetched == s.fetched
            &&& i + 1 == s.requests.len() ==> t.fetched.len() == s.fetched.len() + ps.len() && (
            forall|j: int|
                0 <= j < ps.len() ==> (#[trigger] t.fetched[s.fetched.len() + j]) == finished(
                    ps[j],
                    s.folder,
                )) && t.fetched.take(s.fetched.len() as int) == s.fetched && (if k + 1
                < s.batches.len() {
                t.stage == Stage::Headers((k + 1) as usize)
            } else if s.recent_known.len() > 0 {
                t.stage == Stage::Flags
            } else {
                t.stage == Stage::Finished
            })
            &&& t.batches == s.batches && t.recent_known == s.recent_known && t.seen == s.seen
        }),
{
    let t = pass_after(s, reply);
    if i + 1 == s.requests.len() {
        assert(t.fetched.take(s.fetched.len() as int) =~= s.fetched);
    }
}

/// The text fetches of a batch, one after the other, ask for what its headers
/// say: the step that is up names the request's messages, its query and the
/// part.
pub proof fn a_text_step_asks_for_its_request(s: PassView, k: usize, i: usize)
    requires
        s.stage == Stage::Texts(k, i),
    ensures
        folder_step(s) matches FolderStepView::Fetch { set, query, kind } && set
            == s.requests[i as int].set && query == s.requests[i as int].query && kind
            == KindView::Text(s.requests[i as int].path),
{
}

/// A finished pass brings its folder's mail as it was fetched, what the server
/// lists, what it says was seen, and how much is left; an unfinished one brings
/// nothing.
pub proof fn a_finished_pass_brings_what_it_fetched(s: PassView)
    ensures
        pass_result(s) is Some <==> s.stage is Finished,
        pass_result(s) matches Some(f) ==> f.folder == s.folder && f.fetched == s.fetched
            && f.server_uids == s.server_uids && f.seen_uids == s.seen && f.remaining
            == s.remaining,
{
}

/// A message counts as seen where some entry of the flag reply says so of its
/// uid; a failed refresh leaves the flags alone and is only logged.
pub proof fn seen_is_what_the_flags_say(s: PassView, flags: Vec<(Option<u32>, bool)>, why: String, u: u32)
    requires
        s.stage is Flags,
    ensures
        ({
            let t = pass_after(s, FolderReply::Flags(flags));
            &&& t.stage is Finished
            &&& t.seen.contains(u) <==> flags@.contains((Some(u), true))
        }),
        pass_after(s, FolderReply::Failed(why)) == (PassView { stage: Stage::Finished, ..s }),
        pass_says(s, FolderReply::Failed(why)) == seq![
            SaidView::Log("IMAP flag refresh failed: "@ + why@),
        ],
{
    lemma_seen(flags@, u);
}

proof fn lemma_seen(flags: Seq<(Option<u32>, bool)>, u: u32)
    ensures
        seen_in_reply(flags).contains(u) <==> flags.contains((Some(u), true)),
    decreases flags.len(),
{
    if flags.len() > 0 {
        let rest = flags.drop_last();
        lemma_seen(rest, u);
        let f = seen_in_reply(rest);
        let g = seen_in_reply(flags);
        assert(flags[flags.len() - 1] == flags.last());
        if flags.contains((Some(u), true)) {
            let i = choose|i: int| 0 <= i < flags.len() && flags[i] == (Some(u), true);
            if i < rest.len() {
                assert(rest[i] == (Some(u), true));
            }
        }
        if rest.contains((Some(u), true)) {
            let i = choose|i: int| 0 <= i < rest.len() && rest[i] == (Some(u), true);
            assert(flags[i] == (Some(u), true));
        }
        if g.len() > f.len() {
            assert(g[f.len() as int] == flags.last().0->0);
            if f.contains(u) {
                let i = choose|i: int| 0 <= i < f.len() && f[i] == u;
                assert(g[i] == u);
            }
            if g.contains(u) {
                let i = choose|i: int| 0 <= i < g.len() && g[i] == u;
                if i < f.len() {
                    assert(f[i] == u);
                }
            }
        }
    }
}

/// What the user is told of a pass: how much it downloads and, where some is
/// left, how much; nothing where it downloads nothing.
pub proof fn a_pass_says_how_much_it_fetches(count: nat, remaining: nat)
    ensures
        fetching_text(count, remaining) is None <==> count == 0,
        fetching_text(count, remaining) matches Some(t) ==> holds_text(
            t,
            "Fetching "@ + decimal(count) + " messages"@,
        ) && (remaining > 0 ==> holds_text(t, decimal(remaining) + " older"@)) && (remaining == 0
            ==> t == "Fetching "@ + decimal(count) + " messages..."@),
{
    if count > 0 {
        let a = "Fetching "@ + decimal(count) + " messages"@;
        reveal_strlit(" messages");
        reveal_strlit(" messages...");
        reveal_strlit("...");
        reveal_strlit(" messages (");
        reveal_strlit(" (");
        reveal_strlit(" older still to come)...");
        reveal_strlit(" older");
        reveal_strlit(" still to come)...");
        assert(" messages..."@ =~= " messages"@ + "..."@);
        assert(" messages ("@ =~= " messages"@ + " ("@);
        assert(" older still to come)..."@ =~= " older"@ + " still to come)..."@);
        if remaining > 0 {
            let t = "Fetching "@ + decimal(count) + " messages ("@ + decimal(remaining)
                + " older still to come)..."@;
            let rest = " ("@ + decimal(remaining) + " older still to come)..."@;
            assert(t =~= Seq::<char>::empty() + a + rest);
            lemma_holds(t, Seq::empty(), a, rest);
            let b = decimal(remaining) + " older"@;
            let front = "Fetching "@ + decimal(count) + " messages ("@;
            assert(t =~= front + b + " still to come)..."@);
            lemma_holds(t, front, b, " still to come)..."@);
        } else {
            let t = "Fetching "@ + decimal(count) + " messages..."@;
            assert(t =~= Seq::<char>::empty() + a + "..."@);
            lemma_holds(t, Seq::empty(), a, "..."@);
        }
    }
}

// ---------------------------------------------------------------------------
// Asking for text

proof fn lemma_uids_at(ps: Seq<PendingView>, path: Seq<u32>, u: u32)
    ensures
        uids_at(ps, path).contains(u) <==> exists|i: int|
            0 <= i < ps.len() && (#[trigger] ps[i]).uid == u && ps[i].part is Some
                && ps[i].part->0.path == path,
    decreases ps.len(),
{
    if ps.len() > 0 {
        let rest = ps.drop_last();
        lemma_uids_at(rest, path, u);
        let f = uids_at(rest, path);
        let g = uids_at(ps, path);
        assert(ps[ps.len() - 1] == ps.last());
        assert forall|i: int| 0 <= i < rest.len() implies #[trigger] rest[i] == ps[i] by {}
        if g.len() > f.len() {
            assert(g[f.len() as int] == ps.last().uid);
        }
        if f.contains(u) {
            let i = choose|i: int| 0 <= i < f.len() && f[i] == u;
            assert(g[i] == u);
            let j = choose|j: int|
                0 <= j < rest.len() && (#[trigger] rest[j]).uid == u && rest[j].part is Some
                    && rest[j].part->0.path == path;
            assert(ps[j].uid == u);
        }
        if g.contains(u) && !f.contains(u) {
            let i = choose|i: int| 0 <= i < g.len() && g[i] == u;
            if i < f.len() {
                assert(f[i] == u);
            }
        }
        if exists|i: int|
            0 <= i < ps.len() && (#[trigger] ps[i]).uid == u && ps[i].part is Some
                && ps[i].part->0.path == path {
            let i = choose|i: int|
                0 <= i < ps.len() && (#[trigger] ps[i]).uid == u && ps[i].part is Some
                    && ps[i].part->0.path == path;
            if i < rest.len() {
                assert(rest[i].uid == u);
            }
        }
    }
}

proof fn lemma_uids_without(ps: Seq<PendingView>, u: u32)
    ensures
        uids_without_part(ps).contains(u) <==> exists|i: int|
            0 <= i < ps.len() && (#[trigger] ps[i]).uid == u && ps[i].part is None,
    decreases ps.len(),
{
    if ps.len() > 0 {
        let rest = ps.drop_last();
        lemma_uids_without(rest, u);
        let f = uids_without_part(rest);
        let g = uids_without_part(ps);
        assert(ps[ps.len() - 1] == ps.last());
        assert forall|i: int| 0 <= i < rest.len() implies #[trigger] rest[i] == ps[i] by {}
        if g.len() > f.len() {
            assert(g[f.len() as int] == ps.last().uid);
        }
        if f.contains(u) {
            let i = choose|i: int| 0 <= i < f.len() && f[i] == u;
            assert(g[i] == u);
            let j = choose|j: int|
                0 <= j < rest.len() && (#[trigger] rest[j]).uid == u && rest[j].part is None;
            assert(ps[j].uid == u);
        }
        if g.contains(u) && !f.contains(u) {
            let i = choose|i: int| 0 <= i < g.len() && g[i] == u;
            if i < f.len() {
                assert(f[i] == u);
            }
        }
        if exists|i: int| 0 <= i < ps.len() && (#[trigger] ps[i]).uid == u && ps[i].part is None {
            let i = choose|i: int|
                0 <= i < ps.len() && (#[trigger] ps[i]).uid == u && ps[i].part is None;
            if i < rest.len() {
                assert(rest[i].uid == u);
            }
        }
    }
}

proof fn lemma_path_is_of_some(ps: Seq<PendingView>, k: int)
    requires
        0 <= k < part_paths(ps).len(),
    ensures
        uids_at(ps, part_paths(ps)[k]).len() > 0,
    decreases ps.len(),
{
    if ps.len() > 0 {
        let rest = ps.drop_last();
        if k < part_paths(rest).len() {
            lemma_path_is_of_some(rest, k);
        }
    }
}

/// The messages that a set of uids names: those whose number is one of the
/// pieces between its commas.
pub open spec fn names_uid(set: Seq<char>, u: u32) -> bool {
    exists|i: int|
        0 <= i < split(set, ',').len() && parsed(#[trigger] split(set, ',')[i], u32::MAX as nat)
            == Some(u as nat)
}

proof fn lemma_set_names(us: Seq<u32>, u: u32)
    requires
        us.len() > 0,
    ensures
        names_uid(join(decimals(us), ","@), u) <==> us.contains(u),
{
    reveal_strlit(",");
    assert(","@ =~= seq![',']);
    lemma_decimals_read_back(us, ',');
    let pieces = split(join(decimals(us), ","@), ',');
    assert forall|i: int| 0 <= i < us.len() implies parsed(#[trigger] pieces[i], u32::MAX as nat)
        == Some(us[i] as nat) by {
        decimal_reads_back(us[i] as nat, u32::MAX as nat);
    }
    if us.contains(u) {
        let i = choose|i: int| 0 <= i < us.len() && us[i] == u;
        assert(parsed(pieces[i], u32::MAX as nat) == Some(u as nat));
    }
}

/// A text fetch for a part names the messages whose text is at that path, and
/// no others, and asks for that part; one for whole messages names those
/// without a text part.
pub proof fn a_text_fetch_names_its_messages(ps: Seq<PendingView>, k: int, u: u32)
    requires
        0 <= k < text_requests_for(ps).len(),
    ensures
        ({
            let r = text_requests_for(ps)[k];
            match r.path {
                Some(path) => {
                    &&& names_uid(r.set, u) <==> exists|i: int|
                        0 <= i < ps.len() && (#[trigger] ps[i]).uid == u && ps[i].part is Some
                            && ps[i].part->0.path == path
                    &&& r.query == part_query_text(path)
                },
                None => {
                    &&& names_uid(r.set, u) <==> exists|i: int|
                        0 <= i < ps.len() && (#[trigger] ps[i]).uid == u && ps[i].part is None
                    &&& r.query == whole_query_text()
                },
            }
        }),
{
    let paths = part_paths(ps);
    if k < paths.len() {
        lemma_path_is_of_some(ps, k);
        lemma_set_names(uids_at(ps, paths[k]), u);
        lemma_uids_at(ps, paths[k], u);
    } else {
        lemma_set_names(uids_without_part(ps), u);
        lemma_uids_without(ps, u);
    }
}

/// Every message of a batch is named by a text fetch: for the path of its text
/// part, or for whole messages where it has none.
pub proof fn every_message_s_text_is_asked_for(ps: Seq<PendingView>, i: int)
    requires
        0 <= i < ps.len(),
    ensures
        exists|k: int|
            0 <= k < text_requests_for(ps).len() && names_uid(
                (#[trigger] text_requests_for(ps)[k]).set,
                ps[i].uid,
            ) && text_requests_for(ps)[k].path == (match ps[i].part {
                Some(t) => Some(t.path),
                None => None,
            }),
{
    crate::fetch_laws::every_message_is_asked_for(ps, i);
    let rs = text_requests_for(ps);
    let paths = part_paths(ps);
    match ps[i].part {
        Some(t) => {
            let k = choose|k: int| 0 <= k < paths.len() && paths[k] == t.path;
            assert(rs[k].path == Some(t.path));
            lemma_set_names(uids_at(ps, t.path), ps[i].uid);
        },
        None => {
            let k = paths.len() as int;
            assert(rs[k].path is None);
            lemma_set_names(uids_without_part(ps), ps[i].uid);
        },
    }
}

/// A text fetch leaves the messages unread, and asks for the uid, for the part
/// at its path or for all, and for no more than the first so many bytes.
pub proof fn a_text_fetch_peeks_at_its_part(path: Seq<u32>)
    requires
        path.len() > 0,
    ensures
        ({
            let sec = join(decimals(path), seq!['.']);
            &&& part_query_text(path) == "(UID BODY.PEEK["@ + sec + "]<0.65536>)"@
            &&& split(sec, '.') == decimals(path)
        }),
        whole_query_text() == "(UID BODY.PEEK[]<0.262144>)"@,
{
    reveal_strlit(".");
    assert("."@ =~= seq!['.']);
    lemma_decimals_read_back(path, '.');
    lemma_caps();
    let head = "(UID BODY.PEEK["@ + join(decimals(path), "."@);
    assert(head + "]<0."@ + decimal(65536) + ">)"@ =~= head + ("]<0."@ + decimal(65536) + ">)"@));
}

proof fn lemma_caps()
    ensures
        "]<0."@ + decimal(65536) + ">)"@ == "]<0.65536>)"@,
        "(UID BODY.PEEK[]<0."@ + decimal(262144) + ">)"@ == "(UID BODY.PEEK[]<0.262144>)"@,
{
    lemma_cap_digits();
    reveal_strlit("(UID BODY.PEEK[]<0.");
    reveal_strlit("]<0.");
    reveal_strlit(">)");
    reveal_strlit("]<0.65536>)");
    reveal_strlit("(UID BODY.PEEK[]<0.262144>)");
    assert("]<0."@ + decimal(65536) + ">)"@ =~= "]<0.65536>)"@);
    assert("(UID BODY.PEEK[]<0."@ + decimal(262144) + ">)"@ =~= "(UID BODY.PEEK[]<0.262144>)"@);
}

proof fn lemma_cap_digits()
    ensures
        decimal(65536) == seq!['6', '5', '5', '3', '6'],
        decimal(262144) == seq!['2', '6', '2', '1', '4', '4'],
{
    reveal_with_fuel(decimal, 7);
    assert(decimal(65536) =~= seq!['6', '5', '5', '3', '6']);
    assert(decimal(262144) =~= seq!['2', '6', '2', '1', '4', '4']);
}

/// A batch's headers make it pending as they say, and its text fetches are up
/// next; a batch without a message that needs text is complete at once.
pub proof fn a_header_reply_starts_its_text(s: PassView, k: usize, hs: Vec<crate::fetch::HeaderReply>)
    requires
        s.stage == Stage::Headers(k),
        k < s.batches.len(),
    ensures
        ({
            let t = pass_after(s, FolderReply::Headers(hs));
            let ps = pending_in(hs@, s.account);
            &&& ps.len() > 0 ==> t.stage == Stage::Texts(k, 0) && t.pending == ps && t.requests
                == text_requests_for(ps) && t.fetched == s.fetched
            &&& ps.len() == 0 ==> t.fetched == s.fetched && !(t.stage is Texts)
        }),
{
    let ps = pending_in(hs@, s.account);
    let t = pass_after(s, FolderReply::Headers(hs));
    if ps.len() > 0 {
        every_message_s_text_is_asked_for(ps, 0);
    } else {
        assert(part_paths(ps).len() == 0);
        assert(text_requests_for(ps).len() == 0);
        assert(t.fetched =~= s.fetched);
    }
}

// ---------------------------------------------------------------------------
// Accounts

/// A text with every `c` in it as `d`.
pub open spec fn swapped(s: Seq<char>, c: char, d: char) -> Seq<char> {
    s.map_values(|x: char| if x == c { d } else { x })
}

proof fn lemma_replace_one(s: Seq<char>, c: char, d: char)
    ensures
        replace(s, seq![c], seq![d]) == swapped(s, c, d),
    decreases s.len(),
{
    if s.len() > 0 {
        lemma_replace_one(s.drop_first(), c, d);
        assert(s.skip(1) =~= s.drop_first());
        assert(s.subrange(0, 1) =~= seq![s[0]]);
        assert(seq![s[0]][0] == s[0] && seq![c][0] == c);
        assert(part_at(s, seq![c], 0) <==> s[0] == c);
        assert(swapped(s, c, d) =~= seq![if s[0] == c { d } else { s[0] }] + swapped(
            s.drop_first(),
            c,
            d,
        ));
    }
}

/// An account's cache is named by its address, character by character, with an
/// underscore for each at sign and each dot.
pub proof fn a_cache_is_named_by_its_address(email: Seq<char>)
    ensures
        cache_name(email) == "emails_"@ + swapped(swapped(email, '@', '_'), '.', '_') + ".json"@,
        lacks(email, '@') && lacks(email, '.') ==> cache_name(email) == "emails_"@ + email
            + ".json"@,
{
    reveal_strlit("@");
    reveal_strlit("_");
    reveal_strlit(".");
    assert("@"@ =~= seq!['@']);
    assert("_"@ =~= seq!['_']);
    assert("."@ =~= seq!['.']);
    lemma_replace_one(email, '@', '_');
    lemma_replace_one(swapped(email, '@', '_'), '.', '_');
    if lacks(email, '@') && lacks(email, '.') {
        assert(swapped(email, '@', '_') =~= email);
        assert(swapped(email, '.', '_') =~= email);
    }
}

/// The switcher lists the accounts by their addresses, in order, and the
/// settings behind them.
pub proof fn the_switcher_lists_the_accounts(accounts: Seq<AccountView>, i: int)
    requires
        0 <= i < accounts.len(),
    ensures
        dropdown_options(accounts).len() == accounts.len() + 1,
        dropdown_options(accounts)[i] == accounts[i].email,
        dropdown_options(accounts).last() == "Manage Accounts…"@,
{
}

/// The address a sidecar names is what it holds without the white space round
/// it; white space alone names none.
pub proof fn a_sidecar_names_its_address(email: Seq<char>, before: Seq<char>, after: Seq<char>)
    requires
        email.len() > 0,
        !is_space(email[0]),
        !is_space(email.last()),
        forall|i: int| 0 <= i < before.len() ==> is_space(before[i]),
        forall|i: int| 0 <= i < after.len() ==> is_space(after[i]),
    ensures
        remembered(before + email + after) == Some(email),
        remembered(before) is None,
{
    let s = before + email + after;
    crate::text_laws::trimming_takes_outer_space_alone(s);
    let (i, j) = choose|i: int, j: int|
        {
            &&& 0 <= i <= j <= s.len()
            &&& trim(s) == #[trigger] s.subrange(i, j)
            &&& forall|k: int| 0 <= k < i || j <= k < s.len() ==> is_space(#[trigger] s[k])
            &&& i < j ==> !is_space(s[i]) && !is_space(s[j - 1])
        };
    let n = before.len() as int;
    let m = n + email.len();
    assert(s[n] == email[0]);
    assert(s[m - 1] == email.last());
    if i < n {
        assert(s[i] == before[i]);
    }
    if j > m {
        assert(s[j - 1] == after[j - 1 - m]);
    }
    assert(s.subrange(n, m) =~= email);
    crate::text_laws::trimming_takes_outer_space_alone(before);
    let (a, b) = choose|i: int, j: int|
        {
            &&& 0 <= i <= j <= before.len()
            &&& trim(before) == #[trigger] before.subrange(i, j)
            &&& forall|k: int| 0 <= k < i || j <= k < before.len() ==> is_space(
                #[trigger] before[k],
            )
            &&& i < j ==> !is_space(before[i]) && !is_space(before[j - 1])
        };
    assert(a == b);
}

/// A password that is missing is read from the keyring, from the legacy entry
/// where the new one has none; whichever has it becomes the account's, and
/// nothing else of the account changes.
pub proof fn a_missing_password_is_read(a: AccountView, secret: Seq<char>)
    requires
        a.password.len() == 0,
    ensures
        ({
            let o = after_event(a, SecretStep::Open, SecretEventView::Worked(true));
            let r = after_event(a, o.step, SecretEventView::Found(Some(secret)));
            let l = after_event(a, o.step, SecretEventView::Found(None));
            let m = after_event(a, l.step, SecretEventView::Found(Some(secret)));
            let n = after_event(m.account, m.step, SecretEventView::Worked(true));
            &&& o.step is Read && o.account == a
            &&& r.step is Done && r.account == (AccountView {
                password: secret,
                keyring_backed: true,
                ..a
            }) && !r.migrated
            &&& l.step is ReadLegacy && l.account == a
            &&& m.step is Adopt && m.account == (AccountView { password: secret, ..a })
            &&& n.step is DropLegacy && n.account == (AccountView {
                password: secret,
                keyring_backed: true,
                ..a
            }) && !n.migrated
            &&& after_event(a, l.step, SecretEventView::Found(None)).account == a
            &&& after_event(a, SecretStep::Open, SecretEventView::Worked(false)).account == a
            &&& after_event(a, SecretStep::Open, SecretEventView::Worked(false)).step is Done
            &&& after_event(m.account, m.step, SecretEventView::Worked(false)).account == m.account
            &&& after_event(m.account, m.step, SecretEventView::Worked(false)).step is Done
        }),
{
}

/// A password of the file moves to the keyring, and is marked as moved only if
/// that worked; the account keeps it either way.
pub proof fn a_stored_password_moves_to_the_keyring(a: AccountView)
    requires
        a.password.len() > 0,
    ensures
        ({
            let o = after_event(a, SecretStep::Open, SecretEventView::Worked(true));
            let m = after_event(a, o.step, SecretEventView::Worked(true));
            let f = after_event(a, o.step, SecretEventView::Worked(false));
            &&& o.step is Migrate && o.account == a && !o.migrated
            &&& m.step is Done && m.migrated && m.account == (AccountView {
                keyring_backed: true,
                ..a
            })
            &&& f.step is Done && !f.migrated && f.account == a
        }),
{
}

/// The demo account is known by its address or by its password.
pub proof fn the_demo_account_is_known(a: AccountView)
    ensures
        a.email == crate::accounts::MOCK_EMAIL@ ==> is_mock(a),
        a.password == crate::accounts::MOCK_PASSWORD@ ==> is_mock(a),
        is_mock(a) ==> a.email == crate::accounts::MOCK_EMAIL@ || a.password
            == crate::accounts::MOCK_PASSWORD@,
{
}

// ---------------------------------------------------------------------------
// What is polled

/// A descriptor is watched for what the bits of its events say: the lowest for
/// reading, the third for writing, the fourth for errors and the fifth for a
/// hangup.
pub proof fn bits_say_what_to_watch_for(fds: Seq<(i32, u16)>, i: int)
    requires
        0 <= i < fds.len(),
    ensures
        ({
            let w = crate::poll::wanted(fds)[i];
            let e = fds[i].1;
            &&& w.0 == fds[i].0
            &&& w.1.readable <==> e % 2 == 1
            &&& w.1.writable <==> (e / 4) % 2 == 1
            &&& w.1.error <==> (e / 8) % 2 == 1
            &&& w.1.hangup <==> (e / 16) % 2 == 1
        }),
        crate::poll::wanted(fds).len() == fds.len(),
{
    let e = fds[i].1;
    assert((e & 0x001 != 0) <==> e % 2 == 1) by (bit_vector);
    assert((e & 0x004 != 0) <==> (e / 4) % 2 == 1) by (bit_vector);
    assert((e & 0x008 != 0) <==> (e / 8) % 2 == 1) by (bit_vector);
    assert((e & 0x010 != 0) <==> (e / 16) % 2 == 1) by (bit_vector);
}

} // verus!
