//! Replies on the control socket.
//!
//! Text by default, one row per line with tab-separated columns and
//! `error: ...` on failure; JSON where it is asked for. Account rows never
//! carry passwords or tokens.

use vstd::prelude::*;
use crate::json::{
    array_text, as_nat, json_array, json_bool, json_null, json_number, json_object, json_opt_number,
    json_opt_text, json_signed, json_string, json_text, json_texts, json_to_string, member,
    members_of, object_text, optional_number, optional_text, signed_decimal, strings, value_text,
    value_texts,
};
use crate::model::{
    views, AccountInfo, AccountView, Email, EmailView, FolderInfo, FolderInfoView,
    RemoteAttachment, RemoteAttachmentView,
};
use crate::number::{decimal, decimal_text};
use crate::path::{file_name, file_name_of};
use crate::scan::{join, join_all};
use crate::text::{opt_text, same, texts, texts_push};

verus! {

/// A failure reply.
pub fn error(msg: &str) -> (r: String)
    ensures
        r@ == "error: "@ + msg@,
{
    let mut out = "error: ".to_owned();
    out.append(msg);
    out
}

/// A field of a JSON object.
fn field(key: &str, value: serde_json::Value) -> (r: (String, serde_json::Value))
    ensures
        r.0@ == key@,
        r.1 == value,
{
    (key.to_owned(), value)
}

/// A success acknowledgement for a command that changes state.
pub fn ok(what: &str, json: bool) -> (r: String)
    ensures
        r@ == if json {
            object_text(seq![member("ok"@, json_string(what@))])
        } else {
            "ok: "@ + what@
        },
{
    if json {
        let mut fields: Vec<(String, serde_json::Value)> = Vec::new();
        fields.push(field("ok", json_text(what)));
        proof {
            assert(members_of(fields@) =~= seq![member("ok"@, json_string(what@))]);
        }
        json_to_string(&json_object(fields))
    } else {
        let mut out = "ok: ".to_owned();
        out.append(what);
        out
    }
}

pub open spec fn cell_char(c: char) -> char {
    if c == '\t' || c == '\n' || c == '\r' {
        ' '
    } else {
        c
    }
}

/// One text cell: tabs and newlines would break the row grammar.
pub open spec fn cell_text(s: Seq<char>) -> Seq<char> {
    Seq::new(s.len(), |i: int| cell_char(s[i]))
}

pub fn cell(s: &str) -> (r: String)
    ensures
        r@ == cell_text(s@),
{
    let mut out = String::new();
    for c in it: s.chars()
        invariant
            it.seq() == s@,
            out@ =~= cell_text(it.seq().take(it.index())),
    {
        if c == '\t' || c == '\n' || c == '\r' {
            out.push(' ');
        } else {
            out.push(c);
        }
    }
    out
}

/// The name a path is shown by: its file name, or all of it.
pub open spec fn shown_name(path: Seq<char>) -> Seq<char> {
    match file_name(path) {
        Some(n) => n,
        None => path,
    }
}

/// Attachment names as the user sees them: what the server reported for
/// fetched mail, the local file names for drafts and sent copies.
pub open spec fn names_shown(e: EmailView) -> Seq<Seq<char>> {
    if e.remote_attachments.len() > 0 {
        e.remote_attachments.map_values(|a: RemoteAttachmentView| a.name)
    } else {
        e.attachments.map_values(|p: Seq<char>| shown_name(p))
    }
}

pub fn attachment_names(e: &Email) -> (r: Vec<String>)
    ensures
        texts(r@) == names_shown(e@),
{
    broadcast use texts_push;

    let mut out: Vec<String> = Vec::new();
    let mut i: usize = 0;
    if e.remote_attachments.len() > 0 {
        while i < e.remote_attachments.len()
            invariant
                i <= e.remote_attachments@.len(),
                texts(out@) =~= e@.remote_attachments.map_values(
                    |a: RemoteAttachmentView| a.name,
                ).take(i as int),
            decreases e.remote_attachments@.len() - i,
        {
            broadcast use texts_push;

            out.push(e.remote_attachments[i].name.clone());
            i = i + 1;
        }
    } else {
        while i < e.attachments.len()
            invariant
                i <= e.attachments@.len(),
                texts(out@) =~= e@.attachments.map_values(|p: Seq<char>| shown_name(p)).take(
                    i as int,
                ),
            decreases e.attachments@.len() - i,
        {
            broadcast use texts_push;

            let p = &e.attachments[i];
            let name = match file_name_of(p.as_str()) {
                Some(n) => n,
                None => p.clone(),
            };
            out.push(name);
            i = i + 1;
        }
    }
    out
}

pub open spec fn json_flag(b: bool) -> Seq<char> {
    if b {
        "true"@
    } else {
        "false"@
    }
}

pub open spec fn optional_signed(o: Option<i64>) -> Seq<char> {
    match o {
        Some(n) => signed_decimal(n as int),
        None => "null"@,
    }
}

/// A list row as JSON.
pub open spec fn row_object(e: EmailView) -> Seq<char> {
    object_text(
        seq![
            member("attachments"@, array_text(strings(names_shown(e)))),
            member("date"@, json_string(e.date)),
            member("folder"@, json_string(e.folder)),
            member("from"@, json_string(e.from)),
            member("id"@, decimal(e.id as nat)),
            member("read"@, json_flag(e.read)),
            member("subject"@, json_string(e.subject)),
            member("to"@, json_string(e.to)),
            member("ts"@, optional_signed(e.ts)),
        ],
    )
}

fn json_opt_signed(o: Option<i64>) -> (r: serde_json::Value)
    ensures
        value_text(r) == optional_signed(o),
{
    match o {
        Some(n) => json_signed(n),
        None => json_null(),
    }
}

/// What tells the keys of a row apart.
proof fn reveal_row_keys()
    ensures
        "attachments"@.len() == 11,
        "date"@.len() == 4 && "date"@[0] == 'd',
        "folder"@.len() == 6,
        "from"@.len() == 4 && "from"@[0] == 'f',
        "id"@.len() == 2 && "id"@[0] == 'i',
        "read"@.len() == 4 && "read"@[0] == 'r',
        "subject"@.len() == 7,
        "to"@.len() == 2 && "to"@[0] == 't' && "to"@[1] == 'o',
        "ts"@.len() == 2 && "ts"@[0] == 't' && "ts"@[1] == 's',
{
    reveal_strlit("attachments");
    reveal_strlit("date");
    reveal_strlit("folder");
    reveal_strlit("from");
    reveal_strlit("id");
    reveal_strlit("read");
    reveal_strlit("subject");
    reveal_strlit("to");
    reveal_strlit("ts");
}

fn row_json(e: &Email) -> (r: serde_json::Value)
    ensures
        value_text(r) == row_object(e@),
{
    let mut fields: Vec<(String, serde_json::Value)> = Vec::new();
    fields.push(field("attachments", json_texts(&attachment_names(e))));
    fields.push(field("date", json_text(e.date.as_str())));
    fields.push(field("folder", json_text(e.folder.as_str())));
    fields.push(field("from", json_text(e.from.as_str())));
    fields.push(field("id", json_number(e.id as u64)));
    fields.push(field("read", json_bool(e.read)));
    fields.push(field("subject", json_text(e.subject.as_str())));
    fields.push(field("to", json_text(e.to.as_str())));
    fields.push(field("ts", json_opt_signed(e.ts)));
    proof {
        reveal_row_keys();
        assert(members_of(fields@) =~= seq![
            member("attachments"@, array_text(strings(names_shown(e@)))),
            member("date"@, json_string(e@.date)),
            member("folder"@, json_string(e@.folder)),
            member("from"@, json_string(e@.from)),
            member("id"@, decimal(e@.id as nat)),
            member("read"@, json_flag(e@.read)),
            member("subject"@, json_string(e@.subject)),
            member("to"@, json_string(e@.to)),
            member("ts"@, optional_signed(e@.ts)),
        ]);
    }
    json_object(fields)
}

/// A list row as text.
pub open spec fn row_text(e: EmailView) -> Seq<char> {
    decimal(e.id as nat) + "\t"@ + (if e.read {
        "read"@
    } else {
        "unread"@
    }) + "\t"@ + cell_text(e.folder) + "\t"@ + cell_text(e.date) + "\t"@ + cell_text(e.from)
        + "\t"@ + cell_text(e.subject)
}

fn row_line(e: &Email) -> (r: String)
    ensures
        r@ == row_text(e@),
{
    let mut out = decimal_text(e.id as u64);
    out.append("\t");
    if e.read {
        out.append("read");
    } else {
        out.append("unread");
    }
    out.append("\t");
    out.append(cell(e.folder.as_str()).as_str());
    out.append("\t");
    out.append(cell(e.date.as_str()).as_str());
    out.append("\t");
    out.append(cell(e.from.as_str()).as_str());
    out.append("\t");
    out.append(cell(e.subject.as_str()).as_str());
    out
}

pub open spec fn rows_reply(rows: Seq<EmailView>, json: bool) -> Seq<char> {
    if json {
        array_text(rows.map_values(|e: EmailView| row_object(e)))
    } else {
        join(rows.map_values(|e: EmailView| row_text(e)), "\n"@)
    }
}

/// `list` / `search` rows, in the order given (the list order: newest first).
pub fn render_rows(rows: &[&Email], json: bool) -> (r: String)
    ensures
        r@ == rows_reply(views(rows@), json),
{
    if json {
        let mut items: Vec<serde_json::Value> = Vec::new();
        let mut i: usize = 0;
        while i < rows.len()
            invariant
                i <= rows@.len(),
                items@.len() == i,
                forall|k: int|
                    0 <= k < i ==> value_text(#[trigger] items@[k]) == row_object(
                        views(rows@)[k],
                    ),
            decreases rows@.len() - i,
        {
            items.push(row_json(rows[i]));
            i = i + 1;
        }
        proof {
            assert(value_texts(items@) =~= views(rows@).map_values(
                |e: EmailView| row_object(e),
            ));
        }
        json_to_string(&json_array(items))
    } else {
        let mut out: Vec<String> = Vec::new();
        let mut i: usize = 0;
        while i < rows.len()
            invariant
                i <= rows@.len(),
                texts(out@) =~= views(rows@).map_values(|e: EmailView| row_text(e)).take(i as int),
            decreases rows@.len() - i,
        {
            broadcast use texts_push;

            out.push(row_line(rows[i]));
            i = i + 1;
        }
        proof {
            assert(texts(out@) =~= views(rows@).map_values(|e: EmailView| row_text(e)));
        }
        join_all(&out, "\n")
    }
}

// ---------------------------------------------------------------------------
// One message

pub open spec fn numbers(ns: Seq<u32>) -> Seq<Seq<char>> {
    ns.map_values(|n: u32| decimal(n as nat))
}

pub open spec fn attachment_object(a: RemoteAttachmentView) -> Seq<char> {
    object_text(
        seq![
            member("name"@, json_string(a.name)),
            member("section"@, array_text(numbers(a.section))),
            member("encoding"@, json_string(a.encoding)),
            member("mime"@, json_string(a.mime)),
            member("size"@, decimal(a.size as nat)),
        ],
    )
}

pub open spec fn opt_u32(o: Option<u32>) -> Option<nat> {
    match o {
        Some(n) => Some(n as nat),
        None => None,
    }
}

/// The whole record as JSON.
pub open spec fn email_object(e: EmailView) -> Seq<char> {
    object_text(
        seq![
            member("id"@, decimal(e.id as nat)),
            member("from"@, json_string(e.from)),
            member("to"@, json_string(e.to)),
            member("subject"@, json_string(e.subject)),
            member("body"@, json_string(e.body)),
            member("date"@, json_string(e.date)),
            member("read"@, json_flag(e.read)),
            member("folder"@, json_string(e.folder)),
            member("cc"@, json_string(e.cc)),
            member("bcc"@, json_string(e.bcc)),
            member("attachments"@, array_text(strings(e.attachments))),
            member(
                "remote_attachments"@,
                array_text(
                    e.remote_attachments.map_values(
                        |a: RemoteAttachmentView| attachment_object(a),
                    ),
                ),
            ),
            member("uid"@, optional_number(opt_u32(e.uid))),
            member("ts"@, optional_signed(e.ts)),
            member("origin_folder"@, optional_text(e.origin_folder)),
        ],
    )
}

fn json_numbers(ns: &Vec<u32>) -> (r: serde_json::Value)
    ensures
        value_text(r) == array_text(numbers(ns@)),
{
    let mut items: Vec<serde_json::Value> = Vec::new();
    let mut i: usize = 0;
    while i < ns.len()
        invariant
            i <= ns@.len(),
            items@.len() == i,
            forall|k: int| 0 <= k < i ==> value_text(#[trigger] items@[k]) == decimal(ns@[k] as nat),
        decreases ns@.len() - i,
    {
        items.push(json_number(ns[i] as u64));
        i = i + 1;
    }
    proof {
        assert(value_texts(items@) =~= numbers(ns@));
    }
    json_array(items)
}

fn attachment_json(a: &RemoteAttachment) -> (r: serde_json::Value)
    ensures
        value_text(r) == attachment_object(a@),
{
    let mut fields: Vec<(String, serde_json::Value)> = Vec::new();
    fields.push(field("name", json_text(a.name.as_str())));
    fields.push(field("section", json_numbers(&a.section)));
    fields.push(field("encoding", json_text(a.encoding.as_str())));
    fields.push(field("mime", json_text(a.mime.as_str())));
    fields.push(field("size", json_number(a.size as u64)));
    proof {
        reveal_strlit("name");
        reveal_strlit("section");
        reveal_strlit("encoding");
        reveal_strlit("mime");
        reveal_strlit("size");
        assert("name"@.len() == 4 && "mime"@.len() == 4 && "size"@.len() == 4);
        assert("section"@.len() == 7 && "encoding"@.len() == 8);
        assert("name"@[0] == 'n' && "mime"@[0] == 'm' && "size"@[0] == 's');
        assert(members_of(fields@) =~= seq![
            member("name"@, json_string(a@.name)),
            member("section"@, array_text(numbers(a@.section))),
            member("encoding"@, json_string(a@.encoding)),
            member("mime"@, json_string(a@.mime)),
            member("size"@, decimal(a@.size as nat)),
        ]);
    }
    json_object(fields)
}

fn attachments_json(v: &Vec<RemoteAttachment>) -> (r: serde_json::Value)
    ensures
        value_text(r) == array_text(
            views(v@).map_values(|a: RemoteAttachmentView| attachment_object(a)),
        ),
{
    let mut items: Vec<serde_json::Value> = Vec::new();
    let mut i: usize = 0;
    while i < v.len()
        invariant
            i <= v@.len(),
            items@.len() == i,
            forall|k: int|
                0 <= k < i ==> value_text(#[trigger] items@[k]) == attachment_object(v@[k]@),
        decreases v@.len() - i,
    {
        items.push(attachment_json(&v[i]));
        i = i + 1;
    }
    proof {
        assert(value_texts(items@) =~= views(v@).map_values(
            |a: RemoteAttachmentView| attachment_object(a),
        ));
    }
    json_array(items)
}

/// What tells the keys of a record apart.
proof fn reveal_record_keys()
    ensures
        "id"@.len() == 2 && "id"@[0] == 'i',
        "from"@.len() == 4 && "from"@[0] == 'f',
        "to"@.len() == 2 && "to"@[0] == 't' && "to"@[1] == 'o',
        "subject"@.len() == 7,
        "body"@.len() == 4 && "body"@[0] == 'b',
        "date"@.len() == 4 && "date"@[0] == 'd',
        "read"@.len() == 4 && "read"@[0] == 'r',
        "folder"@.len() == 6,
        "cc"@.len() == 2 && "cc"@[0] == 'c',
        "bcc"@.len() == 3 && "bcc"@[0] == 'b',
        "attachments"@.len() == 11,
        "remote_attachments"@.len() == 18,
        "uid"@.len() == 3 && "uid"@[0] == 'u',
        "ts"@.len() == 2 && "ts"@[0] == 't' && "ts"@[1] == 's',
        "origin_folder"@.len() == 13,
{
    reveal_row_keys();
    reveal_strlit("body");
    reveal_strlit("cc");
    reveal_strlit("bcc");
    reveal_strlit("remote_attachments");
    reveal_strlit("uid");
    reveal_strlit("origin_folder");
}

#[verifier::rlimit(60)]
fn email_json(e: &Email) -> (r: serde_json::Value)
    ensures
        value_text(r) == email_object(e@),
{
    let uid: Option<u64> = match e.uid {
        Some(u) => Some(u as u64),
        None => None,
    };
    let mut fields: Vec<(String, serde_json::Value)> = Vec::new();
    fields.push(field("id", json_number(e.id as u64)));
    fields.push(field("from", json_text(e.from.as_str())));
    fields.push(field("to", json_text(e.to.as_str())));
    fields.push(field("subject", json_text(e.subject.as_str())));
    fields.push(field("body", json_text(e.body.as_str())));
    fields.push(field("date", json_text(e.date.as_str())));
    fields.push(field("read", json_bool(e.read)));
    fields.push(field("folder", json_text(e.folder.as_str())));
    fields.push(field("cc", json_text(e.cc.as_str())));
    fields.push(field("bcc", json_text(e.bcc.as_str())));
    fields.push(field("attachments", json_texts(&e.attachments)));
    fields.push(field("remote_attachments", attachments_json(&e.remote_attachments)));
    fields.push(field("uid", json_opt_number(uid)));
    fields.push(field("ts", json_opt_signed(e.ts)));
    fields.push(field("origin_folder", json_opt_text(&e.origin_folder)));
    proof {
        reveal_record_keys();
        let v = e@;
        assert(as_nat(uid) == opt_u32(v.uid));
        assert(members_of(fields@) =~= seq![
            member("id"@, decimal(v.id as nat)),
            member("from"@, json_string(v.from)),
            member("to"@, json_string(v.to)),
            member("subject"@, json_string(v.subject)),
            member("body"@, json_string(v.body)),
            member("date"@, json_string(v.date)),
            member("read"@, json_flag(v.read)),
            member("folder"@, json_string(v.folder)),
            member("cc"@, json_string(v.cc)),
            member("bcc"@, json_string(v.bcc)),
            member("attachments"@, array_text(strings(v.attachments))),
            member(
                "remote_attachments"@,
                array_text(
                    v.remote_attachments.map_values(
                        |a: RemoteAttachmentView| attachment_object(a),
                    ),
                ),
            ),
            member("uid"@, optional_number(opt_u32(v.uid))),
            member("ts"@, optional_signed(v.ts)),
            member("origin_folder"@, optional_text(v.origin_folder)),
        ]);
    }
    json_object(fields)
}

/// A header line, where there is anything to show.
pub open spec fn optional_line(key: Seq<char>, value: Seq<char>) -> Seq<char> {
    if value.len() > 0 {
        key + cell_text(value) + "\n"@
    } else {
        Seq::empty()
    }
}

/// The whole record as text: headers, a blank line, the body.
pub open spec fn email_text(e: EmailView) -> Seq<char> {
    let names = names_shown(e);
    let read = if e.read {
        "yes"@
    } else {
        "no"@
    };
    let attachments = if names.len() > 0 {
        "attachments: "@ + cell_text(join(names, ", "@)) + "\n"@
    } else {
        Seq::empty()
    };
    "id: "@ + decimal(e.id as nat) + "\nfolder: "@ + cell_text(e.folder) + "\nfrom: "@ + cell_text(
        e.from,
    ) + "\nto: "@ + cell_text(e.to) + "\n"@ + optional_line("cc: "@, e.cc) + optional_line(
        "bcc: "@,
        e.bcc,
    ) + "date: "@ + cell_text(e.date) + "\nsubject: "@ + cell_text(e.subject) + "\nread: "@ + read
        + "\n"@ + attachments + "\n"@ + e.body
}

fn optional_header(key: &str, value: &String) -> (r: String)
    ensures
        r@ == optional_line(key@, value@),
{
    if value.as_str().is_empty() {
        let empty = String::new();
        assert(empty@ =~= Seq::<char>::empty());
        empty
    } else {
        let mut out = key.to_owned();
        out.append(cell(value.as_str()).as_str());
        out.append("\n");
        out
    }
}

/// `get`: the whole record.
pub fn render_email(e: &Email, json: bool) -> (r: String)
    ensures
        r@ == if json {
            email_object(e@)
        } else {
            email_text(e@)
        },
{
    if json {
        return json_to_string(&email_json(e));
    }
    let names = attachment_names(e);
    let attachments = if names.len() > 0 {
        let mut line = "attachments: ".to_owned();
        line.append(cell(join_all(&names, ", ").as_str()).as_str());
        line.append("\n");
        line
    } else {
        let empty = String::new();
        assert(empty@ =~= Seq::<char>::empty());
        empty
    };
    assert(names@.len() == names_shown(e@).len()) by {
        assert(texts(names@).len() == names@.len());
    }
    let mut out = "id: ".to_owned();
    out.append(decimal_text(e.id as u64).as_str());
    out.append("\nfolder: ");
    out.append(cell(e.folder.as_str()).as_str());
    out.append("\nfrom: ");
    out.append(cell(e.from.as_str()).as_str());
    out.append("\nto: ");
    out.append(cell(e.to.as_str()).as_str());
    out.append("\n");
    out.append(optional_header("cc: ", &e.cc).as_str());
    out.append(optional_header("bcc: ", &e.bcc).as_str());
    out.append("date: ");
    out.append(cell(e.date.as_str()).as_str());
    out.append("\nsubject: ");
    out.append(cell(e.subject.as_str()).as_str());
    out.append("\nread: ");
    if e.read {
        out.append("yes");
    } else {
        out.append("no");
    }
    out.append("\n");
    out.append(attachments.as_str());
    out.append("\n");
    out.append(e.body.as_str());
    out
}

// ---------------------------------------------------------------------------
// Accounts

pub open spec fn account_object(a: AccountView, selected: bool) -> Seq<char> {
    object_text(
        seq![
            member("default"@, json_flag(a.is_default)),
            member("email"@, json_string(a.email)),
            member("imap"@, json_string(a.imap)),
            member("oauth"@, json_flag(a.is_oauth)),
            member("selected"@, json_flag(selected)),
            member("smtp"@, json_string(a.smtp)),
        ],
    )
}

pub open spec fn account_row(a: AccountView, selected: bool) -> Seq<char> {
    cell_text(a.email) + "\t"@ + (if selected {
        "selected"@
    } else {
        "-"@
    }) + "\t"@ + (if a.is_default {
        "default"@
    } else {
        "-"@
    }) + "\t"@ + cell_text(a.imap)
}

pub open spec fn accounts_reply(accounts: Seq<AccountView>, selected: int, json: bool) -> Seq<
    char,
> {
    if json {
        array_text(account_objects(accounts, selected))
    } else {
        join(account_rows(accounts, selected), "\n"@)
    }
}

pub open spec fn account_objects(accounts: Seq<AccountView>, selected: int) -> Seq<Seq<char>> {
    Seq::new(accounts.len(), |i: int| account_object(accounts[i], i == selected))
}

pub open spec fn account_rows(accounts: Seq<AccountView>, selected: int) -> Seq<Seq<char>> {
    Seq::new(accounts.len(), |i: int| account_row(accounts[i], i == selected))
}

fn account_json(a: &AccountInfo, selected: bool) -> (r: serde_json::Value)
    ensures
        value_text(r) == account_object(a@, selected),
{
    let mut fields: Vec<(String, serde_json::Value)> = Vec::new();
    fields.push(field("default", json_bool(a.is_default)));
    fields.push(field("email", json_text(a.email.as_str())));
    fields.push(field("imap", json_text(a.imap.as_str())));
    fields.push(field("oauth", json_bool(a.is_oauth)));
    fields.push(field("selected", json_bool(selected)));
    fields.push(field("smtp", json_text(a.smtp.as_str())));
    proof {
        reveal_strlit("default");
        reveal_strlit("email");
        reveal_strlit("imap");
        reveal_strlit("oauth");
        reveal_strlit("selected");
        reveal_strlit("smtp");
        assert("default"@.len() == 7 && "email"@.len() == 5 && "imap"@.len() == 4);
        assert("oauth"@.len() == 5 && "selected"@.len() == 8 && "smtp"@.len() == 4);
        assert("email"@[0] == 'e' && "oauth"@[0] == 'o' && "imap"@[0] == 'i' && "smtp"@[0] == 's');
        assert(members_of(fields@) =~= seq![
            member("default"@, json_flag(a@.is_default)),
            member("email"@, json_string(a@.email)),
            member("imap"@, json_string(a@.imap)),
            member("oauth"@, json_flag(a@.is_oauth)),
            member("selected"@, json_flag(selected)),
            member("smtp"@, json_string(a@.smtp)),
        ]);
    }
    json_object(fields)
}

fn account_line(a: &AccountInfo, selected: bool) -> (r: String)
    ensures
        r@ == account_row(a@, selected),
{
    let mut out = cell(a.email.as_str());
    out.append("\t");
    if selected {
        out.append("selected");
    } else {
        out.append("-");
    }
    out.append("\t");
    if a.is_default {
        out.append("default");
    } else {
        out.append("-");
    }
    out.append("\t");
    out.append(cell(a.imap.as_str()).as_str());
    out
}

/// `accounts`. Never the password, tokens or client secret.
pub fn render_accounts(accounts: &[AccountInfo], selected: usize, json: bool) -> (r: String)
    ensures
        r@ == accounts_reply(views(accounts@), selected as int, json),
{
    let ghost all = views(accounts@);
    let ghost sel = selected as int;
    let mut i: usize = 0;
    if json {
        let mut items: Vec<serde_json::Value> = Vec::new();
        while i < accounts.len()
            invariant
                i <= accounts@.len(),
                items@.len() == i,
                all == views(accounts@),
                sel == selected,
                forall|k: int|
                    0 <= k < i ==> value_text(#[trigger] items@[k]) == account_object(
                        all[k],
                        k == sel,
                    ),
            decreases accounts@.len() - i,
        {
            items.push(account_json(&accounts[i], i == selected));
            i = i + 1;
        }
        proof {
            assert(value_texts(items@) =~= account_objects(all, sel));
        }
        json_to_string(&json_array(items))
    } else {
        let mut out: Vec<String> = Vec::new();
        let ghost rows = account_rows(all, sel);
        while i < accounts.len()
            invariant
                i <= accounts@.len(),
                all == views(accounts@),
                sel == selected,
                rows == account_rows(all, sel),
                texts(out@) =~= rows.take(i as int),
            decreases accounts@.len() - i,
        {
            broadcast use texts_push;

            out.push(account_line(&accounts[i], i == selected));
            i = i + 1;
        }
        proof {
            assert(texts(out@) =~= rows);
        }
        join_all(&out, "\n")
    }
}

// ---------------------------------------------------------------------------
// Folders

/// How many messages of a folder there are, and how many unread ones.
pub open spec fn count_in(s: Seq<EmailView>, tag: Seq<char>) -> (nat, nat)
    decreases s.len(),
{
    if s.len() == 0 {
        (0, 0)
    } else {
        let before = count_in(s.drop_last(), tag);
        let e = s.last();
        if e.folder == tag {
            (before.0 + 1, if e.read {
                before.1
            } else {
                before.1 + 1
            })
        } else {
            before
        }
    }
}

pub fn count_messages(emails: &[Email], tag: &str) -> (r: (usize, usize))
    ensures
        (r.0 as nat, r.1 as nat) == count_in(views(emails@), tag@),
{
    let ghost all = views(emails@);
    let mut total: usize = 0;
    let mut unread: usize = 0;
    let mut i: usize = 0;
    while i < emails.len()
        invariant
            i <= emails@.len(),
            all == views(emails@),
            (total as nat, unread as nat) == count_in(all.take(i as int), tag@),
            total <= i,
            unread <= i,
        decreases emails@.len() - i,
    {
        assert(all.take(i + 1).drop_last() =~= all.take(i as int));
        if same(emails[i].folder.as_str(), tag) {
            total = total + 1;
            if !emails[i].read {
                unread = unread + 1;
            }
        }
        i = i + 1;
    }
    assert(all.take(i as int) =~= all);
    (total, unread)
}

pub open spec fn folder_object(
    f: FolderInfoView,
    count: (nat, nat),
    current: Seq<char>,
) -> Seq<char> {
    object_text(
        seq![
            member("current"@, json_flag(f.tag == current)),
            member("label"@, json_string(f.label)),
            member(
                "mailbox"@,
                if f.mailbox.len() == 0 {
                    "null"@
                } else {
                    json_string(f.mailbox)
                },
            ),
            member("messages"@, decimal(count.0)),
            member("tag"@, json_string(f.tag)),
            member("unread"@, decimal(count.1)),
        ],
    )
}

pub open spec fn folder_row(f: FolderInfoView, count: (nat, nat), current: Seq<char>) -> Seq<
    char,
> {
    cell_text(f.tag) + "\t"@ + cell_text(f.label) + "\t"@ + (if f.mailbox.len() == 0 {
        "(local)"@
    } else {
        cell_text(f.mailbox)
    }) + "\t"@ + (if f.tag == current {
        "current"@
    } else {
        "-"@
    }) + "\t"@ + decimal(count.0) + "\t"@ + decimal(count.1)
}

pub open spec fn folders_reply(
    folders: Seq<FolderInfoView>,
    emails: Seq<EmailView>,
    current: Seq<char>,
    json: bool,
) -> Seq<char> {
    if json {
        array_text(
            folders.map_values(
                |f: FolderInfoView| folder_object(f, count_in(emails, f.tag), current),
            ),
        )
    } else {
        join(
            folders.map_values(
                |f: FolderInfoView| folder_row(f, count_in(emails, f.tag), current),
            ),
            "\n"@,
        )
    }
}

fn folder_json(f: &FolderInfo, emails: &[Email], current: &str) -> (r: serde_json::Value)
    ensures
        value_text(r) == folder_object(f@, count_in(views(emails@), f@.tag), current@),
{
    let count = count_messages(emails, f.tag.as_str());
    let mailbox = if f.mailbox.as_str().is_empty() {
        json_null()
    } else {
        json_text(f.mailbox.as_str())
    };
    let mut fields: Vec<(String, serde_json::Value)> = Vec::new();
    fields.push(field("current", json_bool(same(f.tag.as_str(), current))));
    fields.push(field("label", json_text(f.label.as_str())));
    fields.push(field("mailbox", mailbox));
    fields.push(field("messages", json_number(count.0 as u64)));
    fields.push(field("tag", json_text(f.tag.as_str())));
    fields.push(field("unread", json_number(count.1 as u64)));
    proof {
        reveal_strlit("current");
        reveal_strlit("label");
        reveal_strlit("mailbox");
        reveal_strlit("messages");
        reveal_strlit("tag");
        reveal_strlit("unread");
        assert("current"@.len() == 7 && "label"@.len() == 5 && "mailbox"@.len() == 7);
        assert("messages"@.len() == 8 && "tag"@.len() == 3 && "unread"@.len() == 6);
        assert("current"@[0] == 'c' && "mailbox"@[0] == 'm');
        let n = count_in(views(emails@), f@.tag);
        assert(members_of(fields@) =~= seq![
            member("current"@, json_flag(f@.tag == current@)),
            member("label"@, json_string(f@.label)),
            member(
                "mailbox"@,
                if f@.mailbox.len() == 0 {
                    "null"@
                } else {
                    json_string(f@.mailbox)
                },
            ),
            member("messages"@, decimal(n.0)),
            member("tag"@, json_string(f@.tag)),
            member("unread"@, decimal(n.1)),
        ]);
    }
    json_object(fields)
}

fn folder_line(f: &FolderInfo, emails: &[Email], current: &str) -> (r: String)
    ensures
        r@ == folder_row(f@, count_in(views(emails@), f@.tag), current@),
{
    let count = count_messages(emails, f.tag.as_str());
    let mut out = cell(f.tag.as_str());
    out.append("\t");
    out.append(cell(f.label.as_str()).as_str());
    out.append("\t");
    if f.mailbox.as_str().is_empty() {
        out.append("(local)");
    } else {
        out.append(cell(f.mailbox.as_str()).as_str());
    }
    out.append("\t");
    if same(f.tag.as_str(), current) {
        out.append("current");
    } else {
        out.append("-");
    }
    out.append("\t");
    out.append(decimal_text(count.0 as u64).as_str());
    out.append("\t");
    out.append(decimal_text(count.1 as u64).as_str());
    out
}

/// `folders`, with per-folder counts from the cached messages.
pub fn render_folders(
    folders: &[FolderInfo],
    emails: &[Email],
    current: &str,
    json: bool,
) -> (r: String)
    ensures
        r@ == folders_reply(views(folders@), views(emails@), current@, json),
{
    let ghost all = views(folders@);
    let ghost mail = views(emails@);
    let mut i: usize = 0;
    if json {
        let ghost rows = all.map_values(
            |f: FolderInfoView| folder_object(f, count_in(mail, f.tag), current@),
        );
        let mut items: Vec<serde_json::Value> = Vec::new();
        while i < folders.len()
            invariant
                i <= folders@.len(),
                items@.len() == i,
                all == views(folders@),
                mail == views(emails@),
                rows == all.map_values(
                    |f: FolderInfoView| folder_object(f, count_in(mail, f.tag), current@),
                ),
                forall|k: int| 0 <= k < i ==> value_text(#[trigger] items@[k]) == rows[k],
            decreases folders@.len() - i,
        {
            items.push(folder_json(&folders[i], emails, current));
            i = i + 1;
        }
        proof {
            assert(value_texts(items@) =~= rows);
        }
        json_to_string(&json_array(items))
    } else {
        let ghost rows = all.map_values(
            |f: FolderInfoView| folder_row(f, count_in(mail, f.tag), current@),
        );
        let mut out: Vec<String> = Vec::new();
        while i < folders.len()
            invariant
                i <= folders@.len(),
                all == views(folders@),
                mail == views(emails@),
                rows == all.map_values(
                    |f: FolderInfoView| folder_row(f, count_in(mail, f.tag), current@),
                ),
                texts(out@) =~= rows.take(i as int),
            decreases folders@.len() - i,
        {
            broadcast use texts_push;

            out.push(folder_line(&folders[i], emails, current));
            i = i + 1;
        }
        proof {
            assert(texts(out@) =~= rows);
        }
        join_all(&out, "\n")
    }
}

// ---------------------------------------------------------------------------
// Status

/// What `status` reports.
pub struct StatusInfo {
    pub account: Option<String>,
    pub accounts: usize,
    pub folder_tag: String,
    pub folder_label: String,
    pub cached: usize,
    pub in_folder: usize,
    pub unread_in_folder: usize,
    pub selected: Option<usize>,
    pub syncing: bool,
    pub last_sync_secs_ago: Option<u64>,
}

#[verifier::ext_equal]
pub ghost struct StatusView {
    pub account: Option<Seq<char>>,
    pub accounts: nat,
    pub folder_tag: Seq<char>,
    pub folder_label: Seq<char>,
    pub cached: nat,
    pub in_folder: nat,
    pub unread_in_folder: nat,
    pub selected: Option<nat>,
    pub syncing: bool,
    pub last_sync_secs_ago: Option<nat>,
}

impl View for StatusInfo {
    type V = StatusView;

    open spec fn view(&self) -> StatusView {
        StatusView {
            account: opt_text(self.account),
            accounts: self.accounts as nat,
            folder_tag: self.folder_tag@,
            folder_label: self.folder_label@,
            cached: self.cached as nat,
            in_folder: self.in_folder as nat,
            unread_in_folder: self.unread_in_folder as nat,
            selected: match self.selected {
                Some(id) => Some(id as nat),
                None => None,
            },
            syncing: self.syncing,
            last_sync_secs_ago: as_nat(self.last_sync_secs_ago),
        }
    }
}

pub open spec fn status_object(s: StatusView, socket: Seq<char>) -> Seq<char> {
    object_text(
        seq![
            member("account"@, optional_text(s.account)),
            member("accounts"@, decimal(s.accounts)),
            member("cached"@, decimal(s.cached)),
            member("folder"@, json_string(s.folder_tag)),
            member("folder_label"@, json_string(s.folder_label)),
            member("in_folder"@, decimal(s.in_folder)),
            member("last_sync_secs_ago"@, optional_number(s.last_sync_secs_ago)),
            member("selected"@, optional_number(s.selected)),
            member("socket"@, json_string(socket)),
            member("syncing"@, json_flag(s.syncing)),
            member("unread_in_folder"@, decimal(s.unread_in_folder)),
        ],
    )
}

pub open spec fn status_text(s: StatusView, socket: Seq<char>) -> Seq<char> {
    let account = match s.account {
        Some(a) => a,
        None => "(none)"@,
    };
    let selected = match s.selected {
        Some(id) => decimal(id),
        None => "none"@,
    };
    let state = if s.syncing {
        "in flight"@
    } else {
        "idle"@
    };
    let last = match s.last_sync_secs_ago {
        Some(secs) => "last started "@ + decimal(secs) + "s ago"@,
        None => "never"@,
    };
    "account: "@ + account + " ("@ + decimal(s.accounts) + " configured)\nfolder: "@ + s.folder_tag
        + " ("@ + s.folder_label + ")\nmessages: "@ + decimal(s.cached) + " cached, "@ + decimal(
        s.in_folder,
    ) + " in folder, "@ + decimal(s.unread_in_folder) + " unread\nselected: "@ + selected
        + "\nsync: "@ + state + ", "@ + last + "\nsocket: "@ + socket
}

/// What tells the keys of a status apart.
proof fn reveal_status_keys()
    ensures
        "account"@.len() == 7 && "account"@[0] == 'a',
        "accounts"@.len() == 8 && "accounts"@[0] == 'a',
        "cached"@.len() == 6 && "cached"@[0] == 'c',
        "folder"@.len() == 6 && "folder"@[0] == 'f',
        "folder_label"@.len() == 12,
        "in_folder"@.len() == 9,
        "last_sync_secs_ago"@.len() == 18,
        "selected"@.len() == 8 && "selected"@[0] == 's',
        "socket"@.len() == 6 && "socket"@[0] == 's',
        "syncing"@.len() == 7 && "syncing"@[0] == 's',
        "unread_in_folder"@.len() == 16,
{
    reveal_strlit("account");
    reveal_strlit("accounts");
    reveal_strlit("cached");
    reveal_strlit("folder");
    reveal_strlit("folder_label");
    reveal_strlit("in_folder");
    reveal_strlit("last_sync_secs_ago");
    reveal_strlit("selected");
    reveal_strlit("socket");
    reveal_strlit("syncing");
    reveal_strlit("unread_in_folder");
}

#[verifier::rlimit(40)]
fn status_json(s: &StatusInfo, socket: &str) -> (r: serde_json::Value)
    ensures
        value_text(r) == status_object(s@, socket@),
{
    let selected: Option<u64> = match s.selected {
        Some(id) => Some(id as u64),
        None => None,
    };
    let mut fields: Vec<(String, serde_json::Value)> = Vec::new();
    fields.push(field("account", json_opt_text(&s.account)));
    fields.push(field("accounts", json_number(s.accounts as u64)));
    fields.push(field("cached", json_number(s.cached as u64)));
    fields.push(field("folder", json_text(s.folder_tag.as_str())));
    fields.push(field("folder_label", json_text(s.folder_label.as_str())));
    fields.push(field("in_folder", json_number(s.in_folder as u64)));
    fields.push(field("last_sync_secs_ago", json_opt_number(s.last_sync_secs_ago)));
    fields.push(field("selected", json_opt_number(selected)));
    fields.push(field("socket", json_text(socket)));
    fields.push(field("syncing", json_bool(s.syncing)));
    fields.push(field("unread_in_folder", json_number(s.unread_in_folder as u64)));
    proof {
        reveal_status_keys();
        let v = s@;
        assert(as_nat(selected) == v.selected);
        assert(members_of(fields@) =~= seq![
            member("account"@, optional_text(v.account)),
            member("accounts"@, decimal(v.accounts)),
            member("cached"@, decimal(v.cached)),
            member("folder"@, json_string(v.folder_tag)),
            member("folder_label"@, json_string(v.folder_label)),
            member("in_folder"@, decimal(v.in_folder)),
            member("last_sync_secs_ago"@, optional_number(v.last_sync_secs_ago)),
            member("selected"@, optional_number(v.selected)),
            member("socket"@, json_string(socket@)),
            member("syncing"@, json_flag(v.syncing)),
            member("unread_in_folder"@, decimal(v.unread_in_folder)),
        ]);
    }
    json_object(fields)
}

/// `status`, with the path of the socket it is asked on.
pub fn render_status(s: &StatusInfo, socket: &str, json: bool) -> (r: String)
    ensures
        r@ == if json {
            status_object(s@, socket@)
        } else {
            status_text(s@, socket@)
        },
{
    if json {
        return json_to_string(&status_json(s, socket));
    }
    let last = match s.last_sync_secs_ago {
        Some(secs) => {
            let mut t = "last started ".to_owned();
            t.append(decimal_text(secs).as_str());
            t.append("s ago");
            t
        },
        None => "never".to_owned(),
    };
    let selected = match s.selected {
        Some(id) => decimal_text(id as u64),
        None => "none".to_owned(),
    };
    let mut out = "account: ".to_owned();
    match &s.account {
        Some(a) => out.append(a.as_str()),
        None => out.append("(none)"),
    }
    out.append(" (");
    out.append(decimal_text(s.accounts as u64).as_str());
    out.append(" configured)\nfolder: ");
    out.append(s.folder_tag.as_str());
    out.append(" (");
    out.append(s.folder_label.as_str());
    out.append(")\nmessages: ");
    out.append(decimal_text(s.cached as u64).as_str());
    out.append(" cached, ");
    out.append(decimal_text(s.in_folder as u64).as_str());
    out.append(" in folder, ");
    out.append(decimal_text(s.unread_in_folder as u64).as_str());
    out.append(" unread\nselected: ");
    out.append(selected.as_str());
    out.append("\nsync: ");
    if s.syncing {
        out.append("in flight");
    } else {
        out.append("idle");
    }
    out.append(", ");
    out.append(last.as_str());
    out.append("\nsocket: ");
    out.append(socket);
    out
}

// ---------------------------------------------------------------------------
// Laws

/// A text that no row grammar trips over.
pub open spec fn is_cell(s: Seq<char>) -> bool {
    forall|i: int|
        0 <= i < s.len() ==> s[i] != '\t' && s[i] != '\n' && s[i] != '\r'
}

/// A cell holds no tab or line break, is as long as what it shows, and leaves
/// a text without any as it is.
pub proof fn cells_have_no_separators(s: Seq<char>)
    ensures
        is_cell(cell_text(s)),
        cell_text(s).len() == s.len(),
        is_cell(s) ==> cell_text(s) == s,
{
    if is_cell(s) {
        assert(cell_text(s) =~= s);
    }
}

/// What an account shows of itself: no password, token or client secret.
pub open spec fn same_public_face(a: AccountView, b: AccountView) -> bool {
    a.email == b.email && a.imap == b.imap && a.smtp == b.smtp && a.is_default == b.is_default
        && a.is_oauth == b.is_oauth
}

/// Replies never carry secrets: accounts that differ in their secrets alone
/// are listed alike.
pub proof fn account_replies_ignore_secrets(
    a: Seq<AccountView>,
    b: Seq<AccountView>,
    selected: int,
    json: bool,
)
    requires
        a.len() == b.len(),
        forall|i: int| 0 <= i < a.len() ==> same_public_face(#[trigger] a[i], b[i]),
    ensures
        accounts_reply(a, selected, json) == accounts_reply(b, selected, json),
{
    assert forall|i: int| 0 <= i < a.len() implies account_object(a[i], i == selected)
        == account_object(b[i], i == selected) && account_row(a[i], i == selected) == account_row(
        b[i],
        i == selected,
    ) by {
        assert(same_public_face(a[i], b[i]));
    }
    assert(account_objects(a, selected) =~= account_objects(b, selected));
    assert(account_rows(a, selected) =~= account_rows(b, selected));
}

/// A folder never has more unread messages than messages.
pub proof fn unread_is_at_most_all(s: Seq<EmailView>, tag: Seq<char>)
    ensures
        count_in(s, tag).1 <= count_in(s, tag).0 <= s.len(),
    decreases s.len(),
{
    if s.len() > 0 {
        unread_is_at_most_all(s.drop_last(), tag);
    }
}

} // verus!
