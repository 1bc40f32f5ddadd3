use cce_mail::merge::{largest_id, merge_sync, uid_set};
use cce_mail::model::{Email, FolderSync};
use cce_mail::schedule::merge_fits;

fn msg(id: usize, uid: Option<u32>, folder: &str, subject: &str, read: bool) -> Email {
    Email {
        id,
        uid,
        from: "someone@example.org".to_string(),
        to: "me@example.org".to_string(),
        subject: subject.to_string(),
        body: String::new(),
        date: "today".to_string(),
        read,
        folder: folder.to_string(),
        cc: String::new(),
        bcc: String::new(),
        attachments: Vec::new(),
        remote_attachments: Vec::new(),
        ts: None,
        origin_folder: None,
    }
}

fn folder_sync(folder: &str, fetched: Vec<Email>, server: Vec<u32>) -> FolderSync {
    FolderSync {
        folder: folder.to_string(),
        fetched,
        server_uids: server,
        seen_uids: Vec::new(),
        remaining: 0,
    }
}

#[test]
fn merge_keeps_history_and_adds_the_new() {
    // The whole point: a later pass must not discard what an earlier one
    // downloaded.
    let prior = vec![msg(1, Some(100), "inbox", "old", true)];
    let f = folder_sync("inbox", vec![msg(0, Some(101), "inbox", "new", false)], vec![100, 101]);
    let out = merge_sync(prior, &[f]);
    assert_eq!(out.len(), 2, "prior mail must survive the merge");
    assert!(out.iter().any(|e| e.subject == "old"));
    assert!(out.iter().any(|e| e.subject == "new"));
}

#[test]
fn merge_assigns_fresh_ids_without_collision() {
    let prior = vec![msg(7, Some(100), "inbox", "old", true)];
    let f = folder_sync(
        "inbox",
        vec![msg(0, Some(101), "inbox", "a", false), msg(0, Some(102), "inbox", "b", false)],
        vec![100, 101, 102],
    );
    let out = merge_sync(prior, &[f]);
    let mut ids: Vec<usize> = out.iter().map(|e| e.id).collect();
    ids.sort_unstable();
    ids.dedup();
    assert_eq!(ids.len(), out.len(), "ids must stay unique across the cache");
    assert!(ids.iter().all(|&i| i != 0), "every message gets a real id");
}

#[test]
fn merge_drops_mail_deleted_on_the_server() {
    let prior =
        vec![msg(1, Some(100), "inbox", "gone", true), msg(2, Some(101), "inbox", "kept", true)];
    let f = folder_sync("inbox", vec![], vec![101]);
    let out = merge_sync(prior, &[f]);
    assert_eq!(out.len(), 1);
    assert_eq!(out[0].subject, "kept");
}

#[test]
fn merge_leaves_other_folders_alone() {
    // An inbox pass says nothing about drafts, trash, or a sent mailbox
    // that could not be selected.
    let prior = vec![
        msg(1, None, "drafts", "draft", true),
        msg(2, Some(50), "trash", "trashed", true),
        msg(3, Some(60), "sent", "sent mail", true),
    ];
    let f = folder_sync("inbox", vec![], vec![]);
    let out = merge_sync(prior, &[f]);
    assert_eq!(out.len(), 3, "only the synced folder is reconciled");
}

#[test]
fn merge_keeps_local_read_over_server_unread() {
    // The seen-push is best-effort; a message the user opened here must
    // not flip back to unread because the server has not caught up.
    let prior = vec![msg(1, Some(100), "inbox", "read here", true)];
    let f = folder_sync("inbox", vec![msg(0, Some(100), "inbox", "read here", false)], vec![100]);
    let out = merge_sync(prior, &[f]);
    assert_eq!(out.len(), 1, "a refetched message is updated, not duplicated");
    assert!(out[0].read, "local read state wins");
    assert_eq!(out[0].id, 1, "identity survives a refetch");
}

#[test]
fn merge_adopts_server_seen_for_cached_mail() {
    let prior = vec![msg(1, Some(100), "inbox", "read elsewhere", false)];
    let mut f = folder_sync("inbox", vec![], vec![100]);
    f.seen_uids = vec![100];
    let out = merge_sync(prior, &[f]);
    assert!(out[0].read, "read on another client shows as read here");
}

#[test]
fn merge_drops_the_local_sent_copy_once_the_server_has_it() {
    let prior = vec![msg(1, None, "sent", "hello", true)];
    let f = folder_sync("sent", vec![msg(0, Some(9), "sent", "hello", true)], vec![9]);
    let out = merge_sync(prior, &[f]);
    assert_eq!(out.len(), 1, "the same message must not show twice");
    assert_eq!(out[0].uid, Some(9));
}

#[test]
fn merge_rekeys_ids_that_collide() {
    // Old caches really do contain these: a trashed message keeps the id a
    // later arrival is handed again.
    let prior = vec![
        msg(5, Some(200), "inbox", "arrived later", true),
        msg(5, Some(90), "trash", "trashed earlier", true),
    ];
    let out = merge_sync(prior, &[]);
    assert_eq!(out.len(), 2);
    assert_ne!(out[0].id, out[1].id, "colliding ids must be re-keyed");
    assert_eq!(out[0].id, 5, "the first in display order keeps its id");
}

#[test]
fn merge_orders_newest_first_with_local_mail_on_top() {
    let prior = vec![
        msg(1, Some(10), "inbox", "older", true),
        msg(2, Some(30), "inbox", "newer", true),
        msg(3, None, "drafts", "just written", true),
    ];
    let out = merge_sync(prior, &[]);
    assert_eq!(out[0].subject, "just written");
    assert_eq!(out[1].subject, "newer");
    assert_eq!(out[2].subject, "older");
}

#[test]
fn a_second_merge_of_the_same_changes_nothing() {
    let prior = vec![
        msg(1, Some(10), "inbox", "older", true),
        msg(9, None, "drafts", "draft", true),
    ];
    let f = || {
        folder_sync("inbox", vec![msg(0, Some(11), "inbox", "new", false)], vec![10, 11])
    };
    let once = merge_sync(prior, &[f()]);
    let twice = merge_sync(once.clone(), &[f()]);
    assert_eq!(once, twice);
}

#[test]
fn a_second_merge_leaves_even_an_odd_cache_alone() {
    let prior = vec![
        msg(0, Some(7), "inbox", "first", false),
        msg(3, Some(7), "inbox", "twin", false),
        msg(3, None, "sent", "filed", true),
        msg(3, Some(5), "inbox", "gone", true),
    ];
    let passes = || {
        let mut inbox = folder_sync(
            "inbox",
            vec![
                msg(0, Some(7), "inbox", "early", true),
                msg(0, Some(7), "inbox", "late", false),
                msg(0, Some(9), "inbox", "new", false),
            ],
            vec![7, 9],
        );
        inbox.seen_uids = vec![4];
        let sent = folder_sync("sent", vec![msg(0, Some(2), "sent", "filed", true)], vec![2]);
        [inbox, sent]
    };
    let once = merge_sync(prior, &passes());
    let subjects: Vec<&str> = once.iter().map(|e| e.subject.as_str()).collect();
    assert_eq!(subjects, vec!["new", "late", "twin", "filed"]);
    let mut ids: Vec<usize> = once.iter().map(|e| e.id).collect();
    ids.sort_unstable();
    ids.dedup();
    assert!(ids.len() == 4 && ids[0] > 0);
    assert_eq!(merge_sync(once.clone(), &passes()), once);
}

#[test]
fn a_message_fetched_again_is_refreshed_in_place() {
    let prior = vec![msg(4, Some(100), "inbox", "old", true), msg(5, Some(100), "sent", "s", true)];
    let f = folder_sync(
        "inbox",
        vec![msg(0, Some(100), "inbox", "first", false), msg(0, Some(100), "inbox", "last", false)],
        vec![100],
    );
    let out = merge_sync(prior, &[f]);
    assert_eq!(out.len(), 2);
    let held: Vec<&Email> = out.iter().filter(|e| e.folder == "inbox").collect();
    assert_eq!(held.len(), 1);
    assert_eq!((held[0].id, held[0].subject.as_str(), held[0].read), (4, "last", true));
}

#[test]
fn equal_uids_keep_their_order() {
    let prior = vec![
        msg(1, Some(10), "inbox", "a", true),
        msg(2, Some(10), "sent", "b", true),
        msg(3, None, "drafts", "c", true),
        msg(4, None, "drafts", "d", true),
    ];
    let out = merge_sync(prior, &[]);
    let subjects: Vec<&str> = out.iter().map(|e| e.subject.as_str()).collect();
    assert_eq!(subjects, vec!["c", "d", "a", "b"]);
}

#[test]
fn an_empty_merge_is_empty() {
    assert!(merge_sync(vec![], &[]).is_empty());
    assert_eq!(largest_id(&vec![]), 0);
    assert_eq!(largest_id(&vec![msg(4, None, "inbox", "x", true)]), 4);
    assert!(uid_set(&vec![1, 2, 1]).contains(&2));
    assert_eq!(uid_set(&vec![1, 2, 1]).len(), 2);
}

#[test]
fn a_merge_out_of_ids_does_not_fit() {
    let full = vec![msg(usize::MAX, Some(1), "inbox", "x", true)];
    let more = vec![folder_sync("inbox", vec![msg(0, Some(2), "inbox", "y", true)], vec![1, 2])];
    assert!(!merge_fits(&full, &more));
    assert!(merge_fits(&vec![msg(1, Some(1), "inbox", "x", true)], &more));
    // One id for the new message, one for the old should it need another.
    assert!(merge_fits(&vec![msg(usize::MAX - 3, Some(1), "inbox", "x", true)], &more));
    assert!(!merge_fits(&vec![msg(usize::MAX - 2, Some(1), "inbox", "x", true)], &more));
}
