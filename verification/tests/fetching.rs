use std::collections::HashSet;

use cce_mail::fetch::{
    fetching_message, finish, pending_mail, plan_sync, seen_uids, take_text, text_requests,
    uid_set_text, HeaderReply, TextReply, FLAGS_QUERY, HEADER_QUERY,
};
use cce_mail::model::FolderSync;
use cce_mail::pass::{FetchKind, FolderPass, FolderReply, FolderStep};
use cce_mail::session::Said;
use cce_mail::structure::{BodyStructure, Part, TransferEncoding};

fn known(uids: &[u32]) -> HashSet<u32> {
    uids.iter().copied().collect()
}

#[test]
fn a_pass_asks_for_what_is_missing() {
    let plan = plan_sync(vec![5, 3, 9, 1], &known(&[3, 5]));
    assert_eq!(plan.server_uids, vec![1, 3, 5, 9]);
    assert_eq!(plan.batches, vec![vec![9, 1]]);
    assert_eq!(plan.count, 2);
    assert_eq!(plan.remaining, 0);
    assert_eq!(plan.recent_known, vec![3, 5]);
}

#[test]
fn a_long_history_comes_in_passes() {
    let all: Vec<u32> = (1..=1230).collect();
    let mut have: HashSet<u32> = HashSet::new();
    let mut passes = 0;
    loop {
        let plan = plan_sync(all.clone(), &have);
        let asked: Vec<u32> = plan.batches.iter().flatten().copied().collect();
        assert_eq!(asked.len(), plan.count);
        assert!(plan.batches.iter().all(|b| b.len() <= 50));
        assert!(plan.batches.iter().all(|b| b.windows(2).all(|w| w[0] > w[1])));
        // The newest of what is missing comes first.
        assert_eq!(asked.iter().max().copied(), Some(1230 - have.len() as u32));
        have.extend(&asked);
        passes += 1;
        if plan.remaining == 0 {
            break;
        }
        assert_eq!(plan.remaining, 1230 - have.len());
    }
    assert_eq!(passes, 3);
    assert_eq!(have.len(), 1230);
    let plan = plan_sync(all, &have);
    assert!(plan.batches.is_empty());
    assert_eq!(plan.recent_known.len(), 200);
    assert_eq!(plan.recent_known[0], 1031);
}

#[test]
fn the_newest_round_trip_comes_first() {
    let plan = plan_sync((1..=60).collect(), &HashSet::new());
    let newest: Vec<u32> = (11..=60).rev().collect();
    let oldest: Vec<u32> = (1..=10).rev().collect();
    assert_eq!(plan.batches, vec![newest, oldest]);
}

#[test]
fn the_user_is_told_what_comes() {
    assert_eq!(fetching_message(0, 0), None);
    assert_eq!(fetching_message(3, 0).as_deref(), Some("Fetching 3 messages..."));
    assert_eq!(
        fetching_message(500, 730).as_deref(),
        Some("Fetching 500 messages (730 older still to come)...")
    );
    assert_eq!(uid_set_text(&vec![9, 1]), "9,1");
}

fn text(subtype: &str) -> BodyStructure {
    BodyStructure::Text(Part {
        ty: "TEXT".into(),
        subtype: subtype.into(),
        params: vec![("CHARSET".into(), "utf-8".into())],
        disposition: None,
        encoding: TransferEncoding::SevenBit,
        octets: 5,
    })
}

fn picture() -> BodyStructure {
    BodyStructure::Basic(Part {
        ty: "IMAGE".into(),
        subtype: "PNG".into(),
        params: vec![("NAME".into(), "p.png".into())],
        disposition: None,
        encoding: TransferEncoding::Base64,
        octets: 5,
    })
}

fn reply(uid: Option<u32>, seen: bool, structure: Option<BodyStructure>) -> HeaderReply {
    HeaderReply {
        uid,
        seen,
        header: Some(b"From: a@b.c\r\nTo: me@x.y\r\nSubject: Hi\r\n\r\n".to_vec()),
        structure,
    }
}

#[test]
fn text_is_asked_for_by_part() {
    let replies = vec![
        reply(Some(9), true, Some(text("PLAIN"))),
        reply(None, true, Some(text("PLAIN"))),
        reply(
            Some(8),
            false,
            Some(BodyStructure::Multipart(vec![text("PLAIN"), picture()])),
        ),
        reply(Some(7), false, None),
        reply(
            Some(6),
            false,
            Some(BodyStructure::Multipart(vec![picture(), text("HTML")])),
        ),
    ];
    let mut pending = pending_mail(&replies, "me@x.y");
    assert_eq!(pending.iter().map(|p| p.uid).collect::<Vec<_>>(), vec![9, 8, 7, 6]);
    let requests = text_requests(&pending);
    assert_eq!(requests.len(), 3);
    assert_eq!(requests[0].set, "9,8");
    assert_eq!(requests[0].query, "(UID BODY.PEEK[1]<0.65536>)");
    assert_eq!(requests[0].path, Some(vec![1]));
    assert_eq!(requests[1].set, "6");
    assert_eq!(requests[1].path, Some(vec![2]));
    assert_eq!(requests[2].set, "7");
    assert_eq!(requests[2].query, "(UID BODY.PEEK[]<0.262144>)");
    assert_eq!(requests[2].path, None);

    take_text(
        &mut pending,
        &vec![
            TextReply { uid: Some(9), bytes: Some(b"nine".to_vec()) },
            TextReply { uid: Some(8), bytes: None },
            TextReply { uid: None, bytes: Some(b"lost".to_vec()) },
            TextReply { uid: Some(77), bytes: Some(b"stray".to_vec()) },
        ],
        false,
    );
    take_text(
        &mut pending,
        &vec![TextReply {
            uid: Some(7),
            bytes: Some(b"From: a@b.c\r\nContent-Type: text/plain\r\n\r\nseven".to_vec()),
        }],
        true,
    );
    let mail = finish(pending, "inbox");
    assert_eq!(mail.len(), 4);
    assert_eq!(mail[0].body, "nine");
    assert_eq!(mail[0].uid, Some(9));
    assert!(mail[0].read);
    assert_eq!(mail[1].body, "");
    assert_eq!(mail[1].remote_attachments[0].name, "p.png");
    assert_eq!(mail[2].body, "seven");
    assert!(mail.iter().all(|e| e.id == 0 && e.folder == "inbox" && e.subject == "Hi"));
}

#[test]
fn flags_name_the_seen_ones() {
    assert_eq!(seen_uids(&vec![(Some(1), true), (None, true), (Some(2), false)]), vec![1]);
}

/// Play a whole pass against a mailbox where fetches of some kinds fail.
fn play(server: Vec<u32>, have: &[u32], fail: &dyn Fn(&FolderStep) -> bool) -> (Option<FolderSync>, Vec<Said>) {
    let mut pass = FolderPass::new("me@x.y", "INBOX", "inbox", known(have));
    let mut said = Vec::new();
    for _ in 0..200 {
        let step = pass.step();
        let answer = if fail(&step) {
            match step {
                FolderStep::Finished | FolderStep::GivenUp => return (pass.result(), said),
                _ => FolderReply::Failed("down".into()),
            }
        } else {
            match step {
                FolderStep::Select(m) => {
                    assert_eq!(m, "INBOX");
                    FolderReply::Selected
                }
                FolderStep::Search => FolderReply::Uids(server.clone()),
                FolderStep::Fetch { set, query, kind } => {
                    let uids: Vec<u32> = set.split(',').map(|u| u.parse().unwrap()).collect();
                    match kind {
                        FetchKind::Headers => {
                            assert_eq!(query, HEADER_QUERY);
                            FolderReply::Headers(
                                uids.iter()
                                    .map(|u| reply(Some(*u), false, Some(text("PLAIN"))))
                                    .collect(),
                            )
                        }
                        FetchKind::Text(path) => {
                            assert_eq!(path, Some(vec![1]));
                            FolderReply::Texts(
                                uids.iter()
                                    .map(|u| TextReply {
                                        uid: Some(*u),
                                        bytes: Some(format!("body {u}").into_bytes()),
                                    })
                                    .collect(),
                            )
                        }
                        FetchKind::Flags => {
                            assert_eq!(query, FLAGS_QUERY);
                            FolderReply::Flags(uids.iter().map(|u| (Some(*u), true)).collect())
                        }
                    }
                }
                FolderStep::Finished | FolderStep::GivenUp => return (pass.result(), said),
            }
        };
        let (next, more) = pass.take(answer);
        pass = next;
        said.extend(more);
    }
    panic!("the pass does not end");
}

#[test]
fn a_pass_brings_the_mailbox_in() {
    let server: Vec<u32> = (1..=120).collect();
    let (result, said) = play(server.clone(), &[1, 2, 3], &|_| false);
    let f = result.unwrap();
    assert_eq!(f.folder, "inbox");
    assert_eq!(f.server_uids, server);
    assert_eq!(f.fetched.len(), 117);
    assert!(f.fetched.iter().all(|e| e.body == format!("body {}", e.uid.unwrap())));
    assert_eq!(f.seen_uids, vec![1, 2, 3]);
    assert_eq!(f.remaining, 0);
    assert_eq!(said, vec![Said::Note("Fetching 117 messages...".into())]);
}

#[test]
fn a_mailbox_that_cannot_be_selected_is_given_up() {
    let (result, said) = play(vec![1], &[], &|s| matches!(s, FolderStep::Select(_)));
    assert!(result.is_none());
    assert_eq!(said, vec![Said::Error("Failed to select INBOX: down".into())]);
    let (result, said) = play(vec![1], &[], &|s| matches!(s, FolderStep::Search));
    assert!(result.is_none());
    assert_eq!(said, vec![Said::Error("IMAP Search failed: down".into())]);
}

#[test]
fn a_failed_fetch_costs_only_its_own_mail() {
    let headers = |s: &FolderStep| {
        matches!(s, FolderStep::Fetch { kind: FetchKind::Headers, .. })
    };
    let (result, said) = play(vec![1, 2], &[1], &headers);
    let f = result.unwrap();
    assert!(f.fetched.is_empty());
    assert_eq!(f.server_uids, vec![1, 2]);
    assert_eq!(f.seen_uids, vec![1]);
    assert!(said.contains(&Said::Error("IMAP Fetch failed: down".into())));

    let texts = |s: &FolderStep| {
        matches!(s, FolderStep::Fetch { kind: FetchKind::Text(_), .. })
    };
    let (result, said) = play(vec![1, 2], &[1], &texts);
    let f = result.unwrap();
    assert_eq!(f.fetched.len(), 1);
    assert_eq!(f.fetched[0].body, "");
    assert!(said.contains(&Said::Error("IMAP part fetch failed: down".into())));

    let flags = |s: &FolderStep| {
        matches!(s, FolderStep::Fetch { kind: FetchKind::Flags, .. })
    };
    let (result, said) = play(vec![1, 2], &[1], &flags);
    let f = result.unwrap();
    assert!(f.seen_uids.is_empty());
    assert_eq!(f.fetched.len(), 1);
    assert!(said.contains(&Said::Log("IMAP flag refresh failed: down".into())));
}

#[test]
fn an_up_to_date_mailbox_needs_no_fetch() {
    let (result, said) = play(vec![], &[], &|_| false);
    let f = result.unwrap();
    assert!(f.fetched.is_empty() && f.server_uids.is_empty());
    assert!(said.is_empty());
}

#[test]
fn a_reply_out_of_turn_changes_nothing() {
    let pass = FolderPass::new("me@x.y", "INBOX", "inbox", known(&[]));
    let (pass, said) = pass.take(FolderReply::Uids(vec![1]));
    assert!(said.is_empty());
    assert_eq!(pass.step(), FolderStep::Select("INBOX".into()));
    assert!(pass.result().is_none());
}
