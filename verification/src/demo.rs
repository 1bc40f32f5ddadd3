//! What the built-in demo account shows before anything was ever saved.

use vstd::prelude::*;
use crate::model::{views, Email, EmailView};
use crate::text::same;

verus! {

pub const WELCOME_BODY: &'static str = "Welcome to the Clear Computing Environment (CCE) email client!\n\nThis application is built entirely using the cce-ui Rust framework, running on top of Wayland and wgpu. It provides a premium, responsive dark slate interface.\n\nEnjoy the clean lines and micro-animations!\n\nBest,\nSystem Daemon";

pub const PALETTE_BODY: &'static str = "Hi Lucas,\n\nWe have finalized the core Slate Dark styling color values for CCE application builders:\n- Window Background: [0.05, 0.05, 0.07, 1.0] (deep slate blue)\n- Sidebar Background: [0.08, 0.08, 0.12, 1.0]\n- Selection Highlight: [0.20, 0.45, 0.85, 0.50] (high contrast premium blue)\n- Text Bright: [0.88, 0.88, 0.92, 1.0]\n- Text Muted: [0.51, 0.51, 0.54, 1.0]\n\nPlease align all interface panels and layouts to use these values.\n\nThanks,\nDesign Team";

pub const BUILD_BODY: &'static str = "Repository: lsgalante/cce-mail\nBranch: main\nCommit: da8cf20fcb2c993c1c048ced4020\nStatus: SUCCESS\n\nAll unit tests passed. Binary compiled in 48.2s.\n\n---\nCodeberg Actions";

pub const REPLY_BODY: &'static str = "Thanks for sending the palette! I am implementing the email client right now using these specifications. The three-pane layout feels very premium.\n\n- Lucas";

/// A message of the demo account: never on a server, nothing attached.
pub open spec fn demo_mail(
    id: usize,
    from: Seq<char>,
    to: Seq<char>,
    subject: Seq<char>,
    body: Seq<char>,
    date: Seq<char>,
    read: bool,
    folder: Seq<char>,
) -> EmailView {
    EmailView {
        id,
        from,
        to,
        subject,
        body,
        date,
        read,
        folder,
        cc: Seq::empty(),
        bcc: Seq::empty(),
        attachments: Seq::empty(),
        remote_attachments: Seq::empty(),
        uid: None,
        ts: None,
        origin_folder: None,
    }
}

fn demo_email(
    id: usize,
    from: &str,
    to: &str,
    subject: &str,
    body: &str,
    date: &str,
    read: bool,
    folder: &str,
) -> (r: Email)
    ensures
        r@ == demo_mail(id, from@, to@, subject@, body@, date@, read, folder@),
{
    let r = Email {
        id,
        from: from.to_owned(),
        to: to.to_owned(),
        subject: subject.to_owned(),
        body: body.to_owned(),
        date: date.to_owned(),
        read,
        folder: folder.to_owned(),
        cc: String::new(),
        bcc: String::new(),
        attachments: Vec::new(),
        remote_attachments: Vec::new(),
        uid: None,
        ts: None,
        origin_folder: None,
    };
    proof {
        assert(r@ =~= demo_mail(id, from@, to@, subject@, body@, date@, read, folder@));
    }
    r
}

/// Three messages that came in and one that was sent.
pub open spec fn demo_mailbox() -> Seq<EmailView> {
    seq![
        demo_mail(
            1,
            "System Daemon <daemon@cce-ui.org>"@,
            "lsgalante@cce-ui.org"@,
            "Welcome to Clear Mail"@,
            WELCOME_BODY@,
            "12:15 PM"@,
            false,
            "inbox"@,
        ),
        demo_mail(
            2,
            "Design Team <design@cce-ui.org>"@,
            "lsgalante@cce-ui.org"@,
            "Slate Dark Theme Palette Guidelines"@,
            PALETTE_BODY@,
            "Yesterday"@,
            false,
            "inbox"@,
        ),
        demo_mail(
            3,
            "Codeberg CI <ci@codeberg.org>"@,
            "lsgalante@cce-ui.org"@,
            "Build Success: cce-mail (main)"@,
            BUILD_BODY@,
            "June 3"@,
            true,
            "inbox"@,
        ),
        demo_mail(
            4,
            "lsgalante@cce-ui.org"@,
            "Design Team <design@cce-ui.org>"@,
            "Re: Slate Dark Theme Palette Guidelines"@,
            REPLY_BODY@,
            "Yesterday"@,
            true,
            "sent"@,
        ),
    ]
}

pub fn get_default_mock_emails() -> (r: Vec<Email>)
    ensures
        views(r@) == demo_mailbox(),
{
    let mut r: Vec<Email> = Vec::new();
    r.push(
        demo_email(
            1,
            "System Daemon <daemon@cce-ui.org>",
            "lsgalante@cce-ui.org",
            "Welcome to Clear Mail",
            WELCOME_BODY,
            "12:15 PM",
            false,
            "inbox",
        ),
    );
    r.push(
        demo_email(
            2,
            "Design Team <design@cce-ui.org>",
            "lsgalante@cce-ui.org",
            "Slate Dark Theme Palette Guidelines",
            PALETTE_BODY,
            "Yesterday",
            false,
            "inbox",
        ),
    );
    r.push(
        demo_email(
            3,
            "Codeberg CI <ci@codeberg.org>",
            "lsgalante@cce-ui.org",
            "Build Success: cce-mail (main)",
            BUILD_BODY,
            "June 3",
            true,
            "inbox",
        ),
    );
    r.push(
        demo_email(
            4,
            "lsgalante@cce-ui.org",
            "Design Team <design@cce-ui.org>",
            "Re: Slate Dark Theme Palette Guidelines",
            REPLY_BODY,
            "Yesterday",
            true,
            "sent",
        ),
    );
    proof {
        assert(views(r@) =~= demo_mailbox());
    }
    r
}

/// The mail of an account of which none is stored: the demo account's own,
/// nothing for any other.
pub fn initial_emails(email: &str) -> (r: Vec<Email>)
    ensures
        views(r@) == if email@ == "lsgalante@cce-ui.org"@ {
            demo_mailbox()
        } else {
            Seq::empty()
        },
{
    if same(email, "lsgalante@cce-ui.org") {
        get_default_mock_emails()
    } else {
        let none: Vec<Email> = Vec::new();
        assert(views(none@) =~= Seq::<EmailView>::empty());
        none
    }
}

} // verus!
