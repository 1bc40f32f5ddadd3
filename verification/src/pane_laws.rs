//! What holds of the pane that shows HTML mail, and of the demo account.
use vstd::prelude::*;

use crate::demo::{demo_mail, demo_mailbox};
use crate::path::below;
use crate::webview::{
    buffer_pixel, clear_actions, cleared, filter_store, image_actions, image_state, is_text,
    links_left, load_actions, loaded, next_link, pixel, rendered_state, stashed, verdict,
    without_nul, ActionView, DecisionKind, FrameView, NavigationType, Verdict, WebState,
};

verus! {

// ---------------------------------------------------------------------------
// The shown message

/// A message is shown without its NUL characters; every other character stays,
/// in its place among the others.
pub proof fn only_nul_is_left_out(html: Seq<char>)
    ensures
        without_nul(html) == html.filter(|c: char| c != '\0'),
        (forall|i: int| 0 <= i < html.len() ==> html[i] != '\0') ==> without_nul(html) == html,
    decreases html.len(),
{
    reveal(Seq::filter);
    if html.len() > 0 {
        let rest = html.drop_last();
        only_nul_is_left_out(rest);
        if forall|i: int| 0 <= i < html.len() ==> html[i] != '\0' {
            assert forall|i: int| 0 <= i < rest.len() implies rest[i] != '\0' by {
                assert(html[i] == rest[i]);
            }
            assert(html[html.len() - 1] != '\0');
            assert(rest.push(html.last()) =~= html);
        }
    }
}

/// Showing a message renders it once, with images off, after the view was
/// opened if it was not open yet; the picture of the message before is given
/// back, and no frame of it is left.
pub proof fn a_message_is_rendered_once(s: WebState, html: Seq<char>)
    ensures
        ({
            let actions = load_actions(s, html);
            let t = rendered_state(loaded(s, html));
            &&& t.html == Some(without_nul(html))
            &&& t.opened && !t.images_allowed && t.pending is None && t.image is None
            &&& t.links == s.links && t.last_frame == s.last_frame && t.has_filter == s.has_filter
            &&& actions.contains(ActionView::Render { html: without_nul(html), images: false })
            &&& forall|i: int|
                0 <= i < actions.len() ==> ((#[trigger] actions[i]) is Render ==> actions[i]
                    == ActionView::Render { html: without_nul(html), images: false })
            &&& !s.opened ==> actions[0] == ActionView::Open { images: false }
            &&& s.opened ==> !actions.contains(ActionView::Open { images: false })
            &&& forall|i: int|
                0 <= i < actions.len() ==> ((#[trigger] actions[i]) is FreeImage ==> (
                s.image matches Some(im) && actions[i] == ActionView::FreeImage(im.0)))
            &&& s.image matches Some(im) ==> actions.last() == ActionView::FreeImage(im.0)
            &&& s.has_filter ==> actions.contains(ActionView::Block)
            &&& !actions.contains(ActionView::Unblock)
            &&& !s.has_filter ==> !actions.contains(ActionView::Block)
        }),
{
    let actions = load_actions(s, html);
    let shown = ActionView::Render { html: without_nul(html), images: false };
    let at: int = if s.has_filter {
        if s.opened {
            1
        } else {
            2
        }
    } else {
        if s.opened {
            0
        } else {
            1
        }
    };
    assert(actions[at] == shown);
    if s.has_filter {
        assert(actions[at - 1] == ActionView::Block);
    }
}

/// A change of mind on remote content lifts or restores the block, and renders
/// the same message again with images as chosen; the same choice again does
/// nothing.
pub proof fn a_choice_renders_the_message_again(s: WebState, allowed: bool)
    ensures
        allowed == s.images_allowed ==> image_actions(s, allowed).len() == 0 && image_state(
            s,
            allowed,
        ) == s,
        ({
            let actions = image_actions(s, allowed);
            let t = image_state(s, allowed);
            &&& t.images_allowed == allowed
            &&& t.html == s.html && t.links == s.links
            &&& allowed != s.images_allowed && s.has_filter ==> actions[0] == (if allowed {
                ActionView::Unblock
            } else {
                ActionView::Block
            })
            &&& allowed != s.images_allowed ==> (s.html matches Some(html) ==> actions.contains(
                ActionView::Render { html, images: allowed },
            ) && t.image is None && t.pending is None && (s.image matches Some(im) ==> actions.last()
                == ActionView::FreeImage(im.0)))
            &&& s.html is None ==> forall|i: int|
                0 <= i < actions.len() ==> !((#[trigger] actions[i]) is Render)
        }),
{
    if allowed != s.images_allowed {
        let actions = image_actions(s, allowed);
        match s.html {
            Some(html) => {
                let n: int = if s.has_filter {
                    1
                } else {
                    0
                };
                let at: int = if s.opened {
                    n
                } else {
                    2 * n + 1
                };
                assert(actions[at] == ActionView::Render { html, images: allowed });
            },
            None => {},
        }
    }
}

/// A cleared pane shows nothing, has no picture and forgets the links; an open
/// view is kept and blanked.
pub proof fn a_cleared_pane_is_empty(s: WebState)
    ensures
        ({
            let t = cleared(s);
            let actions = clear_actions(s);
            &&& t.html is None && t.links.len() == 0 && t.pending is None && t.image is None
            &&& t.opened == s.opened && t.images_allowed == s.images_allowed && t.has_filter
                == s.has_filter && t.last_frame == s.last_frame
            &&& s.opened <==> actions.contains(ActionView::Blank)
            &&& s.image matches Some(im) ==> actions[0] == ActionView::FreeImage(im.0)
            &&& actions.len() == (if s.opened {
                1int
            } else {
                0
            }) + (if s.image is Some {
                1int
            } else {
                0
            })
        }),
{
    let actions = clear_actions(s);
    if s.opened {
        assert(actions[actions.len() - 1] == ActionView::Blank);
    }
}

// ---------------------------------------------------------------------------
// Links

/// A link that is clicked is put aside behind those clicked before, whatever
/// window it is meant for, and handed out after them; nothing else is put
/// aside.
pub proof fn a_clicked_link_is_put_aside(
    links: Seq<Seq<char>>,
    kind: DecisionKind,
    ty: NavigationType,
    uri: Seq<char>,
)
    ensures
        kind != DecisionKind::Other && ty == NavigationType::LinkClicked && uri.len() > 0
            ==> stashed(links, kind, ty, Some(uri)) == links.push(uri),
        kind == DecisionKind::Other || ty != NavigationType::LinkClicked || uri.len() == 0
            ==> stashed(links, kind, ty, Some(uri)) == links,
        stashed(links, kind, ty, None) == links,
        kind == DecisionKind::Other ==> verdict(kind, ty) == Verdict::Use,
        next_link(links) is None <==> links.len() == 0,
        links.len() > 0 ==> next_link(links) == Some(links[0]) && links == seq![links[0]]
            + links_left(links),
{
    if links.len() > 0 {
        assert(links =~= seq![links[0]] + links_left(links));
    }
}

// ---------------------------------------------------------------------------
// Pictures

/// A shared buffer holds blue, green, red and alpha in this order, its rows a
/// stride apart; a frame holds red, green, blue and alpha, row after row.
pub proof fn colours_stand_in_their_order(
    src: Seq<u8>,
    stride: int,
    f: FrameView,
    x: int,
    y: int,
)
    ensures
        ({
            let i = y * stride + x * 4;
            buffer_pixel(src, stride, x, y) == (src[i + 2], src[i + 1], src[i], src[i + 3])
        }),
        ({
            let i = (y * f.width + x) * 4;
            pixel(f, x, y) == (f.pixels[i], f.pixels[i + 1], f.pixels[i + 2], f.pixels[i + 3])
        }),
{
}

// ---------------------------------------------------------------------------
// The clipboard and the filter store

/// Text formats are plain text with whatever parameters, and the two old names
/// for it.
pub proof fn text_formats_go_by_their_name(parameters: Seq<char>, f: Seq<char>)
    ensures
        is_text("text/plain"@ + parameters),
        is_text("UTF8_STRING"@),
        is_text("STRING"@),
        is_text(f) ==> f == "UTF8_STRING"@ || f == "STRING"@ || (f.len() >= "text/plain"@.len()
            && f.take("text/plain"@.len() as int) == "text/plain"@),
{
    let t = "text/plain"@ + parameters;
    assert(t.take("text/plain"@.len() as int) =~= "text/plain"@);
}

/// Filters are kept under the state directory where that is an absolute path,
/// else under the home directory, else nowhere.
pub proof fn filters_are_kept_under_the_state_directory(
    state: Option<Seq<char>>,
    home: Option<Seq<char>>,
    dir: Seq<char>,
)
    ensures
        state == Some(dir) && dir.len() > 0 && dir[0] == '/' ==> filter_store(state, home) == Some(
            below(dir, "cce/mail/content-filters"@),
        ),
        (state is None || state->0.len() == 0 || state->0[0] != '/') && home == Some(dir)
            ==> filter_store(state, home) == Some(
            below(below(dir, ".local/state"@), "cce/mail/content-filters"@),
        ),
        (state is None || state->0.len() == 0 || state->0[0] != '/') && home is None
            ==> filter_store(state, home) is None,
{
}

// ---------------------------------------------------------------------------
// The demo account

/// A demo message holds what it is made of, each in its field, and nothing
/// that a server would know.
pub proof fn a_demo_message_holds_what_it_is_given(
    id: usize,
    from: Seq<char>,
    to: Seq<char>,
    subject: Seq<char>,
    body: Seq<char>,
    date: Seq<char>,
    read: bool,
    folder: Seq<char>,
)
    ensures
        ({
            let e = demo_mail(id, from, to, subject, body, date, read, folder);
            &&& e.id == id && e.from == from && e.to == to && e.subject == subject && e.body
                == body && e.date == date && e.read == read && e.folder == folder
            &&& e.uid is None && e.ts is None && e.origin_folder is None
            &&& e.cc.len() == 0 && e.bcc.len() == 0 && e.attachments.len() == 0
                && e.remote_attachments.len() == 0
        }),
{
}

/// The demo mailbox numbers its messages from one; what the demo account sent
/// is from its own address, and what came in is to it.
pub proof fn demo_mail_is_from_and_to_the_demo_account(i: int)
    requires
        0 <= i < demo_mailbox().len(),
    ensures
        demo_mailbox().len() == 4,
        demo_mailbox()[i].id == i + 1,
        demo_mailbox()[i].folder == "sent"@ || demo_mailbox()[i].folder == "inbox"@,
        demo_mailbox()[i].folder == "sent"@ <==> i == 3,
        demo_mailbox()[i].folder == "sent"@ ==> demo_mailbox()[i].from
            == crate::accounts::MOCK_EMAIL@ && demo_mailbox()[i].read,
        demo_mailbox()[i].folder == "inbox"@ ==> demo_mailbox()[i].to
            == crate::accounts::MOCK_EMAIL@,
{
    reveal_strlit("sent");
    reveal_strlit("inbox");
    assert("sent"@.len() != "inbox"@.len());
}

} // verus!
