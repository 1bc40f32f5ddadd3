use cce_mail::input::{
    button_number, keyval, modifiers, unicode_keysym, Key, ModifierBits, MouseButton, NamedKey,
};
use cce_mail::poll::{flags_of, GlibPoll, Interest, PollOp};
use cce_mail::webview::{
    copied_out, copy_frame, filter_directory, fourcc, is_text_format, pushed_in, DecisionKind,
    Frame, MailWebView, NavigationType, Verdict, ViewAction, BLOCK_REMOTE_FILTER,
};

fn render(html: &str, images: bool) -> ViewAction {
    ViewAction::Render { html: html.into(), images }
}

#[test]
fn the_first_message_opens_the_view_blocked() {
    let mut v = MailWebView::new(true);
    assert!(!v.is_open());
    let actions = v.load_html("<p>a</p>");
    assert_eq!(
        actions,
        vec![ViewAction::Open { images: false }, ViewAction::Block, render("<p>a</p>", false)]
    );
    assert!(v.is_open());
}

#[test]
fn allowing_images_lasts_for_one_message() {
    let mut v = MailWebView::new(true);
    v.load_html("one");
    assert_eq!(v.set_images_allowed(true), vec![ViewAction::Unblock, render("one", true)]);
    assert!(v.images_allowed());
    assert!(v.set_images_allowed(true).is_empty());
    // The next message is blocked again.
    assert_eq!(v.load_html("two"), vec![ViewAction::Block, render("two", false)]);
    assert!(!v.images_allowed());
}

#[test]
fn a_choice_is_taken_back() {
    let mut v = MailWebView::new(true);
    v.load_html("one");
    v.set_images_allowed(true);
    assert_eq!(v.set_images_allowed(false), vec![ViewAction::Block, render("one", false)]);
}

#[test]
fn without_a_filter_images_are_still_off() {
    let mut v = MailWebView::new(false);
    assert_eq!(
        v.load_html("x"),
        vec![ViewAction::Open { images: false }, render("x", false)]
    );
}

#[test]
fn nul_characters_are_stripped() {
    let mut v = MailWebView::new(true);
    assert!(v.load_html("a\0b\0").contains(&render("ab", false)));
}

#[test]
fn links_are_put_aside_in_order() {
    let mut v = MailWebView::new(true);
    v.load_html("x");
    let link = |v: &mut MailWebView, u: &str| {
        v.decide(DecisionKind::Navigation, NavigationType::LinkClicked, Some(u.into()))
    };
    assert_eq!(link(&mut v, "https://a"), Verdict::Ignore);
    assert_eq!(
        v.decide(DecisionKind::NewWindow, NavigationType::LinkClicked, Some("https://b".into())),
        Verdict::Ignore
    );
    // A window the page opens by itself is refused outright.
    assert_eq!(
        v.decide(DecisionKind::NewWindow, NavigationType::Other, Some("https://c".into())),
        Verdict::Ignore
    );
    assert_eq!(link(&mut v, ""), Verdict::Ignore);
    assert_eq!(
        v.decide(DecisionKind::Navigation, NavigationType::LinkClicked, None),
        Verdict::Ignore
    );
    assert_eq!(v.take_link_click().as_deref(), Some("https://a"));
    assert_eq!(v.take_link_click().as_deref(), Some("https://b"));
    assert_eq!(v.take_link_click(), None);
}

#[test]
fn only_the_clients_own_loads_go_through() {
    let mut v = MailWebView::new(true);
    for ty in [
        NavigationType::FormSubmitted,
        NavigationType::BackForward,
        NavigationType::Reload,
        NavigationType::FormResubmitted,
    ] {
        assert_eq!(
            v.decide(DecisionKind::Navigation, ty, Some("https://a".into())),
            Verdict::Ignore
        );
    }
    assert_eq!(
        v.decide(DecisionKind::Navigation, NavigationType::Other, Some("about:blank".into())),
        Verdict::Use
    );
    assert_eq!(
        v.decide(DecisionKind::Other, NavigationType::LinkClicked, Some("https://a".into())),
        Verdict::Use
    );
    assert_eq!(v.take_link_click(), None);
}

fn frame(n: u8) -> Frame {
    Frame { pixels: vec![n, n + 1, n + 2, 255], width: 1, height: 1 }
}

#[test]
fn the_newest_frame_wins() {
    let mut v = MailWebView::new(true);
    v.load_html("x");
    assert!(v.pump().is_none());
    v.frame_arrived(frame(1));
    v.frame_arrived(frame(9));
    assert_eq!(v.pump().unwrap().pixels[0], 9);
    assert!(v.pump().is_none());
    assert_eq!(v.sample_pixel(0, 0), Some((9, 10, 11)));
    assert_eq!(v.sample_pixel(1, 0), None);
    assert_eq!(v.uploaded(7, 1, 1), None);
    assert_eq!(v.uploaded(8, 1, 1), Some(7));
    assert_eq!(v.image(), Some((8, 1, 1)));
    // A new message drops it.
    assert!(v.load_html("y").contains(&ViewAction::FreeImage(8)));
    assert_eq!(v.image(), None);
}

#[test]
fn clearing_keeps_the_view() {
    let mut v = MailWebView::new(true);
    assert!(v.clear().is_empty());
    v.load_html("x");
    v.uploaded(3, 1, 1);
    v.decide(DecisionKind::NewWindow, NavigationType::LinkClicked, Some("https://b".into()));
    v.frame_arrived(frame(1));
    assert_eq!(v.clear(), vec![ViewAction::FreeImage(3), ViewAction::Blank]);
    assert!(v.pump().is_none());
    assert_eq!(v.take_link_click(), None);
    // With no message there is nothing to render again.
    assert_eq!(v.set_images_allowed(true), vec![ViewAction::Unblock]);
}

#[test]
fn buffers_are_copied_by_row() {
    // Two rows of one pixel, eight bytes apart.
    let src = [1, 2, 3, 4, 0, 0, 0, 0, 5, 6, 7, 8];
    let f = copy_frame(&src, 1, 2, 8).unwrap();
    assert_eq!(f.pixels, vec![3, 2, 1, 4, 7, 6, 5, 8]);
    let wide = [1, 2, 3, 4, 5, 6, 7, 8];
    assert_eq!(copy_frame(&wide, 2, 1, 8).unwrap().pixels, vec![3, 2, 1, 4, 7, 6, 5, 8]);
    assert!(copy_frame(&src, 0, 2, 8).is_none());
    assert!(copy_frame(&src, 1, 0, 8).is_none());
}

#[test]
fn the_filter_blocks_all_but_data() {
    let rules: serde_json::Value = serde_json::from_str(BLOCK_REMOTE_FILTER).unwrap();
    assert_eq!(rules[0]["trigger"]["url-filter"], ".*");
    assert_eq!(rules[0]["action"]["type"], "block");
    assert_eq!(rules[1]["trigger"]["url-filter"], "^data:");
    assert_eq!(rules[1]["action"]["type"], "ignore-previous-rules");
}

#[test]
fn filters_live_below_the_state_directory() {
    assert_eq!(
        filter_directory(Some("/s"), Some("/h")).as_deref(),
        Some("/s/cce/mail/content-filters")
    );
    assert_eq!(
        filter_directory(Some("relative"), Some("/h")).as_deref(),
        Some("/h/.local/state/cce/mail/content-filters")
    );
    assert_eq!(
        filter_directory(None, Some("/h/")).as_deref(),
        Some("/h/.local/state/cce/mail/content-filters")
    );
    assert_eq!(filter_directory(Some("x"), None), None);
}

#[test]
fn clipboards_exchange_plain_text() {
    assert!(is_text_format("text/plain;charset=utf-8"));
    assert!(is_text_format("UTF8_STRING"));
    assert!(is_text_format("STRING"));
    assert!(!is_text_format("text/html"));
    assert_eq!(copied_out(true, false, Some("x".into())).as_deref(), Some("x"));
    assert_eq!(copied_out(true, true, Some("x".into())), None);
    assert_eq!(copied_out(false, false, Some("x".into())), None);
    assert_eq!(pushed_in("abc".into()), "abc");
    assert_eq!(pushed_in("a\0c".into()), "");
}

#[test]
fn format_codes_are_little_endian() {
    assert_eq!(fourcc(b'A', b'R', b'2', b'4'), 0x3432_5241);
    assert_eq!(fourcc(255, 255, 255, 255), u32::MAX);
}

#[test]
fn keys_become_keysyms() {
    assert_eq!(keyval(&Key::Character("a".into())), Some(0x61));
    assert_eq!(keyval(&Key::Character("ü".into())), Some(0xfc));
    assert_eq!(keyval(&Key::Character("€x".into())), Some(0x0100_20ac));
    assert_eq!(keyval(&Key::Character("".into())), None);
    assert_eq!(keyval(&Key::Named(NamedKey::Enter)), Some(0xff0d));
    assert_eq!(keyval(&Key::Named(NamedKey::PageDown)), Some(0xff56));
    assert_eq!(keyval(&Key::Named(NamedKey::Delete)), Some(0xffff));
    assert_eq!(unicode_keysym('\u{1f}'), 0x0100_001f);
    assert_eq!(unicode_keysym('\u{100}'), 0x0100_0100);
}

#[test]
fn held_modifiers_are_combined() {
    let bits = ModifierBits { control: 1, shift: 2, alt: 4 };
    assert_eq!(modifiers(false, false, false, bits), 0);
    assert_eq!(modifiers(true, false, true, bits), 5);
    assert_eq!(modifiers(true, true, true, bits), 7);
}

#[test]
fn only_three_buttons_reach_the_page() {
    assert_eq!(button_number(MouseButton::Left), Some(1));
    assert_eq!(button_number(MouseButton::Middle), Some(2));
    assert_eq!(button_number(MouseButton::Right), Some(3));
    assert_eq!(button_number(MouseButton::Back), None);
    assert_eq!(button_number(MouseButton::Forward), None);
    assert_eq!(button_number(MouseButton::Other), None);
}

#[test]
fn the_epoll_set_follows_glib() {
    let readable = Interest { readable: true, writable: false, error: false, hangup: false };
    let both = Interest { readable: true, writable: true, error: false, hangup: false };
    assert_eq!(flags_of(1), readable);
    assert_eq!(flags_of(5), both);
    assert_eq!(
        flags_of(0x18),
        Interest { readable: false, writable: false, error: true, hangup: true }
    );

    let mut p = GlibPoll::new();
    assert_eq!(p.poll_timeout(), None);
    assert_eq!(
        p.sync(&vec![(3, 1), (4, 1)], -1),
        vec![PollOp::Add(3, readable), PollOp::Add(4, readable)]
    );
    assert_eq!(p.poll_timeout(), None);
    assert!(p.sync(&vec![(3, 1), (4, 1)], 0).is_empty());
    assert_eq!(p.poll_timeout(), Some(0));
    assert_eq!(
        p.sync(&vec![(5, 1), (4, 5)], 250),
        vec![PollOp::Add(5, readable), PollOp::Modify(4, both), PollOp::Delete(3)]
    );
    assert_eq!(p.poll_timeout(), Some(250));
}
