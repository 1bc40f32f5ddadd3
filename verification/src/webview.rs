//! The pane that shows HTML mail.
//!
//! Mail is hostile content. The pane loads nothing from the network unless
//! the reader asks for it, and asks for it again with every message; it never
//! navigates. What the web engine has to do is answered as a list of
//! [`ViewAction`]s, and what it reports comes in through [`MailWebView`]'s
//! methods.

use vstd::prelude::*;
use crate::model::{opt_view, views, views_push};
use crate::path::{below, path_below};
use crate::scan::{starts_with, text_starts_with};
use crate::text::{chars_of, copy_opt, opt_text, same, texts, texts_push};

verus! {

/// The content filter's source: block every URL except `data:`, so that a
/// message is rendered from its own bytes alone.
pub const BLOCK_REMOTE_FILTER: &'static str =
    "[\n  {\"trigger\": {\"url-filter\": \".*\"}, \"action\": {\"type\": \"block\"}},\n  {\"trigger\": {\"url-filter\": \"^data:\"}, \"action\": {\"type\": \"ignore-previous-rules\"}}\n]";

// ---------------------------------------------------------------------------
// Frames

/// A rendered picture, four bytes per pixel in the order red, green, blue,
/// alpha.
#[derive(Debug)]
pub struct Frame {
    pub pixels: Vec<u8>,
    pub width: u32,
    pub height: u32,
}

#[verifier::ext_equal]
pub ghost struct FrameView {
    pub pixels: Seq<u8>,
    pub width: u32,
    pub height: u32,
}

impl View for Frame {
    type V = FrameView;

    open spec fn view(&self) -> FrameView {
        FrameView { pixels: self.pixels@, width: self.width, height: self.height }
    }
}

/// A frame has all its pixels, and counting their bytes fits 32 bits.
pub open spec fn whole(f: FrameView) -> bool {
    &&& f.pixels.len() == f.width * f.height * 4
    &&& f.width * f.height * 4 <= u32::MAX
}

/// Where the bytes of a pixel start.
pub open spec fn pixel_start(width: u32, x: int, y: int) -> int {
    (y * width + x) * 4
}

/// Red, green, blue and alpha of one pixel.
pub open spec fn pixel(f: FrameView, x: int, y: int) -> (u8, u8, u8, u8) {
    let i = pixel_start(f.width, x, y);
    (f.pixels[i], f.pixels[i + 1], f.pixels[i + 2], f.pixels[i + 3])
}

/// One pixel of a shared buffer, whose bytes are blue, green, red, alpha and
/// whose rows are `stride` bytes apart.
pub open spec fn buffer_pixel(src: Seq<u8>, stride: int, x: int, y: int) -> (u8, u8, u8, u8) {
    let i = y * stride + x * 4;
    (src[i + 2], src[i + 1], src[i], src[i + 3])
}

proof fn lemma_pixel_order(width: u32, x: int, y: int, px: int, py: int)
    requires
        0 <= px < width,
        0 <= x <= width,
        0 <= py,
        py < y || (py == y && px < x),
    ensures
        0 <= pixel_start(width, px, py),
        pixel_start(width, px, py) + 4 <= pixel_start(width, x, y),
{
    assert(0 <= py * width) by (nonlinear_arith)
        requires
            0 <= py,
    ;
    if py < y {
        assert(py * width + width <= y * width) by (nonlinear_arith)
            requires
                py + 1 <= y,
        ;
    }
}

/// Copy a shared buffer out as a frame. The stride is not assumed to be four
/// times the width. An empty buffer has no frame.
pub fn copy_frame(src: &[u8], width: u32, height: u32, stride: usize) -> (r: Option<Frame>)
    requires
        width * height * 4 <= u32::MAX,
        width > 0 && height > 0 ==> (height - 1) * stride + width * 4 <= src@.len(),
    ensures
        r is None <==> width == 0 || height == 0,
        r matches Some(f) ==> {
            &&& whole(f@)
            &&& f.width == width
            &&& f.height == height
            &&& forall|x: int, y: int|
                0 <= x < width && 0 <= y < height ==> #[trigger] pixel(f@, x, y) == buffer_pixel(
                    src@,
                    stride as int,
                    x,
                    y,
                )
        },
{
    if width == 0 || height == 0 {
        return None;
    }
    let len: usize = src.len();
    let mut out: Vec<u8> = Vec::new();
    let mut y: u32 = 0;
    let mut base: usize = 0;
    while y < height
        invariant
            y <= height,
            0 < width,
            y < height ==> base == y * stride,
            (height - 1) * stride + width * 4 <= len,
            len == src@.len(),
            out@.len() == pixel_start(width, 0, y as int),
            forall|px: int, py: int|
                0 <= px < width && 0 <= py < y ==> #[trigger] pixel(
                    FrameView { pixels: out@, width, height },
                    px,
                    py,
                ) == buffer_pixel(src@, stride as int, px, py),
        decreases height - y,
    {
        assert(y * stride <= (height - 1) * stride) by (nonlinear_arith)
            requires
                y <= height - 1,
        ;
        let mut x: u32 = 0;
        while x < width
            invariant
                x <= width,
                y < height,
                base == y * stride,
                base + width * 4 <= len,
                len == src@.len(),
                out@.len() == pixel_start(width, x as int, y as int),
                forall|px: int, py: int|
                    0 <= px < width && 0 <= py && (py < y || (py == y && px < x))
                        ==> #[trigger] pixel(
                        FrameView { pixels: out@, width, height },
                        px,
                        py,
                    ) == buffer_pixel(src@, stride as int, px, py),
            decreases width - x,
        {
            let ghost before = out@;
            let i: usize = base + x as usize * 4;
            out.push(src[i + 2]);
            out.push(src[i + 1]);
            out.push(src[i]);
            out.push(src[i + 3]);
            proof {
                assert forall|px: int, py: int|
                    0 <= px < width && 0 <= py && (py < y || (py == y && px < x + 1)) implies #[trigger] pixel(
                    FrameView { pixels: out@, width, height },
                    px,
                    py,
                ) == buffer_pixel(src@, stride as int, px, py) by {
                    if py < y || px < x {
                        lemma_pixel_order(width, x as int, y as int, px, py);
                        assert(pixel(FrameView { pixels: before, width, height }, px, py)
                            == buffer_pixel(src@, stride as int, px, py));
                    }
                }
            }
            x = x + 1;
        }
        proof {
            assert(pixel_start(width, width as int, y as int) == pixel_start(width, 0, y + 1))
                by (nonlinear_arith);
            assert((y + 1) * stride == y * stride + stride) by (nonlinear_arith);
        }
        if y + 1 < height {
            proof {
                assert((y + 1) * stride <= (height - 1) * stride) by (nonlinear_arith)
                    requires
                        y + 1 <= height - 1,
                ;
            }
            base = base + stride;
        }
        y = y + 1;
    }
    proof {
        assert(height * width == width * height) by (nonlinear_arith);
    }
    Some(Frame { pixels: out, width, height })
}

fn copy_bytes(v: &Vec<u8>) -> (r: Vec<u8>)
    ensures
        r@ == v@,
{
    let mut out: Vec<u8> = Vec::new();
    let mut i: usize = 0;
    while i < v.len()
        invariant
            i <= v@.len(),
            out@ =~= v@.take(i as int),
        decreases v@.len() - i,
    {
        out.push(v[i]);
        i = i + 1;
    }
    out
}

impl Clone for Frame {
    fn clone(&self) -> (r: Self)
        ensures
            r@ == self@,
    {
        Frame { pixels: copy_bytes(&self.pixels), width: self.width, height: self.height }
    }
}

// ---------------------------------------------------------------------------
// The pane

/// What the web engine has to do.
#[derive(Debug, PartialEq)]
pub enum ViewAction {
    /// Create the view, with scripts off for good; this is what starts the
    /// engine's processes.
    Open { images: bool },
    /// Attach the filter that blocks remote content.
    Block,
    /// Take the filter off.
    Unblock,
    /// Render a message, with images loaded or not.
    Render { html: String, images: bool },
    /// Show an empty page.
    Blank,
    /// Release an uploaded picture.
    FreeImage(u32),
}

pub ghost enum ActionView {
    Open { images: bool },
    Block,
    Unblock,
    Render { html: Seq<char>, images: bool },
    Blank,
    FreeImage(u32),
}

impl View for ViewAction {
    type V = ActionView;

    open spec fn view(&self) -> ActionView {
        match self {
            ViewAction::Open { images } => ActionView::Open { images: *images },
            ViewAction::Block => ActionView::Block,
            ViewAction::Unblock => ActionView::Unblock,
            ViewAction::Render { html, images } => ActionView::Render {
                html: html@,
                images: *images,
            },
            ViewAction::Blank => ActionView::Blank,
            ViewAction::FreeImage(id) => ActionView::FreeImage(*id),
        }
    }
}

/// One pane, and the message in it.
pub struct MailWebView {
    /// Whether the engine could compile the filter.
    has_filter: bool,
    /// Whether the view exists. It is created with the first message, and
    /// kept.
    opened: bool,
    html: Option<String>,
    images_allowed: bool,
    /// The newest frame that was not uploaded yet. A slot, not a queue.
    pending: Option<Frame>,
    /// The links that were clicked, oldest first.
    links: Vec<String>,
    /// The uploaded frame: its number, width and height.
    image: Option<(u32, u32, u32)>,
    last_frame: Option<Frame>,
}

#[verifier::ext_equal]
pub ghost struct WebState {
    pub has_filter: bool,
    pub opened: bool,
    pub html: Option<Seq<char>>,
    pub images_allowed: bool,
    pub pending: Option<FrameView>,
    pub links: Seq<Seq<char>>,
    pub image: Option<(u32, u32, u32)>,
    pub last_frame: Option<FrameView>,
}

impl View for MailWebView {
    type V = WebState;

    closed spec fn view(&self) -> WebState {
        WebState {
            has_filter: self.has_filter,
            opened: self.opened,
            html: opt_text(self.html),
            images_allowed: self.images_allowed,
            pending: opt_view(self.pending),
            links: texts(self.links@),
            image: self.image,
            last_frame: opt_view(self.last_frame),
        }
    }
}

/// Attach or detach the filter, as the choice for this message says.
pub open spec fn filter_actions(s: WebState) -> Seq<ActionView> {
    if !s.has_filter {
        Seq::empty()
    } else if s.images_allowed {
        seq![ActionView::Unblock]
    } else {
        seq![ActionView::Block]
    }
}

/// The uploaded frame is given back.
pub open spec fn release_actions(s: WebState) -> Seq<ActionView> {
    match s.image {
        Some(im) => seq![ActionView::FreeImage(im.0)],
        None => Seq::empty(),
    }
}

/// The frame of the message before must not linger under this one.
pub open spec fn rendered_state(s: WebState) -> WebState {
    if s.html is Some {
        WebState { opened: true, pending: None, image: None, ..s }
    } else {
        s
    }
}

/// Render the current message, in a view that is created if need be.
pub open spec fn render_actions(s: WebState) -> Seq<ActionView> {
    match s.html {
        Some(html) => {
            let opening = if s.opened {
                Seq::empty()
            } else {
                seq![ActionView::Open { images: s.images_allowed }] + filter_actions(s)
            };
            opening.push(ActionView::Render { html, images: s.images_allowed }) + release_actions(s)
        },
        None => Seq::empty(),
    }
}

/// A text without its NUL characters, which mean nothing in HTML.
pub open spec fn without_nul(s: Seq<char>) -> Seq<char>
    decreases s.len(),
{
    if s.len() == 0 {
        s
    } else if s.last() == '\0' {
        without_nul(s.drop_last())
    } else {
        without_nul(s.drop_last()).push(s.last())
    }
}

fn strip_nul(s: &str) -> (r: String)
    ensures
        r@ == without_nul(s@),
{
    let cs = chars_of(s);
    let mut out = String::new();
    assert(out@ =~= Seq::<char>::empty());
    let mut i: usize = 0;
    while i < cs.len()
        invariant
            i <= cs@.len(),
            out@ == without_nul(cs@.take(i as int)),
        decreases cs@.len() - i,
    {
        proof {
            assert(cs@.take(i + 1).drop_last() =~= cs@.take(i as int));
        }
        if cs[i] != '\0' {
            out.push(cs[i]);
        }
        i = i + 1;
    }
    assert(cs@.take(i as int) =~= cs@);
    out
}

/// The pane with a new message in it: remote content is blocked again.
pub open spec fn loaded(s: WebState, html: Seq<char>) -> WebState {
    WebState { images_allowed: false, html: Some(without_nul(html)), ..s }
}

/// What showing a new message takes.
pub open spec fn load_actions(s: WebState, html: Seq<char>) -> Seq<ActionView> {
    let t = loaded(s, html);
    (if s.opened {
        filter_actions(t)
    } else {
        Seq::empty()
    }) + render_actions(t)
}

/// What a choice on remote content takes.
pub open spec fn image_actions(s: WebState, allowed: bool) -> Seq<ActionView> {
    if allowed == s.images_allowed {
        Seq::empty()
    } else {
        let t = WebState { images_allowed: allowed, ..s };
        filter_actions(t) + render_actions(t)
    }
}

pub open spec fn image_state(s: WebState, allowed: bool) -> WebState {
    if allowed == s.images_allowed {
        s
    } else {
        rendered_state(WebState { images_allowed: allowed, ..s })
    }
}

/// The pane without a message. The view stays for the next one.
pub open spec fn cleared(s: WebState) -> WebState {
    WebState { html: None, links: Seq::empty(), pending: None, image: None, ..s }
}

pub open spec fn clear_actions(s: WebState) -> Seq<ActionView> {
    release_actions(s) + if s.opened {
        seq![ActionView::Blank]
    } else {
        Seq::empty()
    }
}

/// What kind of decision the engine asks for.
#[derive(Debug, Clone, Copy, PartialEq, Eq, Structural)]
pub enum DecisionKind {
    Navigation,
    NewWindow,
    Other,
}

/// What brought a navigation about.
#[derive(Debug, Clone, Copy, PartialEq, Eq, Structural)]
pub enum NavigationType {
    LinkClicked,
    FormSubmitted,
    BackForward,
    Reload,
    FormResubmitted,
    /// The client's own loads.
    Other,
}

#[derive(Debug, Clone, Copy, PartialEq, Eq, Structural)]
pub enum Verdict {
    Use,
    Ignore,
}

/// A link the reader clicked, be it meant for a window of its own.
pub open spec fn is_link(kind: DecisionKind, ty: NavigationType) -> bool {
    kind != DecisionKind::Other && ty == NavigationType::LinkClicked
}

/// Only the client's own loads go through; links, forms, reloads and windows
/// that a page opens do not.
pub open spec fn verdict(kind: DecisionKind, ty: NavigationType) -> Verdict {
    if kind == DecisionKind::Other {
        Verdict::Use
    } else if kind == DecisionKind::Navigation && ty == NavigationType::Other {
        Verdict::Use
    } else {
        Verdict::Ignore
    }
}

/// The links after a decision: a link that was followed is put aside.
pub open spec fn stashed(
    links: Seq<Seq<char>>,
    kind: DecisionKind,
    ty: NavigationType,
    uri: Option<Seq<char>>,
) -> Seq<Seq<char>> {
    match uri {
        Some(u) => if is_link(kind, ty) && u.len() > 0 {
            links.push(u)
        } else {
            links
        },
        None => links,
    }
}

/// The link that is handed out next.
pub open spec fn next_link(links: Seq<Seq<char>>) -> Option<Seq<char>> {
    if links.len() == 0 {
        None
    } else {
        Some(links[0])
    }
}

/// The links once that one is gone.
pub open spec fn links_left(links: Seq<Seq<char>>) -> Seq<Seq<char>> {
    if links.len() == 0 {
        links
    } else {
        links.skip(1)
    }
}

impl MailWebView {
    /// Frames always have all their pixels.
    #[verifier::type_invariant]
    spec fn frames_are_whole(self) -> bool {
        &&& opt_view(self.pending) matches Some(f) ==> whole(f)
        &&& opt_view(self.last_frame) matches Some(f) ==> whole(f)
    }

    /// An empty pane. `has_filter` tells whether the engine could compile
    /// [`BLOCK_REMOTE_FILTER`]; without it remote loads are stopped by the
    /// image setting alone.
    pub fn new(has_filter: bool) -> (r: Self)
        ensures
            r@ == (WebState {
                has_filter,
                opened: false,
                html: None,
                images_allowed: false,
                pending: None,
                links: Seq::empty(),
                image: None,
                last_frame: None,
            }),
    {
        let r = MailWebView {
            has_filter,
            opened: false,
            html: None,
            images_allowed: false,
            pending: None,
            links: Vec::new(),
            image: None,
            last_frame: None,
        };
        assert(texts(r.links@) =~= Seq::<Seq<char>>::empty());
        r
    }

    fn apply_filter_policy(&self, actions: &mut Vec<ViewAction>)
        ensures
            views(final(actions)@) == views(old(actions)@) + filter_actions(self@),
    {
        broadcast use views_push;

        let ghost before = views(actions@);
        if self.has_filter {
            if self.images_allowed {
                actions.push(ViewAction::Unblock);
            } else {
                actions.push(ViewAction::Block);
            }
        }
        assert(views(actions@) =~= before + filter_actions(self@));
    }

    fn release_image(&mut self, actions: &mut Vec<ViewAction>)
        ensures
            final(self)@ == (WebState { image: None, ..old(self)@ }),
            views(final(actions)@) == views(old(actions)@) + release_actions(old(self)@),
    {
        broadcast use views_push;

        let ghost before = views(actions@);
        proof {
            use_type_invariant(&*self);
        }
        if let Some(im) = self.image {
            actions.push(ViewAction::FreeImage(im.0));
        }
        assert(views(actions@) =~= before + release_actions(self@));
        self.image = None;
    }

    fn reload_current(&mut self, actions: &mut Vec<ViewAction>)
        ensures
            final(self)@ == rendered_state(old(self)@),
            views(final(actions)@) == views(old(actions)@) + render_actions(old(self)@),
    {
        broadcast use views_push;

        let ghost before = views(actions@);
        let ghost s = self@;
        proof {
            use_type_invariant(&*self);
        }
        match copy_opt(&self.html) {
            Some(html) => {
                if !self.opened {
                    actions.push(ViewAction::Open { images: self.images_allowed });
                    self.apply_filter_policy(actions);
                    self.opened = true;
                }
                actions.push(ViewAction::Render { html, images: self.images_allowed });
                self.pending = None;
                self.release_image(actions);
                assert(views(actions@) =~= before + render_actions(s));
            },
            None => {
                assert(views(actions@) =~= before + render_actions(s));
            },
        }
    }

    /// Show a message. Always re-arms the block on remote content: allowing
    /// images is a choice per message, never a sticky one.
    pub fn load_html(&mut self, html: &str) -> (r: Vec<ViewAction>)
        ensures
            final(self)@ == rendered_state(loaded(old(self)@, html@)),
            views(r@) == load_actions(old(self)@, html@),
    {
        let ghost s = self@;
        proof {
            use_type_invariant(&*self);
        }
        let mut actions: Vec<ViewAction> = Vec::new();
        assert(views(actions@) =~= Seq::<ActionView>::empty());
        self.images_allowed = false;
        self.html = Some(strip_nul(html));
        assert(self@ =~= loaded(s, html@));
        if self.opened {
            self.apply_filter_policy(&mut actions);
        }
        self.reload_current(&mut actions);
        assert(views(actions@) =~= load_actions(s, html@));
        actions
    }

    /// Drop the shown message.
    pub fn clear(&mut self) -> (r: Vec<ViewAction>)
        ensures
            final(self)@ == cleared(old(self)@),
            views(r@) == clear_actions(old(self)@),
    {
        broadcast use views_push;

        let ghost s = self@;
        proof {
            use_type_invariant(&*self);
        }
        let mut actions: Vec<ViewAction> = Vec::new();
        assert(views(actions@) =~= Seq::<ActionView>::empty());
        self.html = None;
        self.links = Vec::new();
        self.pending = None;
        self.release_image(&mut actions);
        assert(self@ =~= cleared(s));
        if self.opened {
            actions.push(ViewAction::Blank);
        }
        assert(views(actions@) =~= clear_actions(s));
        actions
    }

    /// Lift (or restore) the block on remote content for the current message,
    /// and render it again.
    pub fn set_images_allowed(&mut self, allowed: bool) -> (r: Vec<ViewAction>)
        ensures
            final(self)@ == image_state(old(self)@, allowed),
            views(r@) == image_actions(old(self)@, allowed),
    {
        let ghost s = self@;
        let mut actions: Vec<ViewAction> = Vec::new();
        assert(views(actions@) =~= Seq::<ActionView>::empty());
        if allowed == self.images_allowed {
            return actions;
        }
        proof {
            use_type_invariant(&*self);
        }
        self.images_allowed = allowed;
        assert(self@ =~= WebState { images_allowed: allowed, ..s });
        self.apply_filter_policy(&mut actions);
        self.reload_current(&mut actions);
        assert(views(actions@) =~= image_actions(s, allowed));
        actions
    }

    pub fn images_allowed(&self) -> (r: bool)
        ensures
            r == self@.images_allowed,
    {
        self.images_allowed
    }

    /// Whether there is a view to send input, or a copy command, to.
    pub fn is_open(&self) -> (r: bool)
        ensures
            r == self@.opened,
    {
        self.opened
    }

    /// Decide on a navigation. A clicked link is put aside to be opened
    /// elsewhere; whatever else is refused leaves nothing behind.
    pub fn decide(
        &mut self,
        kind: DecisionKind,
        ty: NavigationType,
        uri: Option<String>,
    ) -> (r: Verdict)
        ensures
            r == verdict(kind, ty),
            final(self)@ == (WebState {
                links: stashed(old(self)@.links, kind, ty, opt_text(uri)),
                ..old(self)@
            }),
    {
        proof {
            use_type_invariant(&*self);
        }
        match kind {
            DecisionKind::Other => Verdict::Use,
            _ => {
                if ty == NavigationType::LinkClicked {
                    if let Some(u) = uri {
                        if !u.as_str().is_empty() {
                            let mut links: Vec<String> = Vec::new();
                            std::mem::swap(&mut links, &mut self.links);
                            links.push(u);
                            self.links = links;
                            proof {
                                texts_push(links@.drop_last(), u);
                                assert(links@.drop_last().push(u) =~= links@);
                            }
                        }
                    }
                    Verdict::Ignore
                } else if kind == DecisionKind::Navigation && ty == NavigationType::Other {
                    Verdict::Use
                } else {
                    Verdict::Ignore
                }
            },
        }
    }

    /// A link the reader clicked in the message, oldest first.
    pub fn take_link_click(&mut self) -> (r: Option<String>)
        ensures
            opt_text(r) == next_link(old(self)@.links),
            final(self)@ == (WebState { links: links_left(old(self)@.links), ..old(self)@ }),
    {
        let ghost s = self@;
        proof {
            use_type_invariant(&*self);
        }
        if self.links.len() == 0 {
            return None;
        }
        let mut links: Vec<String> = Vec::new();
        std::mem::swap(&mut links, &mut self.links);
        let r = links.remove(0);
        self.links = links;
        assert(self@.links =~= links_left(s.links));
        Some(r)
    }

    /// A frame the engine rendered. Replaces the one before: the newest wins.
    pub fn frame_arrived(&mut self, frame: Frame)
        requires
            whole(frame@),
        ensures
            final(self)@ == (WebState { pending: Some(frame@), ..old(self)@ }),
    {
        proof {
            use_type_invariant(&*self);
        }
        self.pending = Some(frame);
    }

    /// The frame to upload, once the engine's pending work is done. `None`:
    /// nothing new was rendered, and nothing has to be painted.
    pub fn pump(&mut self) -> (r: Option<Frame>)
        ensures
            opt_view(r) == old(self)@.pending,
            final(self)@ == (WebState {
                pending: None,
                last_frame: match old(self)@.pending {
                    Some(f) => Some(f),
                    None => old(self)@.last_frame,
                },
                ..old(self)@
            }),
    {
        proof {
            use_type_invariant(&*self);
        }
        let mut pending: Option<Frame> = None;
        std::mem::swap(&mut pending, &mut self.pending);
        match pending {
            Some(frame) => {
                let copy = frame.clone();
                self.last_frame = Some(copy);
                Some(frame)
            },
            None => None,
        }
    }

    /// The frame was uploaded under `id`. Gives the picture it replaces.
    pub fn uploaded(&mut self, id: u32, width: u32, height: u32) -> (r: Option<u32>)
        ensures
            r == match old(self)@.image {
                Some(im) => Some(im.0),
                None => None::<u32>,
            },
            final(self)@ == (WebState { image: Some((id, width, height)), ..old(self)@ }),
    {
        proof {
            use_type_invariant(&*self);
        }
        let replaced = match self.image {
            Some(im) => Some(im.0),
            None => None,
        };
        self.image = Some((id, width, height));
        replaced
    }

    /// The current frame: its number, width and height.
    pub fn image(&self) -> (r: Option<(u32, u32, u32)>)
        ensures
            r == self@.image,
    {
        self.image
    }

    /// A pixel of the last frame.
    pub fn sample_pixel(&self, x: u32, y: u32) -> (r: Option<(u8, u8, u8)>)
        ensures
            r == match self@.last_frame {
                Some(f) => if x < f.width && y < f.height {
                    let p = pixel(f, x as int, y as int);
                    Some((p.0, p.1, p.2))
                } else {
                    None
                },
                None => None,
            },
    {
        proof {
            use_type_invariant(self);
        }
        match &self.last_frame {
            Some(f) => {
                if x >= f.width || y >= f.height {
                    return None;
                }
                proof {
                    lemma_pixel_order(f.width, 0, f.height as int, x as int, y as int);
                    assert(f.width * f.height == f.height * f.width) by (nonlinear_arith);
                }
                let i: usize = ((y * f.width + x) * 4) as usize;
                Some((f.pixels[i], f.pixels[i + 1], f.pixels[i + 2]))
            },
            None => None,
        }
    }
}

// ---------------------------------------------------------------------------
// What holds of every message

/// Whether remote content is blocked once `actions` were carried out.
pub open spec fn blocked_after(blocked: bool, actions: Seq<ActionView>) -> bool
    decreases actions.len(),
{
    if actions.len() == 0 {
        blocked
    } else {
        match actions.last() {
            ActionView::Block => true,
            ActionView::Unblock => false,
            _ => blocked_after(blocked, actions.drop_last()),
        }
    }
}

/// The engine's filter is in step with the choice for this message.
pub open spec fn in_step(s: WebState, blocked: bool) -> bool {
    s.has_filter && s.opened ==> blocked == !s.images_allowed
}

proof fn lemma_blocked_add(blocked: bool, a: Seq<ActionView>, b: Seq<ActionView>)
    ensures
        blocked_after(blocked, a + b) == blocked_after(blocked_after(blocked, a), b),
    decreases b.len(),
{
    if b.len() == 0 {
        assert(a + b =~= a);
    } else {
        lemma_blocked_add(blocked, a, b.drop_last());
        assert((a + b).drop_last() =~= a + b.drop_last());
    }
}

proof fn lemma_blocked_one(blocked: bool, a: ActionView)
    ensures
        blocked_after(blocked, seq![a]) == match a {
            ActionView::Block => true,
            ActionView::Unblock => false,
            _ => blocked,
        },
{
    assert(seq![a].drop_last() =~= Seq::<ActionView>::empty());
    reveal_with_fuel(blocked_after, 2);
}

proof fn lemma_filter_actions(s: WebState, blocked: bool)
    ensures
        blocked_after(blocked, filter_actions(s)) == if s.has_filter {
            !s.images_allowed
        } else {
            blocked
        },
{
    lemma_blocked_one(blocked, ActionView::Block);
    lemma_blocked_one(blocked, ActionView::Unblock);
}

proof fn lemma_render_actions(s: WebState, blocked: bool)
    requires
        s.opened ==> in_step(s, blocked),
    ensures
        in_step(rendered_state(s), blocked_after(blocked, render_actions(s))),
{
    if let Some(html) = s.html {
        let open = ActionView::Open { images: s.images_allowed };
        let render = ActionView::Render { html, images: s.images_allowed };
        let opening = if s.opened {
            Seq::empty()
        } else {
            seq![open] + filter_actions(s)
        };
        let b1 = blocked_after(blocked, opening);
        if !s.opened {
            lemma_blocked_add(blocked, seq![open], filter_actions(s));
            lemma_filter_actions(s, blocked_after(blocked, seq![open]));
        }
        assert(opening.push(render) =~= opening + seq![render]);
        lemma_blocked_add(blocked, opening, seq![render]);
        lemma_blocked_one(b1, render);
        lemma_blocked_add(blocked, opening.push(render), release_actions(s));
        if let Some(im) = s.image {
            lemma_blocked_one(b1, ActionView::FreeImage(im.0));
        }
    }
}

/// A new message starts with remote content blocked and images off, whatever
/// was chosen for the one before.
pub proof fn a_new_message_is_blocked(s: WebState, html: Seq<char>, blocked: bool)
    ensures
        ({
            let t = rendered_state(loaded(s, html));
            let actions = load_actions(s, html);
            &&& t.opened
            &&& !t.images_allowed
            &&& s.has_filter ==> blocked_after(blocked, actions)
            &&& actions.contains(ActionView::Render { html: without_nul(html), images: false })
        }),
{
    let t = loaded(s, html);
    let first = if s.opened {
        filter_actions(t)
    } else {
        Seq::empty()
    };
    lemma_filter_actions(t, blocked);
    lemma_blocked_add(blocked, first, render_actions(t));
    lemma_render_actions(t, blocked_after(blocked, first));
    let opening = if s.opened {
        Seq::empty()
    } else {
        seq![ActionView::Open { images: false }] + filter_actions(t)
    };
    let actions = load_actions(s, html);
    let k = first.len() + opening.len();
    assert(actions[k as int] == ActionView::Render { html: without_nul(html), images: false });
}

/// The filter stays in step with the choice, through new messages, changes of
/// mind and cleared panes.
pub proof fn the_block_follows_the_choice(s: WebState, html: Seq<char>, allowed: bool, blocked: bool)
    requires
        in_step(s, blocked),
    ensures
        in_step(rendered_state(loaded(s, html)), blocked_after(blocked, load_actions(s, html))),
        in_step(image_state(s, allowed), blocked_after(blocked, image_actions(s, allowed))),
        in_step(cleared(s), blocked_after(blocked, clear_actions(s))),
{
    a_new_message_is_blocked(s, html, blocked);
    let t = WebState { images_allowed: allowed, ..s };
    lemma_filter_actions(t, blocked);
    lemma_blocked_add(blocked, filter_actions(t), render_actions(t));
    lemma_render_actions(t, blocked_after(blocked, filter_actions(t)));
    let last = if s.opened {
        seq![ActionView::Blank]
    } else {
        Seq::empty()
    };
    lemma_blocked_add(blocked, release_actions(s), last);
    if let Some(im) = s.image {
        lemma_blocked_one(blocked, ActionView::FreeImage(im.0));
    }
    lemma_blocked_one(blocked_after(blocked, release_actions(s)), ActionView::Blank);
}

/// Asking for remote content twice is asking once, and taking it back blocks
/// the same message again.
pub proof fn a_choice_can_be_taken_back(s: WebState)
    requires
        !s.images_allowed,
    ensures
        image_state(image_state(s, true), true) == image_state(s, true),
        image_actions(image_state(s, true), true) == Seq::<ActionView>::empty(),
        image_state(image_state(s, true), false) == rendered_state(s),
{
}

/// No link is followed in the pane, and no form is submitted from it.
pub proof fn the_pane_never_navigates(kind: DecisionKind, ty: NavigationType)
    requires
        kind != DecisionKind::Other,
    ensures
        verdict(kind, ty) == Verdict::Use <==> kind == DecisionKind::Navigation && ty
            == NavigationType::Other,
{
}

/// Only a clicked link is put aside, and it never loads in the pane.
pub proof fn only_clicks_are_put_aside(
    links: Seq<Seq<char>>,
    kind: DecisionKind,
    ty: NavigationType,
    uri: Option<Seq<char>>,
)
    ensures
        stashed(links, kind, ty, uri) != links ==> ty == NavigationType::LinkClicked && verdict(
            kind,
            ty,
        ) == Verdict::Ignore,
{
}

/// What is left of the links after `n` were handed out.
pub open spec fn after_takes(links: Seq<Seq<char>>, n: nat) -> Seq<Seq<char>>
    decreases n,
{
    if n == 0 {
        links
    } else {
        links_left(after_takes(links, (n - 1) as nat))
    }
}

/// Links come out in the order they were clicked in, each once.
pub proof fn links_come_out_in_order(links: Seq<Seq<char>>, n: nat)
    ensures
        n <= links.len() ==> after_takes(links, n) == links.skip(n as int),
        next_link(after_takes(links, n)) == if n < links.len() {
            Some(links[n as int])
        } else {
            None
        },
    decreases n,
{
    if n == 0 {
        assert(links.skip(0) =~= links);
    } else {
        links_come_out_in_order(links, (n - 1) as nat);
        if n <= links.len() {
            assert(links.skip(n - 1).skip(1) =~= links.skip(n as int));
        }
    }
}

// ---------------------------------------------------------------------------
// The clipboard

pub open spec fn is_text(f: Seq<char>) -> bool {
    starts_with(f, "text/plain"@) || f == "UTF8_STRING"@ || f == "STRING"@
}

/// Whether a clipboard format is one that plain text answers.
pub fn is_text_format(f: &str) -> (r: bool)
    ensures
        r == is_text(f@),
{
    text_starts_with(f, "text/plain") || same(f, "UTF8_STRING") || same(f, "STRING")
}

/// What the page put on its clipboard, if that has to go to the system's.
/// What was just pushed in from there is not copied straight back.
pub fn copied_out(is_local: bool, syncing: bool, text: Option<String>) -> (r: Option<String>)
    ensures
        opt_text(r) == if is_local && !syncing {
            opt_text(text)
        } else {
            None
        },
{
    if is_local && !syncing {
        text
    } else {
        None
    }
}

/// The system's clipboard as the page gets it: a text with a NUL in it cannot
/// be handed over, and counts as empty.
pub fn pushed_in(text: String) -> (r: String)
    ensures
        r@ == if text@.contains('\0') {
            Seq::<char>::empty()
        } else {
            text@
        },
{
    let cs = chars_of(text.as_str());
    let mut i: usize = 0;
    while i < cs.len()
        invariant
            i <= cs@.len(),
            cs@ == text@,
            forall|k: int| 0 <= k < i ==> cs@[k] != '\0',
        decreases cs@.len() - i,
    {
        if cs[i] == '\0' {
            let r = String::new();
            proof {
                assert(text@[i as int] == '\0');
                assert(r@ =~= Seq::<char>::empty());
            }
            return r;
        }
        i = i + 1;
    }
    text
}

// ---------------------------------------------------------------------------
// Setting up

pub open spec fn filter_store(state: Option<Seq<char>>, home: Option<Seq<char>>) -> Option<
    Seq<char>,
> {
    let base = match state {
        Some(s) if s.len() > 0 && s[0] == '/' => Some(s),
        _ => match home {
            Some(h) => Some(below(h, ".local/state"@)),
            None => None,
        },
    };
    match base {
        Some(b) => Some(below(b, "cce/mail/content-filters"@)),
        None => None,
    }
}

/// Where compiled filters are kept: under the state directory, if that is an
/// absolute path, else under the home directory's. `None` with neither.
pub fn filter_directory(state: Option<&str>, home: Option<&str>) -> (r: Option<String>)
    ensures
        opt_text(r) == filter_store(
            match state {
                Some(s) => Some(s@),
                None => None,
            },
            match home {
                Some(h) => Some(h@),
                None => None,
            },
        ),
{
    if let Some(s) = state {
        let cs = chars_of(s);
        if cs.len() > 0 && cs[0] == '/' {
            return Some(path_below(s, "cce/mail/content-filters"));
        }
    }
    match home {
        Some(h) => Some(
            path_below(path_below(h, ".local/state").as_str(), "cce/mail/content-filters"),
        ),
        None => None,
    }
}

/// A pixel format's code: four characters, the first in the lowest byte.
pub fn fourcc(a: u8, b: u8, c: u8, d: u8) -> (r: u32)
    ensures
        r == a + b * 0x100 + c * 0x1_0000 + d * 0x100_0000,
{
    let r = (a as u32) | ((b as u32) << 8) | ((c as u32) << 16) | ((d as u32) << 24);
    proof {
        assert(r == a + b * 0x100 + c * 0x1_0000 + d * 0x100_0000) by (bit_vector)
            requires
                r == (a as u32) | ((b as u32) << 8) | ((c as u32) << 16) | ((d as u32) << 24),
        ;
    }
    r
}

} // verus!
