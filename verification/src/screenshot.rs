//! The screenshot session: the selection region with its edge hit-testing,
//! the annotation store, the pointer state machine, the compositor and the
//! exporter.
//!
//! One owned [`Screenshot`] value holds all session state. Input handlers
//! mutate it; every handler is a total function of the current state and is
//! specified by a spec-level transition function over [`ScreenshotView`], so
//! that properties of whole input sequences can be stated and proved.
//!
//! Two deliberate deviations from a naive port of the interaction model are
//! made explicit here. Pointer positions are clamped to the frame bounds
//! before they are stored, so every stored coordinate is at most the frame
//! width or height. The two selection corners are *not* reordered after a
//! drag — an inverted selection is legal state; the compositor treats the
//! dimming test and the annotation boxes totally, and the exporter refuses a
//! degenerate selection instead of producing an invalid crop.

use vstd::prelude::*;
use vstd::arithmetic::div_mod::{lemma_fundamental_div_mod, lemma_fundamental_div_mod_converse};
use crate::image::Image;
use crate::raster::{
    draw_line, draw_line_spec, draw_rect_borders, draw_rect_borders_spec, draw_rect_filled,
    fill_rect_spec, lemma_fill_rect_len, lemma_line_len, lemma_rect_borders_len, pixel_index,
};

verus! {

/// Red channel of the fixed annotation colour (opaque magenta).
pub const BORDER_R: u8 = 255;

/// Green channel of the fixed annotation colour.
pub const BORDER_G: u8 = 0;

/// Blue channel of the fixed annotation colour.
pub const BORDER_B: u8 = 255;

/// Alpha channel of the fixed annotation colour.
pub const BORDER_A: u8 = 255;

/// The fixed colour used for the region boundary and all annotations.
pub open spec fn border_color() -> (u8, u8, u8, u8) {
    (BORDER_R, BORDER_G, BORDER_B, BORDER_A)
}

/// Half-width, in pixels, of the band around a region border that a pointer
/// press grabs for resizing.
pub const EDGE_TOLERANCE: usize = 10;

/// Alpha value forced onto every pixel outside the selected region.
pub const DIM_ALPHA: u8 = 100;

/// The kind of annotation a pointer press will start drawing.
#[derive(Clone, Copy, Debug, PartialEq, Eq)]
pub enum DrawMode {
    Line,
    RectBorder,
    RectFilled,
}

/// One annotation, finalized or in progress: two corner points.
#[derive(Clone, Copy, Debug, PartialEq, Eq)]
pub enum DrawnItem {
    Line((usize, usize), (usize, usize)),
    RectBorder((usize, usize), (usize, usize)),
    RectFilled((usize, usize), (usize, usize)),
}

/// One of the four region borders that can be grabbed for resizing.
#[derive(Clone, Copy, Debug, PartialEq, Eq)]
pub enum ResizeEdge {
    Top,
    Right,
    Bottom,
    Left,
}

/// The whole session state.
pub struct Screenshot {
    /// The captured frame, kept pristine.
    pub original_screenshot: Vec<u8>,
    /// The working buffer, rebuilt from the original on every redraw.
    pub modified_screenshot: Vec<u8>,
    /// Nominally the top-left corner of the selection.
    pub p0: (usize, usize),
    /// Nominally the bottom-right corner of the selection.
    pub p1: (usize, usize),
    /// Frame width in pixels.
    pub width: usize,
    /// Frame height in pixels.
    pub height: usize,
    /// A border drag is in progress.
    pub is_resizing: bool,
    /// The drag moves the top border.
    pub top_border_resized: bool,
    /// The drag moves the right border.
    pub right_border_resized: bool,
    /// The drag moves the bottom border.
    pub bottom_border_resized: bool,
    /// The drag moves the left border.
    pub left_border_resized: bool,
    /// What a pointer press will start drawing, if anything.
    pub draw_mode: Option<DrawMode>,
    /// The annotation currently being drawn.
    pub drawing_item: Option<DrawnItem>,
    /// Finalized annotations, in creation order.
    pub drawn_items: Vec<DrawnItem>,
    /// The last pointer position, clamped to the frame.
    pub mouse_coordinates: Option<(usize, usize)>,
}

/// The mathematical value of a [`Screenshot`].
#[verifier::ext_equal]
pub struct ScreenshotView {
    pub original_screenshot: Seq<u8>,
    pub modified_screenshot: Seq<u8>,
    pub p0: (usize, usize),
    pub p1: (usize, usize),
    pub width: usize,
    pub height: usize,
    pub is_resizing: bool,
    pub top_border_resized: bool,
    pub right_border_resized: bool,
    pub bottom_border_resized: bool,
    pub left_border_resized: bool,
    pub draw_mode: Option<DrawMode>,
    pub drawing_item: Option<DrawnItem>,
    pub drawn_items: Seq<DrawnItem>,
    pub mouse_coordinates: Option<(usize, usize)>,
}

impl View for Screenshot {
    type V = ScreenshotView;

    open spec fn view(&self) -> ScreenshotView {
        ScreenshotView {
            original_screenshot: self.original_screenshot@,
            modified_screenshot: self.modified_screenshot@,
            p0: self.p0,
            p1: self.p1,
            width: self.width,
            height: self.height,
            is_resizing: self.is_resizing,
            top_border_resized: self.top_border_resized,
            right_border_resized: self.right_border_resized,
            bottom_border_resized: self.bottom_border_resized,
            left_border_resized: self.left_border_resized,
            draw_mode: self.draw_mode,
            drawing_item: self.drawing_item,
            drawn_items: self.drawn_items@,
            mouse_coordinates: self.mouse_coordinates,
        }
    }
}

impl ScreenshotView {
    /// Session invariant: the buffers hold four bytes per frame pixel, and
    /// every stored coordinate lies within the frame.
    pub open spec fn wf(self) -> bool {
        &&& self.original_screenshot.len() == self.width * self.height * 4
        &&& self.modified_screenshot.len() == self.original_screenshot.len()
        &&& self.p0.0 <= self.width
        &&& self.p0.1 <= self.height
        &&& self.p1.0 <= self.width
        &&& self.p1.1 <= self.height
        &&& match self.mouse_coordinates {
            Some(m) => m.0 <= self.width && m.1 <= self.height,
            None => true,
        }
    }
}

/// `v`, clamped to at most `hi`.
pub open spec fn clamp_to(v: usize, hi: usize) -> usize {
    if v <= hi {
        v
    } else {
        hi
    }
}

/// A fresh session over a newly captured frame: the selection covers the
/// whole frame, nothing is being dragged or drawn, no annotations exist.
pub open spec fn fresh_spec(width: usize, height: usize, original: Seq<u8>) -> ScreenshotView {
    ScreenshotView {
        original_screenshot: original,
        modified_screenshot: original,
        p0: (0, 0),
        p1: (width, height),
        width: width,
        height: height,
        is_resizing: false,
        top_border_resized: false,
        right_border_resized: false,
        bottom_border_resized: false,
        left_border_resized: false,
        draw_mode: None,
        drawing_item: None,
        drawn_items: Seq::empty(),
        mouse_coordinates: None,
    }
}

/// The edge band a point falls in, if any: each border is grabbed within
/// `tol` pixels of its line and strictly within the orthogonal span of the
/// region, and the four bands are tested in the fixed priority order top,
/// right, bottom, left, so at most one edge is ever reported.
pub open spec fn edge_at_spec(
    p0: (usize, usize),
    p1: (usize, usize),
    x: usize,
    y: usize,
    tol: usize,
) -> Option<ResizeEdge> {
    if p0.0 < x && x < p1.0 && p0.1 <= y + tol && y <= p0.1 + tol {
        Some(ResizeEdge::Top)
    } else if p0.1 < y && y < p1.1 && p1.0 <= x + tol && x <= p1.0 + tol {
        Some(ResizeEdge::Right)
    } else if p0.0 < x && x < p1.0 && p1.1 <= y + tol && y <= p1.1 + tol {
        Some(ResizeEdge::Bottom)
    } else if p0.1 < y && y < p1.1 && p0.0 <= x + tol && x <= p0.0 + tol {
        Some(ResizeEdge::Left)
    } else {
        None
    }
}

/// `c` lies within `tol` of `target`.
fn within_band(c: usize, target: usize, tol: usize) -> (r: bool)
    ensures
        r == (target <= c + tol && c <= target + tol),
{
    if c >= target {
        c - target <= tol
    } else {
        target - c <= tol
    }
}

/// Region edge hit-testing: which border band, if any, the point `(x, y)`
/// grabs, testing top, right, bottom, left in that priority order.
pub fn edge_at(
    p0: (usize, usize),
    p1: (usize, usize),
    x: usize,
    y: usize,
    tol: usize,
) -> (r: Option<ResizeEdge>)
    ensures
        r == edge_at_spec(p0, p1, x, y, tol),
{
    if p0.0 < x && x < p1.0 && within_band(y, p0.1, tol) {
        Some(ResizeEdge::Top)
    } else if p0.1 < y && y < p1.1 && within_band(x, p1.0, tol) {
        Some(ResizeEdge::Right)
    } else if p0.0 < x && x < p1.0 && within_band(y, p1.1, tol) {
        Some(ResizeEdge::Bottom)
    } else if p0.1 < y && y < p1.1 && within_band(x, p0.0, tol) {
        Some(ResizeEdge::Left)
    } else {
        None
    }
}

/// The session after a pointer move to `(x, y)`: the position is clamped to
/// the frame and remembered; an active edge drag moves exactly its one bound
/// coordinate; otherwise an in-progress annotation of the primed kind has its
/// free corner updated; otherwise nothing else changes.
pub open spec fn move_spec(v: ScreenshotView, x: usize, y: usize) -> ScreenshotView {
    let cx = clamp_to(x, v.width);
    let cy = clamp_to(y, v.height);
    let m = ScreenshotView { mouse_coordinates: Some((cx, cy)), ..v };
    if v.is_resizing && v.top_border_resized {
        ScreenshotView { p0: (v.p0.0, cy), ..m }
    } else if v.is_resizing && v.right_border_resized {
        ScreenshotView { p1: (cx, v.p1.1), ..m }
    } else if v.is_resizing && v.bottom_border_resized {
        ScreenshotView { p1: (v.p1.0, cy), ..m }
    } else if v.is_resizing && v.left_border_resized {
        ScreenshotView { p0: (cx, v.p0.1), ..m }
    } else {
        match v.draw_mode {
            Some(DrawMode::Line) => match v.drawing_item {
                Some(DrawnItem::Line(a, _)) => ScreenshotView {
                    drawing_item: Some(DrawnItem::Line(a, (cx, cy))),
                    ..m
                },
                _ => m,
            },
            Some(DrawMode::RectBorder) => match v.drawing_item {
                Some(DrawnItem::RectBorder(a, _)) => ScreenshotView {
                    drawing_item: Some(DrawnItem::RectBorder(a, (cx, cy))),
                    ..m
                },
                _ => m,
            },
            Some(DrawMode::RectFilled) => match v.drawing_item {
                Some(DrawnItem::RectFilled(a, _)) => ScreenshotView {
                    drawing_item: Some(DrawnItem::RectFilled(a, (cx, cy))),
                    ..m
                },
                _ => m,
            },
            None => m,
        }
    }
}

/// The session after a pointer press: with no known pointer position nothing
/// happens; a press in an edge band starts the drag of that edge (resize
/// takes priority over drawing); otherwise, with a draw mode primed, a new
/// annotation starts with both corners at the press point.
pub open spec fn press_spec(v: ScreenshotView) -> ScreenshotView {
    match v.mouse_coordinates {
        None => v,
        Some(m) => match edge_at_spec(v.p0, v.p1, m.0, m.1, EDGE_TOLERANCE) {
            Some(ResizeEdge::Top) => ScreenshotView {
                is_resizing: true,
                top_border_resized: true,
                ..v
            },
            Some(ResizeEdge::Right) => ScreenshotView {
                is_resizing: true,
                right_border_resized: true,
                ..v
            },
            Some(ResizeEdge::Bottom) => ScreenshotView {
                is_resizing: true,
                bottom_border_resized: true,
                ..v
            },
            Some(ResizeEdge::Left) => ScreenshotView {
                is_resizing: true,
                left_border_resized: true,
                ..v
            },
            None => match v.draw_mode {
                Some(DrawMode::Line) => ScreenshotView {
                    drawing_item: Some(DrawnItem::Line(m, m)),
                    ..v
                },
                Some(DrawMode::RectBorder) => ScreenshotView {
                    drawing_item: Some(DrawnItem::RectBorder(m, m)),
                    ..v
                },
                Some(DrawMode::RectFilled) => ScreenshotView {
                    drawing_item: Some(DrawnItem::RectFilled(m, m)),
                    ..v
                },
                None => v,
            },
        },
    }
}

/// The session after a pointer release: every drag flag is cleared; an
/// in-progress annotation of the primed kind is finalized with its end corner
/// at the last pointer position and appended to the store, and the draw mode
/// then resets, so the next press draws nothing until a mode is selected
/// again. When nothing is finalized — no annotation in progress, or one of
/// another kind than the primed mode — the draw mode keeps its value.
pub open spec fn release_spec(v: ScreenshotView) -> ScreenshotView {
    let m = ScreenshotView {
        is_resizing: false,
        top_border_resized: false,
        right_border_resized: false,
        bottom_border_resized: false,
        left_border_resized: false,
        ..v
    };
    match v.draw_mode {
        Some(DrawMode::Line) => match (v.drawing_item, v.mouse_coordinates) {
            (Some(DrawnItem::Line(a, _)), Some(r)) => ScreenshotView {
                drawn_items: m.drawn_items.push(DrawnItem::Line(a, r)),
                drawing_item: None,
                draw_mode: None,
                ..m
            },
            _ => m,
        },
        Some(DrawMode::RectBorder) => match (v.drawing_item, v.mouse_coordinates) {
            (Some(DrawnItem::RectBorder(a, _)), Some(r)) => ScreenshotView {
                drawn_items: m.drawn_items.push(DrawnItem::RectBorder(a, r)),
                drawing_item: None,
                draw_mode: None,
                ..m
            },
            _ => m,
        },
        Some(DrawMode::RectFilled) => match (v.drawing_item, v.mouse_coordinates) {
            (Some(DrawnItem::RectFilled(a, _)), Some(r)) => ScreenshotView {
                drawn_items: m.drawn_items.push(DrawnItem::RectFilled(a, r)),
                drawing_item: None,
                draw_mode: None,
                ..m
            },
            _ => m,
        },
        None => m,
    }
}

/// A border-toggled copy of one annotation: outlined and filled rectangles
/// swap, corners unchanged; a line is returned as it is.
pub open spec fn toggle_item_spec(item: DrawnItem) -> DrawnItem {
    match item {
        DrawnItem::Line(a, b) => DrawnItem::Line(a, b),
        DrawnItem::RectBorder(a, b) => DrawnItem::RectFilled(a, b),
        DrawnItem::RectFilled(a, b) => DrawnItem::RectBorder(a, b),
    }
}

/// The session after the fill-toggle key: the most recently finalized
/// annotation is replaced by its border-toggled copy; an empty store is left
/// alone.
pub open spec fn toggle_latest_spec(v: ScreenshotView) -> ScreenshotView {
    if v.drawn_items.len() == 0 {
        v
    } else {
        ScreenshotView {
            drawn_items: v.drawn_items.update(
                v.drawn_items.len() - 1,
                toggle_item_spec(v.drawn_items.last()),
            ),
            ..v
        }
    }
}

/// The buffer after painting one annotation in the fixed colour.
pub open spec fn draw_item_spec(s: Seq<u8>, item: DrawnItem, width: usize) -> Seq<u8> {
    match item {
        DrawnItem::Line(a, b) => draw_line_spec(
            s,
            a.0 as int,
            a.1 as int,
            b.0 as int,
            b.1 as int,
            width as int,
            border_color(),
        ),
        DrawnItem::RectBorder(a, b) => draw_rect_borders_spec(
            s,
            a.0 as int,
            a.1 as int,
            b.0 as int,
            b.1 as int,
            width as int,
            border_color(),
        ),
        DrawnItem::RectFilled(a, b) => fill_rect_spec(
            s,
            a.0 as int,
            a.1 as int,
            b.0 as int,
            b.1 as int,
            width as int,
            border_color(),
        ),
    }
}

/// The buffer after painting a sequence of annotations, first to last.
pub open spec fn draw_items_rec(s: Seq<u8>, items: Seq<DrawnItem>, width: usize) -> Seq<u8>
    decreases items.len(),
{
    if items.len() == 0 {
        s
    } else {
        draw_items_rec(
            draw_item_spec(s, items[0], width),
            items.subrange(1, items.len() as int),
            width,
        )
    }
}

/// Byte `i` is the alpha channel of a pixel outside the inclusive selection
/// box.
pub open spec fn is_outside_alpha(
    i: int,
    p0: (usize, usize),
    p1: (usize, usize),
    width: usize,
) -> bool {
    width > 0 && i % 4 == 3 && {
        let pixn = i / 4;
        let x = pixn % (width as int);
        let y = pixn / (width as int);
        x < p0.0 || x > p1.0 || y < p0.1 || y > p1.1
    }
}

/// The buffer with the alpha of the first `limit` pixels dimmed where they
/// lie outside the selection.
pub open spec fn darken_upto(
    s: Seq<u8>,
    p0: (usize, usize),
    p1: (usize, usize),
    width: usize,
    limit: int,
) -> Seq<u8> {
    Seq::new(
        s.len(),
        |i: int|
            if i / 4 < limit && is_outside_alpha(i, p0, p1, width) {
                DIM_ALPHA
            } else {
                s[i]
            },
    )
}

/// The buffer after dimming: every pixel outside the inclusive box
/// `[p0, p1]` has its alpha forced to [`DIM_ALPHA`], RGB untouched; every
/// pixel inside keeps all four channels.
pub open spec fn darken_spec(
    s: Seq<u8>,
    p0: (usize, usize),
    p1: (usize, usize),
    width: usize,
) -> Seq<u8> {
    Seq::new(
        s.len(),
        |i: int|
            if is_outside_alpha(i, p0, p1, width) {
                DIM_ALPHA
            } else {
                s[i]
            },
    )
}

/// The whole per-redraw pipeline as a function of the session state: the
/// pristine frame, then the region boundary, then the dimming, then every
/// finalized annotation in store order, then the annotation in progress.
/// The current working buffer is not an input: recomposition depends only on
/// the frame, the selection and the annotations.
pub open spec fn composite_spec(v: ScreenshotView) -> Seq<u8> {
    let bordered = draw_rect_borders_spec(
        v.original_screenshot,
        v.p0.0 as int,
        v.p0.1 as int,
        v.p1.0 as int,
        v.p1.1 as int,
        v.width as int,
        border_color(),
    );
    let dimmed = darken_spec(bordered, v.p0, v.p1, v.width);
    let with_items = draw_items_rec(dimmed, v.drawn_items, v.width);
    match v.drawing_item {
        Some(item) => draw_item_spec(with_items, item, v.width),
        None => with_items,
    }
}

/// Painting one annotation preserves the buffer's length.
pub proof fn lemma_draw_item_len(s: Seq<u8>, item: DrawnItem, width: usize)
    ensures
        draw_item_spec(s, item, width).len() == s.len(),
{
    match item {
        DrawnItem::Line(a, b) => {
            lemma_line_len(s, a.0 as int, a.1 as int, b.0 as int, b.1 as int, width as int,
                border_color());
        },
        DrawnItem::RectBorder(a, b) => {
            lemma_rect_borders_len(s, a.0 as int, a.1 as int, b.0 as int, b.1 as int,
                width as int, border_color());
        },
        DrawnItem::RectFilled(a, b) => {
            lemma_fill_rect_len(s, a.0 as int, a.1 as int, b.0 as int, b.1 as int, width as int,
                border_color());
        },
    }
}

/// Painting any sequence of annotations preserves the buffer's length.
pub proof fn lemma_draw_items_rec_len(s: Seq<u8>, items: Seq<DrawnItem>, width: usize)
    ensures
        draw_items_rec(s, items, width).len() == s.len(),
    decreases items.len(),
{
    if items.len() == 0 {
    } else {
        lemma_draw_item_len(s, items[0], width);
        lemma_draw_items_rec_len(
            draw_item_spec(s, items[0], width),
            items.subrange(1, items.len() as int),
            width,
        );
    }
}

/// Compositing preserves the frame buffer's length.
pub proof fn lemma_composite_len(v: ScreenshotView)
    ensures
        composite_spec(v).len() == v.original_screenshot.len(),
{
    let bordered = draw_rect_borders_spec(
        v.original_screenshot,
        v.p0.0 as int,
        v.p0.1 as int,
        v.p1.0 as int,
        v.p1.1 as int,
        v.width as int,
        border_color(),
    );
    lemma_rect_borders_len(
        v.original_screenshot,
        v.p0.0 as int,
        v.p0.1 as int,
        v.p1.0 as int,
        v.p1.1 as int,
        v.width as int,
        border_color(),
    );
    let dimmed = darken_spec(bordered, v.p0, v.p1, v.width);
    lemma_draw_items_rec_len(dimmed, v.drawn_items, v.width);
    match v.drawing_item {
        Some(item) => {
            lemma_draw_item_len(draw_items_rec(dimmed, v.drawn_items, v.width), item, v.width);
        },
        None => {},
    }
}

/// The cropped interior of the selection: the pixels strictly between the
/// corners, excluding the one-pixel boundary, in row-major order.
pub open spec fn clipped_bytes_spec(
    s: Seq<u8>,
    p0: (usize, usize),
    p1: (usize, usize),
    width: usize,
) -> Seq<u8> {
    let cw = p1.0 - p0.0 - 2;
    let ch = p1.1 - p0.1 - 2;
    Seq::new(
        (cw * ch * 4) as nat,
        |i: int|
            {
                let k = i % 4;
                let pixn = i / 4;
                let cx = pixn % cw;
                let cy = pixn / cw;
                s[((p0.1 + 1 + cy) * width + (p0.0 + 1 + cx)) * 4 + k]
            },
    )
}

/// Copies a byte buffer.
fn clone_bytes(src: &Vec<u8>) -> (r: Vec<u8>)
    ensures
        r@ == src@,
{
    let mut r: Vec<u8> = Vec::new();
    let mut i: usize = 0;
    while i < src.len()
        invariant
            i <= src.len(),
            r@ == src@.subrange(0, i as int),
        decreases src.len() - i,
    {
        r.push(src[i]);
        i = i + 1;
        assert(r@ =~= src@.subrange(0, i as int));
    }
    assert(src@.subrange(0, src@.len() as int) =~= src@);
    r
}

impl Screenshot {
    /// Starts a session over a freshly captured frame of the given size.
    pub fn new(width: usize, height: usize, original: Vec<u8>) -> (r: Self)
        requires
            original@.len() == width * height * 4,
        ensures
            r@ == fresh_spec(width, height, original@),
            r@.wf(),
    {
        let modified = clone_bytes(&original);
        let r = Screenshot {
            original_screenshot: original,
            modified_screenshot: modified,
            p0: (0, 0),
            p1: (width, height),
            width,
            height,
            is_resizing: false,
            top_border_resized: false,
            right_border_resized: false,
            bottom_border_resized: false,
            left_border_resized: false,
            draw_mode: None,
            drawing_item: None,
            drawn_items: Vec::new(),
            mouse_coordinates: None,
        };
        proof {
            assert(r@ =~= fresh_spec(width, height, original@));
        }
        r
    }

    /// Restarts the session against a newly captured frame after the window
    /// was resized, discarding the selection and every annotation.
    pub fn resize_viewport(&mut self, width: usize, height: usize, original: Vec<u8>)
        requires
            original@.len() == width * height * 4,
        ensures
            final(self)@ == fresh_spec(width, height, original@),
            final(self)@.wf(),
    {
        *self = Self::new(width, height, original);
    }

    /// Handles a pointer move to `(x, y)`.
    ///
    /// Dragging an edge changes only that edge's one coordinate: the opposite
    /// corner and the orthogonal axis of the dragged corner are untouched.
    pub fn on_mouse_move(&mut self, x: usize, y: usize)
        requires
            old(self)@.wf(),
        ensures
            final(self)@ == move_spec(old(self)@, x, y),
            final(self)@.wf(),
    {
        let cx = if x <= self.width { x } else { self.width };
        let cy = if y <= self.height { y } else { self.height };
        self.mouse_coordinates = Some((cx, cy));

        if self.is_resizing && self.top_border_resized {
            self.p0.1 = cy;
        } else if self.is_resizing && self.right_border_resized {
            self.p1.0 = cx;
        } else if self.is_resizing && self.bottom_border_resized {
            self.p1.1 = cy;
        } else if self.is_resizing && self.left_border_resized {
            self.p0.0 = cx;
        } else {
            match self.draw_mode {
                Some(DrawMode::Line) => {
                    if let Some(DrawnItem::Line(a, _)) = self.drawing_item {
                        self.drawing_item = Some(DrawnItem::Line(a, (cx, cy)));
                    }
                },
                Some(DrawMode::RectBorder) => {
                    if let Some(DrawnItem::RectBorder(a, _)) = self.drawing_item {
                        self.drawing_item = Some(DrawnItem::RectBorder(a, (cx, cy)));
                    }
                },
                Some(DrawMode::RectFilled) => {
                    if let Some(DrawnItem::RectFilled(a, _)) = self.drawing_item {
                        self.drawing_item = Some(DrawnItem::RectFilled(a, (cx, cy)));
                    }
                },
                None => {},
            }
        }
    }

    /// Handles a pointer press at the last known pointer position: grabbing
    /// an edge band starts a resize (resize takes priority over drawing);
    /// otherwise a primed draw mode starts a new annotation at the point.
    pub fn on_mouse_pressed(&mut self)
        requires
            old(self)@.wf(),
        ensures
            final(self)@ == press_spec(old(self)@),
            final(self)@.wf(),
    {
        if let Some(m) = self.mouse_coordinates {
            match edge_at(self.p0, self.p1, m.0, m.1, EDGE_TOLERANCE) {
                Some(ResizeEdge::Top) => {
                    self.is_resizing = true;
                    self.top_border_resized = true;
                },
                Some(ResizeEdge::Right) => {
                    self.is_resizing = true;
                    self.right_border_resized = true;
                },
                Some(ResizeEdge::Bottom) => {
                    self.is_resizing = true;
                    self.bottom_border_resized = true;
                },
                Some(ResizeEdge::Left) => {
                    self.is_resizing = true;
                    self.left_border_resized = true;
                },
                None => {
                    match self.draw_mode {
                        Some(DrawMode::Line) => {
                            self.drawing_item = Some(DrawnItem::Line(m, m));
                        },
                        Some(DrawMode::RectBorder) => {
                            self.drawing_item = Some(DrawnItem::RectBorder(m, m));
                        },
                        Some(DrawMode::RectFilled) => {
                            self.drawing_item = Some(DrawnItem::RectFilled(m, m));
                        },
                        None => {},
                    }
                },
            }
        }
    }

    /// Handles a pointer release: ends any drag and finalizes any
    /// in-progress annotation of the primed kind at the last pointer
    /// position. The draw mode resets only upon finalization; a release
    /// that finalizes nothing — after a resize drag, say — leaves the
    /// primed mode in place.
    pub fn on_mouse_released(&mut self)
        requires
            old(self)@.wf(),
        ensures
            final(self)@ == release_spec(old(self)@),
            final(self)@.wf(),
    {
        self.is_resizing = false;
        self.top_border_resized = false;
        self.right_border_resized = false;
        self.bottom_border_resized = false;
        self.left_border_resized = false;

        match self.draw_mode {
            Some(DrawMode::Line) => {
                if let (Some(DrawnItem::Line(a, _)), Some(r)) =
                    (self.drawing_item, self.mouse_coordinates) {
                    self.drawn_items.push(DrawnItem::Line(a, r));
                    self.drawing_item = None;
                    self.draw_mode = None;
                }
            },
            Some(DrawMode::RectBorder) => {
                if let (Some(DrawnItem::RectBorder(a, _)), Some(r)) =
                    (self.drawing_item, self.mouse_coordinates) {
                    self.drawn_items.push(DrawnItem::RectBorder(a, r));
                    self.drawing_item = None;
                    self.draw_mode = None;
                }
            },
            Some(DrawMode::RectFilled) => {
                if let (Some(DrawnItem::RectFilled(a, _)), Some(r)) =
                    (self.drawing_item, self.mouse_coordinates) {
                    self.drawn_items.push(DrawnItem::RectFilled(a, r));
                    self.drawing_item = None;
                    self.draw_mode = None;
                }
            },
            None => {},
        }
    }

    /// A border-toggled copy of one annotation; the session is untouched.
    pub fn toggle_item_filling(&mut self, draw_item: &DrawnItem) -> (r: DrawnItem)
        ensures
            r == toggle_item_spec(*draw_item),
            final(self)@ == old(self)@,
    {
        match draw_item {
            DrawnItem::Line(a, b) => DrawnItem::Line(*a, *b),
            DrawnItem::RectBorder(a, b) => DrawnItem::RectFilled(*a, *b),
            DrawnItem::RectFilled(a, b) => DrawnItem::RectBorder(*a, *b),
        }
    }

    /// Handles the fill-toggle key: swaps the most recently finalized
    /// annotation between its outlined and filled forms; does nothing when
    /// the store is empty.
    pub fn toggle_filling_latest(&mut self)
        ensures
            final(self)@ == toggle_latest_spec(old(self)@),
    {
        if let Some(item) = self.drawn_items.pop() {
            let filled_item = self.toggle_item_filling(&item);
            self.drawn_items.push(filled_item);
            proof {
                assert(self@.drawn_items =~= toggle_latest_spec(old(self)@).drawn_items);
                assert(self@ =~= toggle_latest_spec(old(self)@));
            }
        }
    }

    /// Paints the selection boundary into the working buffer.
    pub fn draw_boundaries(&mut self)
        ensures
            final(self)@ == (ScreenshotView {
                modified_screenshot: draw_rect_borders_spec(
                    old(self)@.modified_screenshot,
                    old(self)@.p0.0 as int,
                    old(self)@.p0.1 as int,
                    old(self)@.p1.0 as int,
                    old(self)@.p1.1 as int,
                    old(self)@.width as int,
                    border_color(),
                ),
                ..old(self)@
            }),
            old(self)@.wf() ==> final(self)@.wf(),
    {
        let p0 = self.p0;
        let p1 = self.p1;
        let w = self.width;
        draw_rect_borders(
            &mut self.modified_screenshot,
            p0.0,
            p0.1,
            p1.0,
            p1.1,
            w,
            (BORDER_R, BORDER_G, BORDER_B, BORDER_A),
        );
    }

    /// Paints one annotation into the working buffer.
    pub fn draw_draw_item(&mut self, draw_item: &DrawnItem)
        ensures
            final(self)@ == (ScreenshotView {
                modified_screenshot: draw_item_spec(
                    old(self)@.modified_screenshot,
                    *draw_item,
                    old(self)@.width,
                ),
                ..old(self)@
            }),
            old(self)@.wf() ==> final(self)@.wf(),
    {
        let w = self.width;
        let color = (BORDER_R, BORDER_G, BORDER_B, BORDER_A);
        match *draw_item {
            DrawnItem::Line(a, b) => {
                draw_line(&mut self.modified_screenshot, a.0, a.1, b.0, b.1, w, color);
            },
            DrawnItem::RectBorder(a, b) => {
                draw_rect_borders(&mut self.modified_screenshot, a.0, a.1, b.0, b.1, w, color);
            },
            DrawnItem::RectFilled(a, b) => {
                draw_rect_filled(&mut self.modified_screenshot, a.0, a.1, b.0, b.1, w, color);
            },
        }
    }

    /// Dims every pixel outside the selection by forcing its alpha channel
    /// to [`DIM_ALPHA`], leaving RGB untouched.
    pub fn darken_not_selected_area(&mut self)
        requires
            old(self)@.wf(),
        ensures
            final(self)@ == (ScreenshotView {
                modified_screenshot: darken_spec(
                    old(self)@.modified_screenshot,
                    old(self)@.p0,
                    old(self)@.p1,
                    old(self)@.width,
                ),
                ..old(self)@
            }),
            final(self)@.wf(),
    {
        let ghost v0 = self@;
        let ghost m0 = self.modified_screenshot@;
        let len = self.modified_screenshot.len();
        proof {
            lemma_fundamental_div_mod_converse(
                len as int,
                4,
                (v0.width * v0.height) as int,
                0,
            );
        }
        let total: usize = len / 4;
        let mut pix: usize = 0;
        while pix < total
            invariant
                pix <= total,
                self@ == (ScreenshotView { modified_screenshot: self@.modified_screenshot, ..v0 }),
                self@.modified_screenshot == darken_upto(m0, v0.p0, v0.p1, v0.width, pix as int),
                m0.len() == v0.width * v0.height * 4,
                m0.len() <= usize::MAX,
                v0.wf(),
                total == v0.width * v0.height,
                total * 4 == m0.len(),
            decreases total - pix,
        {
            proof {
                if v0.width == 0 {
                    assert(v0.width * v0.height == 0) by (nonlinear_arith)
                        requires
                            v0.width == 0,
                    ;
                }
            }
            let x = pix % self.width;
            let y = pix / self.width;
            let outside = x < self.p0.0 || x > self.p1.0 || y < self.p0.1 || y > self.p1.1;
            let ghost prevm = self.modified_screenshot@;
            if outside {
                let i = pix * 4 + 3;
                self.modified_screenshot.set(i, DIM_ALPHA);
            }
            proof {
                let lim = pix as int;
                let newm = self.modified_screenshot@;
                lemma_fundamental_div_mod_converse(lim * 4 + 3, 4, lim, 3);
                assert forall|j: int| 0 <= j < m0.len() implies newm[j] == darken_upto(
                    m0,
                    v0.p0,
                    v0.p1,
                    v0.width,
                    lim + 1,
                )[j] by {
                    lemma_fundamental_div_mod(j, 4);
                    if j / 4 == lim && j % 4 == 3 {
                        assert(j == lim * 4 + 3);
                        assert(is_outside_alpha(j, v0.p0, v0.p1, v0.width) == outside);
                        if outside {
                            assert(newm[j] == DIM_ALPHA);
                        } else {
                            assert(newm[j] == prevm[j]);
                            assert(newm[j] == m0[j]);
                        }
                    } else {
                        assert(j != lim * 4 + 3);
                        assert(newm[j] == prevm[j]);
                    }
                }
                assert(newm =~= darken_upto(m0, v0.p0, v0.p1, v0.width, lim + 1));
            }
            pix = pix + 1;
        }
        proof {
            assert forall|j: int| 0 <= j < m0.len() implies #[trigger] (j / 4) < total as int by {
                lemma_fundamental_div_mod(j, 4);
            }
            assert(darken_upto(m0, v0.p0, v0.p1, v0.width, total as int) =~= darken_spec(
                m0,
                v0.p0,
                v0.p1,
                v0.width,
            ));
            assert(self@ =~= (ScreenshotView {
                modified_screenshot: darken_spec(m0, v0.p0, v0.p1, v0.width),
                ..v0
            }));
        }
    }

    /// Recomposites the working buffer from the pristine frame, the
    /// selection and the annotations, then copies it to the display buffer
    /// when the sizes agree (a mid-resize mismatch skips the copy).
    ///
    /// The result is a function of the frame, selection and annotations
    /// alone, so redrawing with unchanged state reproduces the same bytes.
    pub fn draw(&mut self, pixels: &mut Vec<u8>)
        requires
            old(self)@.wf(),
        ensures
            final(self)@ == (ScreenshotView {
                modified_screenshot: composite_spec(old(self)@),
                ..old(self)@
            }),
            final(self)@.wf(),
            final(pixels)@ == if old(pixels)@.len() == composite_spec(old(self)@).len() {
                composite_spec(old(self)@)
            } else {
                old(pixels)@
            },
    {
        let ghost v0 = self@;
        self.modified_screenshot = clone_bytes(&self.original_screenshot);
        proof {
            assert(self@ =~= (ScreenshotView { modified_screenshot: v0.original_screenshot, ..v0 }));
        }
        self.draw_boundaries();
        self.darken_not_selected_area();
        let ghost base = self@;
        proof {
            assert(base.drawn_items.subrange(0, base.drawn_items.len() as int)
                =~= base.drawn_items);
        }
        let mut idx: usize = 0;
        while idx < self.drawn_items.len()
            invariant
                idx <= self.drawn_items.len(),
                self@ == (ScreenshotView { modified_screenshot: self@.modified_screenshot, ..base }),
                draw_items_rec(base.modified_screenshot, base.drawn_items, base.width)
                    == draw_items_rec(
                    self@.modified_screenshot,
                    base.drawn_items.subrange(idx as int, base.drawn_items.len() as int),
                    base.width,
                ),
                base.wf(),
            decreases self.drawn_items.len() - idx,
        {
            let it = self.drawn_items[idx];
            let ghost rest = base.drawn_items.subrange(idx as int, base.drawn_items.len() as int);
            proof {
                assert(rest[0] == base.drawn_items[idx as int]);
                assert(rest.subrange(1, rest.len() as int) =~= base.drawn_items.subrange(
                    idx + 1,
                    base.drawn_items.len() as int,
                ));
            }
            self.draw_draw_item(&it);
            idx = idx + 1;
        }
        proof {
            assert(base.drawn_items.subrange(
                base.drawn_items.len() as int,
                base.drawn_items.len() as int,
            ) =~= Seq::<DrawnItem>::empty());
        }
        if let Some(item) = self.drawing_item {
            self.draw_draw_item(&item);
        }
        proof {
            assert(self@ =~= (ScreenshotView { modified_screenshot: composite_spec(v0), ..v0 }));
            lemma_composite_len(v0);
        }
        if pixels.len() == self.modified_screenshot.len() {
            *pixels = clone_bytes(&self.modified_screenshot);
        }
    }

    /// The whole composited frame, annotations and dimming included, as an
    /// image record for the clipboard collaborator.
    pub fn get_focused_image(&self) -> (r: Image)
        requires
            self@.wf(),
        ensures
            r.width == self.width,
            r.height == self.height,
            r.bytes@ == self@.modified_screenshot,
            r.wf(),
    {
        Image {
            width: self.width,
            height: self.height,
            bytes: clone_bytes(&self.modified_screenshot),
        }
    }

    /// The composited pixels strictly inside the selection, excluding the
    /// one-pixel boundary: width and height are each two less than the
    /// selection's span. A selection whose span is two pixels or fewer on
    /// either axis has no interior and yields nothing.
    pub fn get_clipped_image(&self) -> (r: Option<Image>)
        requires
            self@.wf(),
        ensures
            r is Some <==> (self.p0.0 + 2 < self.p1.0 && self.p0.1 + 2 < self.p1.1),
            r is Some ==> {
                &&& r.unwrap().width == self.p1.0 - self.p0.0 - 2
                &&& r.unwrap().height == self.p1.1 - self.p0.1 - 2
                &&& r.unwrap().bytes@ == clipped_bytes_spec(
                    self@.modified_screenshot,
                    self.p0,
                    self.p1,
                    self.width,
                )
                &&& r.unwrap().wf()
            },
    {
        if !(self.p1.0 >= 3 && self.p0.0 < self.p1.0 - 2 && self.p1.1 >= 3 && self.p0.1
            < self.p1.1 - 2) {
            return None;
        }
        let cw = self.p1.0 - self.p0.0 - 2;
        let ch = self.p1.1 - self.p0.1 - 2;
        let ghost m = self@.modified_screenshot;
        let ghost clip = clipped_bytes_spec(m, self.p0, self.p1, self.width);
        let mlen = self.modified_screenshot.len();
        proof {
            assert(m.len() == mlen);
            assert(clip.len() == cw * ch * 4);
        }
        let mut bytes: Vec<u8> = Vec::new();
        let mut cy: usize = 0;
        while cy < ch
            invariant
                cy <= ch,
                self@.wf(),
                cw == self.p1.0 - self.p0.0 - 2,
                ch == self.p1.1 - self.p0.1 - 2,
                self.p0.0 + 2 < self.p1.0,
                self.p0.1 + 2 < self.p1.1,
                m == self@.modified_screenshot,
                m.len() <= usize::MAX,
                clip == clipped_bytes_spec(m, self.p0, self.p1, self.width),
                clip.len() == cw * ch * 4,
                bytes@.len() == cy * cw * 4,
                bytes@ =~= clip.subrange(0, (cy * cw * 4) as int),
            decreases ch - cy,
        {
            let y = self.p0.1 + 1 + cy;
            let mut cx: usize = 0;
            while cx < cw
                invariant
                    cx <= cw,
                    cy < ch,
                    y == self.p0.1 + 1 + cy,
                    self@.wf(),
                    cw == self.p1.0 - self.p0.0 - 2,
                    ch == self.p1.1 - self.p0.1 - 2,
                    self.p0.0 + 2 < self.p1.0,
                    self.p0.1 + 2 < self.p1.1,
                    m == self@.modified_screenshot,
                    m.len() <= usize::MAX,
                    clip == clipped_bytes_spec(m, self.p0, self.p1, self.width),
                    clip.len() == cw * ch * 4,
                    bytes@.len() == (cy * cw + cx) * 4,
                    bytes@ =~= clip.subrange(0, ((cy * cw + cx) * 4) as int),
                decreases cw - cx,
            {
                let x = self.p0.0 + 1 + cx;
                proof {
                    lemma_clip_read(m, self.p0, self.p1, self.width, self@.height, cy as int,
                        cx as int);
                }
                let row_base = y * (self.width * 4);
                let b0 = self.modified_screenshot[row_base + x * 4];
                let b1 = self.modified_screenshot[row_base + x * 4 + 1];
                let b2 = self.modified_screenshot[row_base + x * 4 + 2];
                let b3 = self.modified_screenshot[row_base + x * 4 + 3];
                bytes.push(b0);
                bytes.push(b1);
                bytes.push(b2);
                bytes.push(b3);
                proof {
                    let pixn = (cy * cw + cx) as int;
                    let src = ((self.p0.1 + 1 + cy) * self.width + (self.p0.0 + 1 + cx)) * 4;
                    assert(cy * cw + cx + 1 <= ch * cw && ch * cw == cw * ch) by (nonlinear_arith)
                        requires
                            0 <= cx < cw,
                            0 <= cy < ch,
                    ;
                    lemma_clip_index(cw as int, cy as int, cx as int, 0);
                    lemma_clip_index(cw as int, cy as int, cx as int, 1);
                    lemma_clip_index(cw as int, cy as int, cx as int, 2);
                    lemma_clip_index(cw as int, cy as int, cx as int, 3);
                    assert(clip[pixn * 4 + 0] == m[src + 0]);
                    assert(clip[pixn * 4 + 1] == m[src + 1]);
                    assert(clip[pixn * 4 + 2] == m[src + 2]);
                    assert(clip[pixn * 4 + 3] == m[src + 3]);
                    assert(bytes@ =~= clip.subrange(0, ((cy * cw + cx + 1) * 4) as int));
                }
                cx = cx + 1;
            }
            proof {
                assert((cy + 1) * cw == cy * cw + cw) by (nonlinear_arith);
            }
            cy = cy + 1;
        }
        proof {
            assert(ch * cw == cw * ch) by (nonlinear_arith);
            assert((cy * cw * 4) as int == clip.len());
            assert(clip.subrange(0, clip.len() as int) =~= clip);
            assert(bytes@ =~= clip);
        }
        Some(Image { width: cw, height: ch, bytes })
    }
}

/// Edge hit-testing reports at most one edge — it yields a single optional
/// value by construction — and, for a region whose sides are longer than the
/// tolerance band, the midpoint of each border is reported as exactly that
/// border's edge.
pub proof fn lemma_edge_at_midpoints(p0: (usize, usize), p1: (usize, usize), tol: usize)
    requires
        p0.0 + 2 <= p1.0,
        p0.1 + 2 <= p1.1,
        p0.0 + tol < p1.0,
        p0.1 + tol < p1.1,
    ensures
        edge_at_spec(p0, p1, ((p0.0 + p1.0) / 2) as usize, p0.1, tol) == Some(ResizeEdge::Top),
        edge_at_spec(p0, p1, p1.0, ((p0.1 + p1.1) / 2) as usize, tol) == Some(ResizeEdge::Right),
        edge_at_spec(p0, p1, ((p0.0 + p1.0) / 2) as usize, p1.1, tol) == Some(ResizeEdge::Bottom),
        edge_at_spec(p0, p1, p0.0, ((p0.1 + p1.1) / 2) as usize, tol) == Some(ResizeEdge::Left),
{
    let mx = ((p0.0 + p1.0) / 2) as usize;
    let my = ((p0.1 + p1.1) / 2) as usize;
    assert(p0.0 < mx && mx < p1.0 && p0.1 < my && my < p1.1) by {
        lemma_fundamental_div_mod((p0.0 + p1.0) as int, 2);
        lemma_fundamental_div_mod((p0.1 + p1.1) as int, 2);
    };
}

/// Dragging one edge moves only that edge's coordinate: dragging the top
/// changes only `p0.1`, and `p0.0`, `p1.0`, `p1.1` stay fixed (and likewise
/// for the other three edges, by the stated priority of the drag flags).
pub proof fn lemma_drag_moves_one_coordinate(v: ScreenshotView, x: usize, y: usize)
    requires
        v.is_resizing,
    ensures
        v.top_border_resized ==> {
            let r = move_spec(v, x, y);
            r.p0.1 == clamp_to(y, v.height) && r.p0.0 == v.p0.0 && r.p1 == v.p1
        },
        !v.top_border_resized && v.right_border_resized ==> {
            let r = move_spec(v, x, y);
            r.p1.0 == clamp_to(x, v.width) && r.p1.1 == v.p1.1 && r.p0 == v.p0
        },
        !v.top_border_resized && !v.right_border_resized && v.bottom_border_resized ==> {
            let r = move_spec(v, x, y);
            r.p1.1 == clamp_to(y, v.height) && r.p1.0 == v.p1.0 && r.p0 == v.p0
        },
        !v.top_border_resized && !v.right_border_resized && !v.bottom_border_resized
            && v.left_border_resized ==> {
            let r = move_spec(v, x, y);
            r.p0.0 == clamp_to(x, v.width) && r.p0.1 == v.p0.1 && r.p1 == v.p1
        },
{
}

/// One whole line gesture: pressing at `p`, moving to `q` and releasing at
/// `r`, with the line mode primed and the press missing every edge band,
/// appends exactly one annotation — the line from `p` to `r` — and resets
/// the draw mode, so the next press draws nothing.
pub proof fn lemma_line_gesture(
    v: ScreenshotView,
    p: (usize, usize),
    q: (usize, usize),
    r: (usize, usize),
)
    requires
        v.draw_mode == Some(DrawMode::Line),
        !v.is_resizing,
        p.0 <= v.width && p.1 <= v.height,
        q.0 <= v.width && q.1 <= v.height,
        r.0 <= v.width && r.1 <= v.height,
        edge_at_spec(v.p0, v.p1, p.0, p.1, EDGE_TOLERANCE) is None,
    ensures
        ({
            let s1 = move_spec(v, p.0, p.1);
            let s2 = press_spec(s1);
            let s3 = move_spec(s2, q.0, q.1);
            let s4 = move_spec(s3, r.0, r.1);
            let s5 = release_spec(s4);
            &&& s5.drawn_items == v.drawn_items.push(DrawnItem::Line(p, r))
            &&& s5.draw_mode is None
            &&& s5.drawing_item is None
        }),
{
    let s1 = move_spec(v, p.0, p.1);
    let s2 = press_spec(s1);
    let s3 = move_spec(s2, q.0, q.1);
    let s4 = move_spec(s3, r.0, r.1);
    let s5 = release_spec(s4);
    assert(s1.mouse_coordinates == Some(p));
    assert(s2.drawing_item == Some(DrawnItem::Line(p, p)));
    assert(s3.drawing_item == Some(DrawnItem::Line(p, q)));
    assert(s4.drawing_item == Some(DrawnItem::Line(p, r)));
    assert(s4.mouse_coordinates == Some(r));
}

/// The fill toggle swaps the last annotation between its outlined and
/// filled forms with identical corners, toggling twice restores the store
/// exactly, and a trailing line annotation is left unchanged.
pub proof fn lemma_fill_toggle_round_trip(v: ScreenshotView)
    requires
        v.drawn_items.len() > 0,
    ensures
        toggle_latest_spec(toggle_latest_spec(v)) == v,
        forall|a: (usize, usize), b: (usize, usize)|
            v.drawn_items.last() == DrawnItem::RectBorder(a, b) ==> toggle_latest_spec(
                v,
            ).drawn_items.last() == DrawnItem::RectFilled(a, b),
        forall|a: (usize, usize), b: (usize, usize)|
            v.drawn_items.last() == DrawnItem::RectFilled(a, b) ==> toggle_latest_spec(
                v,
            ).drawn_items.last() == DrawnItem::RectBorder(a, b),
        v.drawn_items.last() matches DrawnItem::Line(..) ==> toggle_latest_spec(v) == v,
{
    let once = toggle_latest_spec(v);
    assert(once.drawn_items.last() == toggle_item_spec(v.drawn_items.last()));
    assert(toggle_item_spec(toggle_item_spec(v.drawn_items.last())) == v.drawn_items.last());
    assert(once.drawn_items.len() == v.drawn_items.len());
    let twice = toggle_latest_spec(once);
    assert(twice.drawn_items =~= v.drawn_items);
    assert(twice =~= v);
    if v.drawn_items.last() matches DrawnItem::Line(..) {
        assert(once.drawn_items =~= v.drawn_items);
        assert(once =~= v);
    }
}

/// After compositing a session with no annotations, every frame pixel
/// outside the inclusive selection box has its alpha dimmed to
/// [`DIM_ALPHA`], and every pixel strictly inside the selection keeps all
/// four of its original channels — in particular its original alpha.
pub proof fn lemma_composite_dimming(v: ScreenshotView, x: usize, y: usize, k: int)
    requires
        v.wf(),
        v.width > 0,
        v.drawn_items.len() == 0,
        v.drawing_item is None,
        x < v.width,
        y < v.height,
        0 <= k < 4,
    ensures
        (x < v.p0.0 || x > v.p1.0 || y < v.p0.1 || y > v.p1.1) ==> composite_spec(v)[pixel_index(
            x as int,
            y as int,
            v.width as int,
        ) + 3] == DIM_ALPHA,
        (v.p0.0 < x < v.p1.0 && v.p0.1 < y < v.p1.1) ==> composite_spec(v)[pixel_index(
            x as int,
            y as int,
            v.width as int,
        ) + k] == v.original_screenshot[pixel_index(x as int, y as int, v.width as int) + k],
{
    let w = v.width;
    let bordered = draw_rect_borders_spec(
        v.original_screenshot,
        v.p0.0 as int,
        v.p0.1 as int,
        v.p1.0 as int,
        v.p1.1 as int,
        w as int,
        border_color(),
    );
    lemma_rect_borders_len(
        v.original_screenshot,
        v.p0.0 as int,
        v.p0.1 as int,
        v.p1.0 as int,
        v.p1.1 as int,
        w as int,
        border_color(),
    );
    let dimmed = darken_spec(bordered, v.p0, v.p1, w);
    assert(composite_spec(v) == dimmed);
    let pix = y * w + x;
    let i = pix * 4;
    assert(pix * 4 + 3 < w * v.height * 4 && pix < w * v.height) by (nonlinear_arith)
        requires
            pix == y * w + x,
            0 <= x < w,
            0 <= y < v.height,
    ;
    lemma_fundamental_div_mod_converse(i + k, 4, pix as int, k);
    lemma_fundamental_div_mod_converse(i + 3, 4, pix as int, 3);
    lemma_fundamental_div_mod_converse(pix as int, w as int, y as int, x as int);
    if x < v.p0.0 || x > v.p1.0 || y < v.p0.1 || y > v.p1.1 {
        assert(is_outside_alpha(i + 3, v.p0, v.p1, w));
        assert(dimmed[i + 3] == DIM_ALPHA);
    }
    if v.p0.0 < x < v.p1.0 && v.p0.1 < y < v.p1.1 {
        assert(!is_outside_alpha(i + k, v.p0, v.p1, w));
        assert(dimmed[i + k] == bordered[i + k]);
        crate::raster::lemma_rect_borders_inside_untouched(
            v.original_screenshot,
            v.p0.0 as int,
            v.p0.1 as int,
            v.p1.0 as int,
            v.p1.1 as int,
            w as int,
            border_color(),
            x as int,
            y as int,
            k,
        );
    }
}

/// Compositing is idempotent: the working buffer is not an input of the
/// pipeline, so rebuilding a session whose working buffer already holds the
/// composite yields the same bytes again.
pub proof fn lemma_compositing_idempotent(v: ScreenshotView)
    ensures
        composite_spec(ScreenshotView { modified_screenshot: composite_spec(v), ..v })
            == composite_spec(v),
{
}

/// Decomposition of a cropped-buffer byte index into its pixel coordinates.
proof fn lemma_clip_index(cw: int, cy: int, cx: int, k: int)
    requires
        cw > 0,
        0 <= cx < cw,
        0 <= cy,
        0 <= k < 4,
    ensures
        ((cy * cw + cx) * 4 + k) % 4 == k,
        ((cy * cw + cx) * 4 + k) / 4 == cy * cw + cx,
        (cy * cw + cx) % cw == cx,
        (cy * cw + cx) / cw == cy,
{
    lemma_fundamental_div_mod_converse((cy * cw + cx) * 4 + k, 4, cy * cw + cx, k);
    lemma_fundamental_div_mod_converse(cy * cw + cx, cw, cy, cx);
}

/// The source bytes of one cropped pixel lie inside the working buffer, and
/// the flat index arithmetic used to read them matches the spec's.
proof fn lemma_clip_read(
    m: Seq<u8>,
    p0: (usize, usize),
    p1: (usize, usize),
    width: usize,
    height: usize,
    cy: int,
    cx: int,
)
    requires
        m.len() == width * height * 4,
        p0.0 + 2 < p1.0,
        p0.1 + 2 < p1.1,
        p1.0 <= width,
        p1.1 <= height,
        0 <= cy < p1.1 - p0.1 - 2,
        0 <= cx < p1.0 - p0.0 - 2,
    ensures
        ((p0.1 + 1 + cy) * width + (p0.0 + 1 + cx)) * 4 + 3 < m.len(),
        (p0.1 + 1 + cy) * (width * 4) == ((p0.1 + 1 + cy) * width) * 4,
        (p0.1 + 1 + cy) * (width * 4) + (p0.0 + 1 + cx) * 4 == ((p0.1 + 1 + cy) * width + (p0.0 + 1
            + cx)) * 4,
        (p0.1 + 1 + cy) * (width * 4) <= m.len(),
        width * 4 <= m.len(),
{
    let y = p0.1 + 1 + cy;
    let x = p0.0 + 1 + cx;
    assert(y < height && x < width);
    assert((y * width + x) * 4 + 3 < width * height * 4 && y * (width * 4) == (y * width) * 4
        && y * (width * 4) + x * 4 == (y * width + x) * 4 && y * (width * 4) <= width * height
        * 4 && width * 4 <= width * height * 4) by (nonlinear_arith)
        requires
            0 <= y,
            0 <= x,
            y < height,
            x < width,
    ;
}

} // verus!
