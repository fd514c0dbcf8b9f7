//! Where everything on a tile is drawn.

use vstd::prelude::*;
use crate::geometry::{Rect, PX, REACH};
use crate::model::{Mode, Move};
use crate::num;

verus! {

/// The figure on a tile that has no icon to fetch. Drawn rather than set in a
/// glyph, because the whole point of these is to be a picture of the shape the
/// window ends up in.
#[derive(Debug, Clone, Copy, PartialEq, Eq, Structural)]
pub enum Mark {
    /// A screen outline with the destination filled, in hundredths of it.
    Half { left: u8, top: u8, right: u8, bottom: u8 },
    /// Two screens side by side, the destination filled.
    Screen { second: bool },
    /// On or off, read the way a radio button is.
    Latch { on: bool },
    /// One more of the thing this box is full of.
    Plus,
    /// An empty square of the centre block.
    Slot,
    Cross,
    Minus,
    /// The same tiles, and the rest of them.
    All,
    /// The bento being cut.
    Bento,
}

/// A picture of where a window lands.
pub open spec fn picture_of(mv: Move) -> Mark {
    match mv {
        Move::Left => Mark::Half { left: 0, top: 0, right: 50, bottom: 100 },
        Move::Right => Mark::Half { left: 50, top: 0, right: 100, bottom: 100 },
        // Maximize fills the screen; down off it is the smaller window it
        // restores to.
        Move::Up => Mark::Half { left: 0, top: 0, right: 100, bottom: 100 },
        Move::Down => Mark::Half { left: 24, top: 26, right: 76, bottom: 74 },
        Move::ScreenLeft => Mark::Screen { second: false },
        Move::ScreenRight => Mark::Screen { second: true },
    }
}

/// A picture of where the window lands.
pub fn mark_of(mv: Move) -> (mark: Mark)
    ensures
        mark == picture_of(mv),
{
    match mv {
        Move::Left => Mark::Half { left: 0, top: 0, right: 50, bottom: 100 },
        Move::Right => Mark::Half { left: 50, top: 0, right: 100, bottom: 100 },
        Move::Up => Mark::Half { left: 0, top: 0, right: 100, bottom: 100 },
        Move::Down => Mark::Half { left: 24, top: 26, right: 76, bottom: 74 },
        Move::ScreenLeft => Mark::Screen { second: false },
        Move::ScreenRight => Mark::Screen { second: true },
    }
}

/// A picture of what a mode does to the panel, not an ornament.
pub open spec fn picture_of_mode(mode: Mode) -> Mark {
    match mode {
        Mode::Move => Mark::Half { left: 0, top: 0, right: 50, bottom: 100 },
        Mode::Favorites => Mark::Half { left: 28, top: 24, right: 72, bottom: 76 },
        Mode::Close => Mark::Cross,
        Mode::AllApps => Mark::All,
        Mode::AllBookmarks => Mark::All,
        Mode::Layout => Mark::Bento,
        Mode::Grid => Mark::Bento,
    }
}

pub fn mark_of_mode(mode: Mode) -> (mark: Mark)
    ensures
        mark == picture_of_mode(mode),
{
    match mode {
        Mode::Move => Mark::Half { left: 0, top: 0, right: 50, bottom: 100 },
        Mode::Favorites => Mark::Half { left: 28, top: 24, right: 72, bottom: 76 },
        Mode::Close => Mark::Cross,
        Mode::AllApps | Mode::AllBookmarks => Mark::All,
        Mode::Layout | Mode::Grid => Mark::Bento,
    }
}

/// How thick the bars of a plus are.
pub const BAR: i64 = 134;

/// Hundredths of a length.
pub open spec fn hundredths(length: int, n: int) -> int {
    length * n / 100
}

fn part(length: i64, n: i64) -> (share: i64)
    requires
        0 <= length <= 4 * REACH,
        0 <= n <= 400,
    ensures
        share == hundredths(length as int, n as int),
        0 <= share <= 4 * length,
{
    assert(0 <= length * n <= 400 * length) by (nonlinear_arith)
        requires
            0 <= length,
            0 <= n <= 400,
    ;
    length * n / 100
}

/// One stroke or fill of a figure, in content of the surface it is drawn on.
#[derive(Debug, Clone, Copy, PartialEq, Eq, Structural)]
pub enum Shape {
    /// A filled rectangle.
    Block(Rect),
    /// A filled rectangle with rounded corners.
    Pane(Rect),
    /// The outline of one.
    Frame(Rect),
    /// A circle's outline.
    Ring { x: i64, y: i64, r: i64 },
    /// A filled circle.
    Dot { x: i64, y: i64, r: i64 },
}

/// The square a figure is sized from: the one an icon would take.
pub open spec fn side_of(width: int, area: int) -> int {
    num::larger(
        num::smaller(hundredths(area, 60), hundredths(width, 50)),
        8 * PX,
    )
}

/// How wide and how tall a figure is. A pair of screens is wider and shorter
/// than one; a plus has no long axis, so it gets a square to sit in.
pub open spec fn figure_size(mark: Mark, side: int) -> (int, int) {
    match mark {
        Mark::Screen { .. } => (hundredths(side, 124), hundredths(side, 52)),
        Mark::Plus => (side, side),
        _ => (side, side * 5 / 8),
    }
}

pub open spec fn rect(x: int, y: int, w: int, h: int) -> Rect {
    Rect { x: x as i64, y: y as i64, w: w as i64, h: h as i64 }
}

/// How far a fill stops short of the frame it sits in, where there is room.
pub open spec fn short_of(from: int, to: int) -> (int, int) {
    if to - from > 4 * PX {
        (from + 2 * PX, to - 2 * PX)
    } else {
        (from, to)
    }
}

/// A screen outline with the destination filled.
pub open spec fn half_figure(
    at: (int, int),
    size: (int, int),
    from: (int, int),
    to: (int, int),
) -> Seq<Shape> {
    let across = short_of(at.0 + hundredths(size.0, from.0), at.0 + hundredths(size.0, to.0));
    let down = short_of(at.1 + hundredths(size.1, from.1), at.1 + hundredths(size.1, to.1));
    seq![
        Shape::Block(rect(across.0, down.0, across.1 - across.0, down.1 - down.0)),
        Shape::Frame(rect(at.0, at.1, size.0, size.1)),
    ]
}

/// Two screens side by side, the destination filled.
pub open spec fn screens_figure(at: (int, int), size: (int, int), second: bool) -> Seq<Shape> {
    let gap = hundredths(size.0, 20);
    let each = (size.0 - gap) / 2;
    let other = at.0 + each + gap;
    let filled = if second {
        other
    } else {
        at.0
    };
    seq![
        Shape::Pane(rect(filled, at.1, each, size.1)),
        Shape::Frame(rect(at.0, at.1, each, size.1)),
        Shape::Frame(rect(other, at.1, each, size.1)),
    ]
}

/// Two bars crossed.
pub open spec fn plus_figure(at: (int, int), size: (int, int)) -> Seq<Shape> {
    let arm = hundredths(size.0, 42);
    let (x, y) = (at.0 + size.0 / 2, at.1 + size.1 / 2);
    let bar = BAR as int;
    seq![
        Shape::Block(rect(x - arm, y - bar / 2, 2 * arm, bar)),
        Shape::Block(rect(x - bar / 2, y - arm, bar, 2 * arm)),
    ]
}

/// A radio button, in the middle of the surface.
pub open spec fn latch_figure(width: int, at: (int, int), size: (int, int), on: bool) -> Seq<
    Shape,
> {
    let r = size.1 / 2;
    let (x, y) = (width / 2, at.1 + r);
    let ring = Shape::Ring { x: x as i64, y: y as i64, r: r as i64 };
    if on {
        seq![ring, Shape::Dot { x: x as i64, y: y as i64, r: (r / 2) as i64 }]
    } else {
        seq![ring]
    }
}

/// The strokes and fills of the figures that are drawn from their own numbers.
/// The rest are pictures of their own and have none.
pub open spec fn figure(mark: Mark, width: int, area: int) -> Seq<Shape> {
    let size = figure_size(mark, side_of(width, area));
    let at = ((width - size.0) / 2, (area - size.1) / 2);
    match mark {
        Mark::Half { left, top, right, bottom } => half_figure(
            at,
            size,
            (left as int, top as int),
            (right as int, bottom as int),
        ),
        Mark::Screen { second } => screens_figure(at, size, second),
        Mark::Plus => plus_figure(at, size),
        Mark::Latch { on } => latch_figure(width, at, size, on),
        _ => Seq::empty(),
    }
}

/// Half of a length that may be less than nothing, rounded down.
fn halved(n: i64) -> (half: i64)
    requires
        -0x2000_0000_0000 <= n <= 0x2000_0000_0000,
    ensures
        half == n as int / 2,
{
    if n >= 0 {
        n / 2
    } else {
        -((1 - n) / 2)
    }
}

/// A figure lies within what its arithmetic can hold.
spec fn within(at: (i64, i64), size: (i64, i64)) -> bool {
    &&& -4 * REACH <= at.0 <= REACH
    &&& -4 * REACH <= at.1 <= REACH
    &&& 0 <= size.0 <= 4 * REACH
    &&& 0 <= size.1 <= 4 * REACH
}

fn inset_span(from: i64, to: i64) -> (span: (i64, i64))
    requires
        -0x2000_0000_0000 <= from <= 0x2000_0000_0000,
        -0x2000_0000_0000 <= to <= 0x2000_0000_0000,
    ensures
        span.0 == short_of(from as int, to as int).0,
        span.1 == short_of(from as int, to as int).1,
{
    if to - from > 4 * PX {
        (from + 2 * PX, to - 2 * PX)
    } else {
        (from, to)
    }
}

fn half_shapes(at: (i64, i64), size: (i64, i64), from: (u8, u8), to: (u8, u8)) -> (shapes: Vec<
    Shape,
>)
    requires
        within(at, size),
        from.0 <= 100 && from.1 <= 100 && to.0 <= 100 && to.1 <= 100,
    ensures
        shapes@ == half_figure(
            (at.0 as int, at.1 as int),
            (size.0 as int, size.1 as int),
            (from.0 as int, from.1 as int),
            (to.0 as int, to.1 as int),
        ),
{
    let across = inset_span(at.0 + part(size.0, from.0 as i64), at.0 + part(size.0, to.0 as i64));
    let down = inset_span(at.1 + part(size.1, from.1 as i64), at.1 + part(size.1, to.1 as i64));
    let mut shapes: Vec<Shape> = Vec::new();
    shapes.push(
        Shape::Block(
            Rect { x: across.0, y: down.0, w: across.1 - across.0, h: down.1 - down.0 },
        ),
    );
    shapes.push(Shape::Frame(Rect { x: at.0, y: at.1, w: size.0, h: size.1 }));
    shapes
}

fn screen_shapes(at: (i64, i64), size: (i64, i64), second: bool) -> (shapes: Vec<Shape>)
    requires
        within(at, size),
    ensures
        shapes@ == screens_figure(
            (at.0 as int, at.1 as int),
            (size.0 as int, size.1 as int),
            second,
        ),
{
    let gap = part(size.0, 20);
    let each = halved(size.0 - gap);
    let other: i64 = at.0 + each + gap;
    let filled: i64 = if second {
        other
    } else {
        at.0
    };
    let mut shapes: Vec<Shape> = Vec::new();
    shapes.push(Shape::Pane(Rect { x: filled, y: at.1, w: each, h: size.1 }));
    shapes.push(Shape::Frame(Rect { x: at.0, y: at.1, w: each, h: size.1 }));
    shapes.push(Shape::Frame(Rect { x: other, y: at.1, w: each, h: size.1 }));
    shapes
}

fn plus_shapes(at: (i64, i64), size: (i64, i64)) -> (shapes: Vec<Shape>)
    requires
        within(at, size),
    ensures
        shapes@ == plus_figure((at.0 as int, at.1 as int), (size.0 as int, size.1 as int)),
{
    let arm = part(size.0, 42);
    let (x, y): (i64, i64) = (at.0 + size.0 / 2, at.1 + size.1 / 2);
    let mut shapes: Vec<Shape> = Vec::new();
    shapes.push(Shape::Block(Rect { x: x - arm, y: y - BAR / 2, w: 2 * arm, h: BAR }));
    shapes.push(Shape::Block(Rect { x: x - BAR / 2, y: y - arm, w: BAR, h: 2 * arm }));
    shapes
}

fn latch_shapes(width: i64, at: (i64, i64), size: (i64, i64), on: bool) -> (shapes: Vec<Shape>)
    requires
        within(at, size),
        0 <= width <= REACH,
    ensures
        shapes@ == latch_figure(
            width as int,
            (at.0 as int, at.1 as int),
            (size.0 as int, size.1 as int),
            on,
        ),
{
    let r: i64 = size.1 / 2;
    let (x, y): (i64, i64) = (width / 2, at.1 + r);
    let mut shapes: Vec<Shape> = Vec::new();
    shapes.push(Shape::Ring { x, y, r });
    if on {
        shapes.push(Shape::Dot { x, y, r: r / 2 });
    }
    shapes
}

/// The strokes and fills of a mark. Sized off the same numbers the icon block
/// uses, so a bar of these lines up with a row of app tiles.
pub fn mark_shapes(mark: Mark, width: i64, area: i64) -> (shapes: Vec<Shape>)
    requires
        0 <= width <= REACH,
        0 <= area <= REACH,
        mark matches Mark::Half { left, top, right, bottom } ==> left <= 100 && top <= 100 && right
            <= 100 && bottom <= 100,
    ensures
        shapes@ == figure(mark, width as int, area as int),
{
    let (tall, wide) = (part(area, 60), part(width, 50));
    let small: i64 = if tall < wide {
        tall
    } else {
        wide
    };
    let side: i64 = if small > 8 * PX {
        small
    } else {
        8 * PX
    };
    let size: (i64, i64) = match mark {
        Mark::Screen { .. } => (part(side, 124), part(side, 52)),
        Mark::Plus => (side, side),
        _ => (side, side * 5 / 8),
    };
    let at: (i64, i64) = (halved(width - size.0), halved(area - size.1));
    match mark {
        Mark::Half { left, top, right, bottom } => half_shapes(
            at,
            size,
            (left, top),
            (right, bottom),
        ),
        Mark::Screen { second } => screen_shapes(at, size, second),
        Mark::Plus => plus_shapes(at, size),
        Mark::Latch { on } => latch_shapes(width, at, size, on),
        _ => Vec::new(),
    }
}

/// Where the parts of a tile are drawn.
#[derive(Debug, Clone, Copy, PartialEq, Eq, Structural)]
pub struct TileParts {
    /// The part above the label strip.
    pub area: i64,
    pub icon: Option<Rect>,
    pub title: Rect,
    pub detail: Rect,
}

/// Where an icon is drawn: in the middle of its area, as large as fits without
/// stretching it past its own size.
pub open spec fn icon_rect(
    width: int,
    top: int,
    band: int,
    most: int,
    icon: (u32, u32),
) -> Rect {
    let own = num::larger(icon.0 as int, icon.1 as int) * PX;
    let side = num::larger(num::smaller(most, own), PX as int);
    rect((width - side) / 2, top + (band - side) / 2, side, side)
}

/// The parts of a tile. With no detail line the title gets the whole label
/// strip, which keeps it vertically centred instead of riding high.
pub open spec fn tile_parts_of(
    width: int,
    height: int,
    label: int,
    detailed: bool,
    icon: Option<(u32, u32)>,
) -> TileParts {
    let area = num::larger(height - label, 0);
    let pad = 8 * PX;
    let strip = num::larger(
        if detailed {
            hundredths(label, 58)
        } else {
            label
        },
        PX as int,
    );
    TileParts {
        area: area as i64,
        icon: match icon {
            Some(size) => Some(
                icon_rect(
                    width,
                    0,
                    area,
                    num::smaller(hundredths(area, 60), hundredths(width, 50)),
                    size,
                ),
            ),
            None => None,
        },
        title: rect(pad, area, width - 2 * pad, strip),
        detail: rect(pad, area + strip, width - 2 * pad, height - area - strip),
    }
}

fn place_icon(width: i64, top: i64, band: i64, most: i64, icon: (u32, u32)) -> (at: Rect)
    requires
        0 <= width <= REACH,
        0 <= top <= REACH,
        -REACH <= band <= REACH,
        -REACH <= most <= REACH,
    ensures
        at == icon_rect(width as int, top as int, band as int, most as int, icon),
{
    let longest: u32 = if icon.0 >= icon.1 {
        icon.0
    } else {
        icon.1
    };
    let own: i64 = longest as i64 * PX;
    let fitted: i64 = if most < own {
        most
    } else {
        own
    };
    let side: i64 = if fitted > PX {
        fitted
    } else {
        PX
    };
    Rect { x: halved(width - side), y: top + halved(band - side), w: side, h: side }
}

/// Where the parts of a tile are drawn: icon above, title and detail below.
pub fn tile_parts(
    width: i64,
    height: i64,
    label: i64,
    detailed: bool,
    icon: Option<(u32, u32)>,
) -> (parts: TileParts)
    requires
        0 <= width <= REACH,
        0 <= height <= REACH,
        0 <= label <= REACH,
    ensures
        parts == tile_parts_of(width as int, height as int, label as int, detailed, icon),
{
    let area: i64 = if height > label {
        height - label
    } else {
        0
    };
    let pad: i64 = 8 * PX;
    let wanted: i64 = if detailed {
        part(label, 58)
    } else {
        label
    };
    let strip: i64 = if wanted > PX {
        wanted
    } else {
        PX
    };
    let (tall, wide) = (part(area, 60), part(width, 50));
    let most: i64 = if tall < wide {
        tall
    } else {
        wide
    };
    TileParts {
        area,
        icon: match icon {
            Some(size) => Some(place_icon(width, 0, area, most, size)),
            None => None,
        },
        title: Rect { x: pad, y: area, w: width - 2 * pad, h: strip },
        detail: Rect { x: pad, y: area + strip, w: width - 2 * pad, h: height - area - strip },
    }
}

/// Where the parts of an option square are drawn, and how large its letters
/// are.
#[derive(Debug, Clone, Copy, PartialEq, Eq, Structural)]
pub struct OptionParts {
    pub glyph_size: i64,
    pub label_size: i64,
    /// The big mark, or the icon in its place.
    pub glyph: Rect,
    pub icon: Option<Rect>,
    pub label: Rect,
}

/// The parts of an option square: a big mark, and what it does underneath.
pub open spec fn option_parts_of(
    width: int,
    height: int,
    icon: Option<(u32, u32)>,
) -> OptionParts {
    let split = hundredths(height, 62);
    let top = hundredths(height, 16);
    let band = split - top;
    OptionParts {
        glyph_size: num::between(hundredths(height, 30), 14 * PX, 48 * PX) as i64,
        label_size: num::between(hundredths(height, 13), 10 * PX, 20 * PX) as i64,
        glyph: rect(0, top, width, band),
        icon: match icon {
            Some(size) => Some(
                icon_rect(width, top, band, num::smaller(band, hundredths(width, 50)), size),
            ),
            None => None,
        },
        label: rect(0, split, width, height - split),
    }
}

fn kept(n: i64, low: i64, high: i64) -> (k: i64)
    requires
        low <= high,
    ensures
        k == num::between(n as int, low as int, high as int),
{
    if n < low {
        low
    } else if n > high {
        high
    } else {
        n
    }
}

/// Where the parts of an option square are drawn. Same footprint as an app
/// tile: an option has to be as easy to hit as the things it sits among.
pub fn option_parts(width: i64, height: i64, icon: Option<(u32, u32)>) -> (parts: OptionParts)
    requires
        0 <= width <= REACH,
        0 <= height <= REACH,
    ensures
        parts == option_parts_of(width as int, height as int, icon),
{
    let split = part(height, 62);
    let top = part(height, 16);
    assert(height * 16 <= height * 62);
    let band: i64 = split - top;
    let half = part(width, 50);
    assert(height * 62 / 100 <= height);
    let most: i64 = if band < half {
        band
    } else {
        half
    };
    OptionParts {
        glyph_size: kept(part(height, 30), 14 * PX, 48 * PX),
        label_size: kept(part(height, 13), 10 * PX, 20 * PX),
        glyph: Rect { x: 0, y: top, w: width, h: band },
        icon: match icon {
            Some(size) => Some(place_icon(width, top, band, most, size)),
            None => None,
        },
        label: Rect { x: 0, y: split, w: width, h: height - split },
    }
}

/// Where the parts of the filter strip are drawn, and how large its letters
/// are.
#[derive(Debug, Clone, Copy, PartialEq, Eq, Structural)]
pub struct SearchParts {
    pub query_size: i64,
    pub count_size: i64,
    pub glyph_size: i64,
    pub glyph: Rect,
    pub query: Rect,
    pub count: Rect,
}

/// The parts of the filter strip. Sized from its height, which the user sets,
/// so text never strands in a tall strip; the limits only catch an absurd one.
pub open spec fn search_parts_of(width: int, height: int) -> SearchParts {
    let glyph_w = num::smaller(
        num::between(hundredths(height, 78), 16 * PX, 104 * PX),
        width,
    );
    let count_w = num::between(hundredths(height, 260), 70 * PX, 340 * PX);
    let text_right = num::larger(width - count_w, glyph_w);
    SearchParts {
        query_size: num::between(hundredths(height, 46), 11 * PX, 64 * PX) as i64,
        count_size: num::between(hundredths(height, 30), 9 * PX, 36 * PX) as i64,
        glyph_size: num::between(hundredths(height, 38), 10 * PX, 48 * PX) as i64,
        glyph: rect(0, 0, glyph_w, height),
        query: rect(glyph_w, 0, text_right - glyph_w, height),
        count: rect(text_right, 0, width - text_right, height),
    }
}

/// Where the parts of the filter strip are drawn: the glyph, the query, and how
/// much of the grid survived it.
pub fn search_parts(width: i64, height: i64) -> (parts: SearchParts)
    requires
        0 <= width <= REACH,
        0 <= height <= REACH,
    ensures
        parts == search_parts_of(width as int, height as int),
{
    let wanted = kept(part(height, 78), 16 * PX, 104 * PX);
    let glyph_w: i64 = if wanted < width {
        wanted
    } else {
        width
    };
    let count_w = kept(part(height, 260), 70 * PX, 340 * PX);
    let text_right: i64 = if width - count_w > glyph_w {
        width - count_w
    } else {
        glyph_w
    };
    SearchParts {
        query_size: kept(part(height, 46), 11 * PX, 64 * PX),
        count_size: kept(part(height, 30), 9 * PX, 36 * PX),
        glyph_size: kept(part(height, 38), 10 * PX, 48 * PX),
        glyph: Rect { x: 0, y: 0, w: glyph_w, h: height },
        query: Rect { x: glyph_w, y: 0, w: text_right - glyph_w, h: height },
        count: Rect { x: text_right, y: 0, w: width - text_right, h: height },
    }
}

/// The three parts of the filter strip lie side by side and fill it.
pub proof fn the_filter_strip_is_filled(width: int, height: int)
    requires
        0 <= width <= REACH,
        0 <= height <= REACH,
    ensures
        ({
            let parts = search_parts_of(width, height);
            &&& parts.glyph.x == 0
            &&& parts.query.x == parts.glyph.x + parts.glyph.w
            &&& parts.count.x == parts.query.x + parts.query.w
            &&& parts.count.x + parts.count.w == width
            &&& parts.glyph.w >= 0 && parts.query.w >= 0 && parts.count.w >= 0
        }),
{
}

/// The size of an icon that fills a tile's image area without asking for more
/// than it will be shown at, in whole pixels. No dots to the inch is the usual
/// ninety-six.
pub open spec fn icon_pixels(tile_h: int, label_h: int, dpi: int) -> int {
    let dots = if dpi == 0 {
        96
    } else {
        dpi
    };
    let area = num::larger(tile_h - label_h, 16 * PX) * dots / 96;
    num::between(hundredths(area, 60) / PX as int, 32, 256)
}

/// Icon size in physical pixels.
pub fn icon_size(tile_h: i64, label_h: i64, dpi: u32) -> (size: u32)
    requires
        0 <= tile_h <= REACH,
        0 <= label_h <= REACH,
        dpi <= 0x1_0000,
    ensures
        size == icon_pixels(tile_h as int, label_h as int, dpi as int),
{
    let room: i64 = tile_h - label_h;
    let area: i64 = if room > 16 * PX {
        room
    } else {
        16 * PX
    };
    let dots: i64 = if dpi == 0 {
        96
    } else {
        dpi as i64
    };
    assert(0 <= area * dots <= 0x1000_0000 * 0x1_0000) by (nonlinear_arith)
        requires
            0 <= area <= 0x1000_0000,
            1 <= dots <= 0x1_0000,
    ;
    let scaled: i64 = area * dots / 96;
    let size: i64 = scaled * 60 / 100 / PX;
    kept(size, 32, 256) as u32
}

/// A colour as `0xRRGGBB`, its alpha dropped.
pub open spec fn rgb(r: u8, g: u8, b: u8) -> int {
    r * 0x1_0000 + g * 0x100 + b
}

/// The same colour as a plain `0xRRGGBB`. The desktop ring is a window with no
/// alpha, so the theme's alpha byte is dropped rather than blended.
pub fn rgb_of(r: u8, g: u8, b: u8) -> (color: u32)
    ensures
        color == rgb(r, g, b),
{
    r as u32 * 0x1_0000 + g as u32 * 0x100 + b as u32
}

/// A `0xRRGGBB` colour with its first and last bytes changed round, which is
/// how the desktop's own drawing wants it.
pub fn bgr_of(color: u32) -> (swapped: u32)
    ensures
        swapped == (color % 0x100) * 0x1_0000 + (color / 0x100 % 0x100) * 0x100 + (color
            / 0x1_0000 % 0x100),
{
    (color % 0x100) * 0x1_0000 + (color / 0x100 % 0x100) * 0x100 + color / 0x1_0000 % 0x100
}

/// A colour swapped for the desktop's drawing is the same three bytes the other
/// way round.
pub proof fn swapping_a_colour_keeps_its_bytes(r: u8, g: u8, b: u8)
    ensures
        ({
            let color = rgb(r, g, b);
            (color % 0x100) * 0x1_0000 + (color / 0x100 % 0x100) * 0x100 + (color / 0x1_0000
                % 0x100) == rgb(b, g, r)
        }),
{
    let color = rgb(r, g, b);
    let (first, rest) = (r as int, r * 0x100 + g);
    assert(color == rest * 0x100 + b);
    assert(color % 0x100 == b && color / 0x100 == rest);
    assert(rest % 0x100 == g);
    assert(color == first * 0x1_0000 + (g * 0x100 + b));
    assert(color / 0x1_0000 == first && first % 0x100 == first);
}

/// A rectangle of whole pixels on the desktop, by its edges.
#[derive(Debug, Clone, Copy, PartialEq, Eq, Structural)]
pub struct Edges {
    pub left: i32,
    pub top: i32,
    pub right: i32,
    pub bottom: i32,
}

/// How thick the ring round a window is, and how far outside it sits.
pub const THICKNESS: i32 = 4;

pub const MARGIN: i32 = 2;

/// The outside of the ring that frames a window, and nothing when it would have
/// no size.
pub open spec fn ring_round(frame: Edges) -> Option<(int, int, int, int)> {
    let out = MARGIN + THICKNESS;
    let (left, top) = (frame.left - out, frame.top - out);
    let (right, bottom) = (frame.right + out, frame.bottom + out);
    if right - left <= 0 || bottom - top <= 0 {
        None
    } else {
        Some((left, top, right, bottom))
    }
}

/// Where the ring that frames a window goes, so it frames rather than covers.
pub fn outer_ring(frame: Edges) -> (ring: Option<Edges>)
    requires
        -0x4000_0000 <= frame.left <= 0x4000_0000,
        -0x4000_0000 <= frame.top <= 0x4000_0000,
        -0x4000_0000 <= frame.right <= 0x4000_0000,
        -0x4000_0000 <= frame.bottom <= 0x4000_0000,
    ensures
        match (ring, ring_round(frame)) {
            (Some(got), Some(want)) => (
                got.left as int,
                got.top as int,
                got.right as int,
                got.bottom as int,
            ) == want,
            (None, None) => true,
            _ => false,
        },
{
    let out: i32 = MARGIN + THICKNESS;
    let ring = Edges {
        left: frame.left - out,
        top: frame.top - out,
        right: frame.right + out,
        bottom: frame.bottom + out,
    };
    if ring.right as i64 - ring.left as i64 <= 0 || ring.bottom as i64 - ring.top as i64 <= 0 {
        None
    } else {
        Some(ring)
    }
}

} // verus!
