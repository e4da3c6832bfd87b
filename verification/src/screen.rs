use vstd::prelude::*;
use crate::text::{split_lines, split_on, string_of};

verus! {

/// The width of the top screen.
pub const TOP_WIDTH: usize = 400;
/// The height of the top screen.
pub const TOP_HEIGHT: usize = 240;
/// The width of the bottom screen.
pub const BOTTOM_WIDTH: usize = 320;
/// The height of the bottom screen.
pub const BOTTOM_HEIGHT: usize = 240;

/// The color a cleared framebuffer holds: opaque black, as `0xRRGGBBAA`.
pub const BLACK: u32 = 0x000000FF;

/// A line of text on a screen, with the position of its top left corner.
pub struct TextLine {
    pub text: String,
    pub x: u32,
    pub y: u128,
}

/// A virtual screen with a framebuffer of `0xRRGGBBAA` pixels, row after row,
/// and lines of console text.
pub struct VirtualScreen {
    pub width: usize,
    pub height: usize,
    pub pixels: Vec<u32>,
    pub text: Vec<TextLine>,
}

/// The horizontal position of every text line.
pub const TEXT_X: u32 = 8;

/// Every line sits at the position its index gives it: 8 units from the left,
/// 8 from the top plus 16 per line above it.
pub open spec fn lines_placed(lines: Seq<TextLine>) -> bool {
    forall|i: int| 0 <= i < lines.len() ==> #[trigger] lines[i].x == TEXT_X && lines[i].y == 8 + 16 * i
}

/// The texts of a sequence of lines.
pub open spec fn line_texts(lines: Seq<TextLine>) -> Seq<Seq<char>> {
    lines.map_values(|l: TextLine| l.text@)
}

/// The position in the framebuffer of the pixel at column `x`, row `y`.
pub open spec fn index_of(width: int, x: int, y: int) -> int {
    y * width + x
}

/// Distinct pixels of a `width` wide framebuffer have distinct positions, and
/// every position lies before `width * height`.
pub proof fn lemma_index_of(width: int, height: int, x1: int, y1: int, x2: int, y2: int)
    requires
        0 <= x1 < width,
        0 <= x2 < width,
        0 <= y1 < height,
        0 <= y2 < height,
    ensures
        0 <= index_of(width, x1, y1) < width * height,
        index_of(width, x1, y1) == index_of(width, x2, y2) ==> x1 == x2 && y1 == y2,
{
    assert(0 <= y1 * width + x1 < width * height) by (nonlinear_arith)
        requires
            0 <= x1 < width,
            0 <= y1 < height,
    {
        assert(y1 * width <= (height - 1) * width);
    }
    if y1 < y2 {
        assert(y1 * width + x1 < y2 * width + x2) by (nonlinear_arith)
            requires
                0 <= x1 < width,
                0 <= x2,
                y1 < y2,
        {
            assert((y1 + 1) * width <= y2 * width);
        }
    } else if y2 < y1 {
        assert(y2 * width + x2 < y1 * width + x1) by (nonlinear_arith)
            requires
                0 <= x2 < width,
                0 <= x1,
                y2 < y1,
        {
            assert((y2 + 1) * width <= y1 * width);
        }
    }
}

/// The abstract state of a screen: its size, its framebuffer and its lines
/// of text.
pub struct ScreenState {
    pub width: usize,
    pub height: usize,
    pub pixels: Seq<u32>,
    pub text: Seq<Seq<char>>,
}

impl View for VirtualScreen {
    type V = ScreenState;

    open spec fn view(&self) -> ScreenState {
        ScreenState {
            width: self.width,
            height: self.height,
            pixels: self.pixels@,
            text: line_texts(self.text@),
        }
    }
}

/// The framebuffer `pixels` of a `width` wide screen with the pixel at
/// (`x`, `y`) set to `color` when it lies on the screen.
pub open spec fn pixel_set(pixels: Seq<u32>, width: usize, height: usize, x: int, y: int, color: u32) -> Seq<u32> {
    if 0 <= x < width && 0 <= y < height {
        pixels.update(index_of(width as int, x, y), color)
    } else {
        pixels
    }
}

/// The framebuffer `pixels` of a `width` wide screen with the rectangle of
/// corner (`x`, `y`) and size `w` by `h` filled with `color`.
pub open spec fn rect_filled(pixels: Seq<u32>, width: usize, x: int, y: int, w: int, h: int, color: u32) -> Seq<u32> {
    Seq::new(
        pixels.len(),
        |i: int|
            if x <= i % (width as int) < x + w && y <= i / (width as int) < y + h {
                color
            } else {
                pixels[i]
            },
    )
}

/// A position in a framebuffer of `width * height` pixels is the pixel at
/// column `i % width`, row `i / width`.
pub proof fn lemma_position(i: int, width: int, height: int)
    requires
        0 <= i < width * height,
        0 <= width,
    ensures
        width > 0,
        0 <= i % width < width,
        0 <= i / width < height,
        index_of(width, i % width, i / width) == i,
{
    if width <= 0 {
        assert(width * height <= 0) by (nonlinear_arith)
            requires
                width == 0,
                0 <= i < width * height,
        ;
    }
    vstd::arithmetic::div_mod::lemma_fundamental_div_mod(i, width);
    vstd::arithmetic::div_mod::lemma_mod_bound(i, width);
    assert(0 <= i / width < height) by (nonlinear_arith)
        requires
            i == width * (i / width) + (i % width),
            0 <= i % width < width,
            0 <= i < width * height,
            width > 0,
    ;
    assert(index_of(width, i % width, i / width) == (i / width) * width + i % width);
    assert((i / width) * width == width * (i / width)) by (nonlinear_arith);
}

impl VirtualScreen {
    /// The framebuffer has one pixel per column and row, and every text line
    /// sits at the position its index gives it.
    pub open spec fn wf(&self) -> bool {
        &&& self.pixels@.len() == self.width * self.height
        &&& lines_placed(self.text@)
    }

    /// The pixel at column `x`, row `y`.
    pub open spec fn pixel(&self, x: int, y: int) -> u32 {
        self.pixels@[index_of(self.width as int, x, y)]
    }

    /// A screen of the given size, all pixels opaque black, with no text.
    pub fn new(width: usize, height: usize) -> (s: Self)
        requires
            width * height <= usize::MAX,
        ensures
            s.wf(),
            s.width == width,
            s.height == height,
            forall|i: int| 0 <= i < s.pixels@.len() ==> s.pixels@[i] == BLACK,
            s.text@.len() == 0,
    {
        let n: usize = width * height;
        VirtualScreen { width, height, pixels: vec![BLACK; n], text: Vec::new() }
    }

    /// Sets the pixel at column `x`, row `y` when it lies on the screen.
    pub fn set_pixel(&mut self, x: usize, y: usize, color: u32)
        requires
            old(self).wf(),
        ensures
            final(self).wf(),
            final(self).width == old(self).width,
            final(self).height == old(self).height,
            final(self).text@ == old(self).text@,
            final(self).pixels@ == if x < old(self).width && y < old(self).height {
                old(self).pixels@.update(index_of(old(self).width as int, x as int, y as int), color)
            } else {
                old(self).pixels@
            },
            final(self)@ == (ScreenState {
                pixels: pixel_set(old(self).pixels@, old(self).width, old(self).height, x as int, y as int, color),
                ..old(self)@
            }),
    {
        if x >= self.width || y >= self.height {
            return;
        }
        proof {
            lemma_index_of(self.width as int, self.height as int, x as int, y as int, x as int, y as int);
        }
        let n: usize = self.pixels.len();
        assert(y * self.width <= y * self.width + x < n);
        let i: usize = y * self.width + x;
        self.pixels.set(i, color);
    }

    /// Fills the part of the rectangle with corner (`x`, `y`) and the given
    /// size that lies on the screen.
    pub fn draw_rect(&mut self, x: usize, y: usize, width: usize, height: usize, color: u32)
        requires
            old(self).wf(),
            x + width <= usize::MAX,
            y + height <= usize::MAX,
        ensures
            final(self).wf(),
            final(self).width == old(self).width,
            final(self).height == old(self).height,
            final(self).text@ == old(self).text@,
            forall|qx: int, qy: int|
                0 <= qx < old(self).width && 0 <= qy < old(self).height ==> #[trigger] final(self).pixel(qx, qy)
                    == if x <= qx < x + width && y <= qy < y + height {
                    color
                } else {
                    old(self).pixel(qx, qy)
                },
            final(self).pixels@ == rect_filled(old(self).pixels@, old(self).width, x as int, y as int, width as int, height as int, color),
    {
        let w = self.width;
        let h = self.height;
        let max_x: usize = if x + width < w { x + width } else { w };
        let max_y: usize = if y + height < h { y + height } else { h };
        let mut py: usize = y;
        while py < max_y
            invariant
                self.wf(),
                self.width == w,
                self.height == h,
                w == old(self).width,
                h == old(self).height,
                self.text@ == old(self).text@,
                max_x <= w,
                max_y <= h,
                max_x == (if x + width < w { x + width } else { w as int }),
                max_y == (if y + height < h { y + height } else { h as int }),
                y <= py,
                py <= max_y || py == y,
                forall|qx: int, qy: int|
                    0 <= qx < w && 0 <= qy < h ==> #[trigger] self.pixel(qx, qy) == if x <= qx < max_x && y
                        <= qy < py {
                        color
                    } else {
                        old(self).pixel(qx, qy)
                    },
            decreases max_y - py,
        {
            let mut px: usize = x;
            while px < max_x
                invariant
                    self.wf(),
                    self.width == w,
                    self.height == h,
                    w == old(self).width,
                    h == old(self).height,
                    self.text@ == old(self).text@,
                    max_x <= w,
                    py < max_y <= h,
                    y <= py,
                    x <= px,
                    px <= max_x || px == x,
                    forall|qx: int, qy: int|
                        0 <= qx < w && 0 <= qy < h ==> #[trigger] self.pixel(qx, qy) == if (x <= qx
                            < max_x && y <= qy < py) || (qy == py && x <= qx < px) {
                            color
                        } else {
                            old(self).pixel(qx, qy)
                        },
                decreases max_x - px,
            {
                proof {
                    lemma_index_of(w as int, h as int, px as int, py as int, px as int, py as int);
                }
                let n: usize = self.pixels.len();
                assert(py * w <= py * w + px < n);
                let i: usize = py * w + px;
                let ghost s0 = *self;
                self.pixels.set(i, color);
                assert forall|qx: int, qy: int| 0 <= qx < w && 0 <= qy < h implies #[trigger] self.pixel(
                    qx,
                    qy,
                ) == if (x <= qx < max_x && y <= qy < py) || (qy == py && x <= qx < px + 1) {
                    color
                } else {
                    old(self).pixel(qx, qy)
                } by {
                    lemma_index_of(w as int, h as int, qx, qy, px as int, py as int);
                    assert(s0.pixel(qx, qy) == if (x <= qx < max_x && y <= qy < py) || (qy == py && x <= qx < px) {
                        color
                    } else {
                        old(self).pixel(qx, qy)
                    });
                }
                px = px + 1;
            }
            py = py + 1;
        }
        assert forall|i: int| 0 <= i < self.pixels@.len() implies self.pixels@[i] == rect_filled(
            old(self).pixels@,
            w,
            x as int,
            y as int,
            width as int,
            height as int,
            color,
        )[i] by {
            lemma_position(i, w as int, h as int);
            assert(self.pixel(i % (w as int), i / (w as int)) == self.pixels@[i]);
        }
        assert(self.pixels@ =~= rect_filled(old(self).pixels@, w, x as int, y as int, width as int, height as int, color));
    }

    /// Forgets all text and sets every pixel to opaque black.
    pub fn clear(&mut self)
        requires
            old(self).wf(),
        ensures
            final(self).wf(),
            final(self).width == old(self).width,
            final(self).height == old(self).height,
            final(self).text@.len() == 0,
            final(self).pixels@.len() == old(self).pixels@.len(),
            forall|i: int| 0 <= i < final(self).pixels@.len() ==> final(self).pixels@[i] == BLACK,
    {
        self.clear_color(BLACK);
    }

    /// Forgets all text and sets every pixel to `color`.
    pub fn clear_color(&mut self, color: u32)
        requires
            old(self).wf(),
        ensures
            final(self).wf(),
            final(self).width == old(self).width,
            final(self).height == old(self).height,
            final(self).text@.len() == 0,
            final(self).pixels@.len() == old(self).pixels@.len(),
            forall|i: int| 0 <= i < final(self).pixels@.len() ==> final(self).pixels@[i] == color,
            final(self)@ == (ScreenState {
                pixels: Seq::new(old(self).pixels@.len(), |i: int| color),
                text: Seq::empty(),
                ..old(self)@
            }),
    {
        self.text.clear();
        let n = self.pixels.len();
        let mut i: usize = 0;
        while i < n
            invariant
                n == self.pixels@.len(),
                n == old(self).pixels@.len(),
                i <= n,
                self.width == old(self).width,
                self.height == old(self).height,
                self.text@.len() == 0,
                forall|j: int| 0 <= j < i ==> self.pixels@[j] == color,
            decreases n - i,
        {
            self.pixels.set(i, color);
            i = i + 1;
        }
        assert(self.pixels@ =~= Seq::new(old(self).pixels@.len(), |i: int| color));
        assert(line_texts(self.text@) =~= Seq::<Seq<char>>::empty());
    }

    /// Writes `text` below what is already written, one line per piece
    /// between newline characters.
    pub fn write_text(&mut self, text: &str)
        requires
            old(self).wf(),
        ensures
            final(self).wf(),
            final(self).width == old(self).width,
            final(self).height == old(self).height,
            final(self).pixels@ == old(self).pixels@,
            line_texts(final(self).text@) == line_texts(old(self).text@) + split_on(text@, '\n'),
            final(self)@ == (ScreenState { text: old(self)@.text + split_on(text@, '\n'), ..old(self)@ }),
    {
        let lines = split_lines(text);
        let ghost start = self.text@;
        let mut i: usize = 0;
        while i < lines.len()
            invariant
                self.wf(),
                i <= lines@.len(),
                lines@.len() == split_on(text@, '\n').len(),
                forall|j: int| 0 <= j < lines@.len() ==> #[trigger] lines@[j]@ == split_on(text@, '\n')[j],
                line_texts(self.text@) == line_texts(start) + split_on(text@, '\n').take(i as int),
                self.width == old(self).width,
                self.height == old(self).height,
                self.pixels@ == old(self).pixels@,
                start == old(self).text@,
            decreases lines@.len() - i,
        {
            let y: u128 = 8 + 16 * (self.text.len() as u128);
            let line = TextLine { text: string_of(lines[i].as_slice()), x: TEXT_X, y };
            let ghost before = self.text@;
            self.text.push(line);
            i = i + 1;
            assert(line_texts(self.text@) =~= line_texts(before).push(split_on(text@, '\n')[i - 1]));
            assert(split_on(text@, '\n').take(i as int) =~= split_on(text@, '\n').take(i - 1).push(split_on(text@, '\n')[i - 1]));
        }
        assert(split_on(text@, '\n').take(i as int) =~= split_on(text@, '\n'));
    }

    /// The red, green, blue and alpha channels of each pixel, row after row
    /// (what the window draws).
    pub fn rgba_pixels(&self) -> (r: Vec<(u8, u8, u8, u8)>)
        ensures
            r@.len() == self.pixels@.len(),
            forall|i: int| 0 <= i < r@.len() ==> #[trigger] r@[i] == rgba(self.pixels@[i]),
    {
        let mut r: Vec<(u8, u8, u8, u8)> = Vec::new();
        let mut i: usize = 0;
        while i < self.pixels.len()
            invariant
                i <= self.pixels@.len(),
                r@.len() == i,
                forall|j: int| 0 <= j < i ==> #[trigger] r@[j] == rgba(self.pixels@[j]),
            decreases self.pixels@.len() - i,
        {
            r.push(rgba_of(self.pixels[i]));
            i = i + 1;
        }
        r
    }
}

/// The channels of a `0xRRGGBBAA` pixel.
pub open spec fn rgba(p: u32) -> (u8, u8, u8, u8) {
    (((p >> 24u32) & 0xFF) as u8, ((p >> 16u32) & 0xFF) as u8, ((p >> 8u32) & 0xFF) as u8, (p & 0xFF) as u8)
}

/// The channels of a `0xRRGGBBAA` pixel.
pub fn rgba_of(p: u32) -> (r: (u8, u8, u8, u8))
    ensures
        r == rgba(p),
{
    (((p >> 24u32) & 0xFF) as u8, ((p >> 16u32) & 0xFF) as u8, ((p >> 8u32) & 0xFF) as u8, (p & 0xFF) as u8)
}

} // verus!
