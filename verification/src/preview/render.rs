use vstd::prelude::*;
use crate::preview::ir::Program;
use crate::preview::runtime::{Runtime, execute_model, initial_model, within_limits};
use crate::preview::screen::{Pixel, Rect, ScreenModel, VirtualScreen, line_texts};
use crate::ir::executed_statements;

verus! {

/// A pixel as the preview hands it to the webview.
#[derive(Debug, Clone, Copy, PartialEq, Eq, Structural)]
pub struct PixelData {
    pub x: usize,
    pub y: usize,
    pub color: u32,
}

/// A rectangle as the preview hands it to the webview.
#[derive(Debug, Clone, Copy, PartialEq, Eq, Structural)]
pub struct RectData {
    pub x: usize,
    pub y: usize,
    pub width: usize,
    pub height: usize,
    pub color: u32,
}

/// What the webview draws: the lines of text, pixels, rectangles and
/// background of each screen.
pub struct PreviewData {
    pub top_text: Vec<String>,
    pub bottom_text: Vec<String>,
    pub top_pixels: Vec<PixelData>,
    pub bottom_pixels: Vec<PixelData>,
    pub top_rectangles: Vec<RectData>,
    pub bottom_rectangles: Vec<RectData>,
    pub top_background: u32,
    pub bottom_background: u32,
}

/// The data of a recorded pixel.
pub open spec fn pixel_data(p: Pixel) -> PixelData {
    PixelData { x: p.x, y: p.y, color: p.color }
}

/// The data of a recorded rectangle.
pub open spec fn rect_data(r: Rect) -> RectData {
    RectData { x: r.x, y: r.y, width: r.width, height: r.height, color: r.color }
}

/// The texts of a list of strings.
pub open spec fn strings_view(v: Seq<String>) -> Seq<Seq<char>> {
    v.map_values(|s: String| s@)
}

/// `d` describes the screen `top` above `bottom`.
pub open spec fn describes(d: PreviewData, top: ScreenModel, bottom: ScreenModel) -> bool {
    &&& strings_view(d.top_text@) == top.text
    &&& strings_view(d.bottom_text@) == bottom.text
    &&& d.top_pixels@ == top.pixels.map_values(|p: Pixel| pixel_data(p))
    &&& d.bottom_pixels@ == bottom.pixels.map_values(|p: Pixel| pixel_data(p))
    &&& d.top_rectangles@ == top.rectangles.map_values(|r: Rect| rect_data(r))
    &&& d.bottom_rectangles@ == bottom.rectangles.map_values(|r: Rect| rect_data(r))
    &&& d.top_background == top.background_color
    &&& d.bottom_background == bottom.background_color
}

/// The texts of the lines of a screen.
fn screen_text(s: &VirtualScreen) -> (r: Vec<String>)
    ensures
        strings_view(r@) == s@.text,
{
    let mut r: Vec<String> = Vec::new();
    let mut i: usize = 0;
    while i < s.text.len()
        invariant
            i <= s.text@.len(),
            strings_view(r@) == line_texts(s.text@).take(i as int),
        decreases s.text@.len() - i,
    {
        let t = s.text[i].text.clone();
        assert(t@ == line_texts(s.text@)[i as int]);
        let ghost before = r@;
        r.push(t);
        assert(strings_view(r@) =~= strings_view(before).push(t@));
        assert(line_texts(s.text@).take(i + 1) =~= line_texts(s.text@).take(i as int).push(t@));
        i = i + 1;
        assert(strings_view(r@) =~= line_texts(s.text@).take(i as int));
    }
    assert(line_texts(s.text@).take(i as int) =~= line_texts(s.text@));
    r
}

/// The data of the pixels of a screen.
fn screen_pixels(s: &VirtualScreen) -> (r: Vec<PixelData>)
    ensures
        r@ == s@.pixels.map_values(|p: Pixel| pixel_data(p)),
{
    let mut r: Vec<PixelData> = Vec::new();
    let mut i: usize = 0;
    while i < s.pixels.len()
        invariant
            i <= s.pixels@.len(),
            r@ == s.pixels@.take(i as int).map_values(|p: Pixel| pixel_data(p)),
        decreases s.pixels@.len() - i,
    {
        let p = &s.pixels[i];
        r.push(PixelData { x: p.x, y: p.y, color: p.color });
        i = i + 1;
        assert(r@ =~= s.pixels@.take(i as int).map_values(|p: Pixel| pixel_data(p)));
    }
    assert(s.pixels@.take(i as int) =~= s.pixels@);
    r
}

/// The data of the rectangles of a screen.
fn screen_rectangles(s: &VirtualScreen) -> (r: Vec<RectData>)
    ensures
        r@ == s@.rectangles.map_values(|q: Rect| rect_data(q)),
{
    let mut r: Vec<RectData> = Vec::new();
    let mut i: usize = 0;
    while i < s.rectangles.len()
        invariant
            i <= s.rectangles@.len(),
            r@ == s.rectangles@.take(i as int).map_values(|q: Rect| rect_data(q)),
        decreases s.rectangles@.len() - i,
    {
        let q = &s.rectangles[i];
        r.push(RectData { x: q.x, y: q.y, width: q.width, height: q.height, color: q.color });
        i = i + 1;
        assert(r@ =~= s.rectangles@.take(i as int).map_values(|q: Rect| rect_data(q)));
    }
    assert(s.rectangles@.take(i as int) =~= s.rectangles@);
    r
}

/// What the webview draws for the screens of `runtime`.
pub fn preview_data(runtime: &Runtime) -> (d: PreviewData)
    ensures
        describes(d, runtime@.top_screen, runtime@.bottom_screen),
{
    let top = runtime.top_screen();
    let bottom = runtime.bottom_screen();
    PreviewData {
        top_text: screen_text(top),
        bottom_text: screen_text(bottom),
        top_pixels: screen_pixels(top),
        bottom_pixels: screen_pixels(bottom),
        top_rectangles: screen_rectangles(top),
        bottom_rectangles: screen_rectangles(bottom),
        top_background: top.background_color(),
        bottom_background: bottom.background_color(),
    }
}

/// Runs `program` on a fresh runtime and describes the resulting screens.
pub fn render_program(program: &Program) -> (d: PreviewData)
    requires
        within_limits(executed_statements(program@)),
    ensures
        describes(
            d,
            execute_model(initial_model(), program@).top_screen,
            execute_model(initial_model(), program@).bottom_screen,
        ),
{
    let mut runtime = Runtime::new();
    runtime.execute(program);
    preview_data(&runtime)
}

/// The greeting that shows the engine is loaded.
pub fn test() -> (r: String)
    ensures
        r@ == "HBView3 Rust WASM fonctionne"@,
{
    "HBView3 Rust WASM fonctionne".to_owned()
}

} // verus!
