use hbview3::preview::ir::{Expression, Function, Program, Statement};
use hbview3::preview::render::render_program;
use hbview3::preview::runtime::{program_within_limits, Runtime};
use hbview3::preview::screen::VirtualScreen;

fn num(v: i64) -> Expression {
    Expression::Integer { value: v }
}

fn text(s: &str) -> Expression {
    Expression::String { value: s.to_string() }
}

fn call(name: &str, arguments: Vec<Expression>) -> Statement {
    Statement::Call { name: name.to_string(), arguments }
}

fn main_program(body: Vec<Statement>) -> Program {
    Program { functions: vec![Function { name: "main".to_string(), body }] }
}

fn points(s: &VirtualScreen) -> Vec<(usize, usize)> {
    s.pixels().iter().map(|p| (p.x, p.y)).collect()
}

#[test]
fn greeting() {
    assert_eq!(hbview3::preview::render::test(), "HBView3 Rust WASM fonctionne");
}

#[test]
fn line_includes_both_ends() {
    let mut s = VirtualScreen::new(10, 10);
    s.draw_line(0, 0, 3, 0, 1);
    assert_eq!(points(&s), vec![(0, 0), (1, 0), (2, 0), (3, 0)]);
    let mut d = VirtualScreen::new(10, 10);
    d.draw_line(2, 2, 0, 0, 1);
    assert_eq!(points(&d), vec![(2, 2), (1, 1), (0, 0)]);
}

#[test]
fn line_off_screen_points_are_dropped() {
    let mut s = VirtualScreen::new(3, 3);
    s.draw_line(1, 1, 5, 1, 2);
    assert_eq!(points(&s), vec![(1, 1), (2, 1)]);
}

#[test]
fn circle_of_radius_zero_and_one() {
    let mut s = VirtualScreen::new(20, 20);
    s.draw_circle(10, 10, 0, 3);
    assert_eq!(points(&s), vec![(10, 10); 8]);
    let mut c = VirtualScreen::new(20, 20);
    c.draw_circle(5, 5, 1, 3);
    assert_eq!(
        points(&c),
        vec![(6, 5), (5, 6), (5, 6), (4, 5), (4, 5), (5, 4), (5, 4), (6, 5)]
    );
}

#[test]
fn circle_near_corner_drops_negative_points() {
    let mut s = VirtualScreen::new(20, 20);
    s.draw_circle(0, 0, 1, 3);
    assert_eq!(points(&s), vec![(1, 0), (0, 1), (0, 1), (1, 0)]);
}

#[test]
fn ellipse_walks_both_regions() {
    let mut s = VirtualScreen::new(20, 20);
    s.draw_ellipse(10, 10, 2, 1, 5);
    assert_eq!(
        points(&s),
        vec![
            (10, 11), (10, 9), (10, 9), (10, 9), (10, 11),
            (11, 11), (9, 9), (9, 9), (11, 9), (9, 11),
            (12, 10), (12, 10), (8, 10), (8, 10), (12, 10),
        ]
    );
    let mut z = VirtualScreen::new(20, 20);
    z.draw_ellipse(10, 10, 0, 3, 5);
    assert!(z.pixels().is_empty());
}

#[test]
fn triangle_is_three_lines() {
    let mut s = VirtualScreen::new(10, 10);
    s.draw_triangle(0, 0, 2, 0, 0, 2, 1);
    assert_eq!(
        points(&s),
        vec![(0, 0), (1, 0), (2, 0), (2, 0), (1, 1), (0, 2), (0, 2), (0, 1), (0, 0)]
    );
}

#[test]
fn rectangles_and_clear() {
    let mut s = VirtualScreen::new(10, 10);
    s.draw_rect(1, 2, 30, 40, 9);
    s.fill_rect(10, 0, 1, 1, 9);
    s.draw_pixel(3, 3, 4);
    s.write_text("x");
    assert_eq!(s.rectangles().len(), 1);
    assert_eq!((s.rectangles()[0].width, s.rectangles()[0].height), (30, 40));
    s.clear(0xABCDEF);
    assert_eq!(s.background_color(), 0xABCDEF);
    assert!(s.pixels().is_empty() && s.rectangles().is_empty() && s.text.is_empty());
}

#[test]
fn printf_formats_integers_and_variables() {
    let d = render_program(&main_program(vec![
        Statement::Variable { name: "score".to_string(), value: num(7) },
        call("printf", vec![text("Score: %d%%\nLives %d %s"), num(42), Expression::Identifier { name: "score".to_string() }]),
        Statement::Variable { name: "score".to_string(), value: num(8) },
        call("printf", vec![text("%d|%d|%"), Expression::Identifier { name: "score".to_string() }, Expression::Identifier { name: "missing".to_string() }]),
    ]));
    assert_eq!(d.top_text, vec!["Score: 42%", "Lives 7 %s", "8||%"]);
    assert!(d.bottom_text.is_empty());
}

#[test]
fn console_init_selects_bottom_screen() {
    let d = render_program(&main_program(vec![
        call("gfxInitDefault", vec![]),
        call("consoleInit", vec![Expression::Identifier { name: "GFX_BOTTOM".to_string() }]),
        call("printf", vec![text("below")]),
        call("hbvDrawPixel", vec![num(319), num(239), num(1)]),
        call("hbvDrawPixel", vec![num(320), num(0), num(1)]),
        call("hbvClear", vec![num(-1)]),
        call("hbvFillRect", vec![num(1), num(2), num(3), num(4), num(5)]),
    ]));
    assert!(d.top_text.is_empty());
    assert_eq!(d.bottom_text, vec!["below"]);
    assert_eq!(d.bottom_pixels.len(), 1);
    assert_eq!((d.bottom_pixels[0].x, d.bottom_pixels[0].y), (319, 239));
    assert!(d.top_pixels.is_empty());
    assert_eq!(d.bottom_background, 0);
    assert_eq!(d.bottom_rectangles.len(), 1);
    assert_eq!(
        (d.bottom_rectangles[0].x, d.bottom_rectangles[0].y, d.bottom_rectangles[0].width, d.bottom_rectangles[0].height, d.bottom_rectangles[0].color),
        (1, 2, 3, 4, 5)
    );
}

#[test]
fn clear_sets_background_and_draw_calls_record() {
    let d = render_program(&main_program(vec![
        call("hbvClear", vec![num(0x112233)]),
        call("hbvDrawLine", vec![num(0), num(0), num(2), num(0), num(7)]),
        call("hbvDrawCircle", vec![num(5), num(5), num(0), num(8)]),
        call("hbvDrawEllipse", vec![num(10), num(10), num(2), num(1), num(9)]),
        call("hbvDrawTriangle", vec![num(0), num(0), num(1), num(0), num(0), num(1), num(6)]),
        call("hbvDrawRect", vec![num(400), num(0), num(1), num(1), num(1)]),
        Statement::Return,
        call("printf", vec![text("never")]),
    ]));
    assert_eq!(d.top_background, 0x112233);
    assert_eq!(d.top_pixels.len(), 3 + 8 + 15 + 6);
    assert_eq!((d.top_pixels[0].x, d.top_pixels[0].y, d.top_pixels[0].color), (0, 0, 7));
    assert!(d.top_rectangles.is_empty());
    assert!(d.top_text.is_empty());
}

#[test]
fn negative_arguments_are_ignored() {
    let d = render_program(&main_program(vec![
        call("hbvDrawPixel", vec![num(-1), num(0), num(1)]),
        call("hbvDrawLine", vec![num(0), num(0), num(-2), num(0), num(1)]),
    ]));
    assert!(d.top_pixels.is_empty());
}

#[test]
fn limits_on_ellipse_radii() {
    let tall = main_program(vec![call("hbvDrawEllipse", vec![num(200), num(120), num(1), num(1048576), num(1)])]);
    assert!(program_within_limits(&tall));
    let flat_zero = main_program(vec![call("hbvDrawEllipse", vec![num(1), num(1), num(0), num(i64::MAX), num(1)])]);
    assert!(program_within_limits(&flat_zero));
    let round_huge = main_program(vec![call("hbvDrawEllipse", vec![num(1), num(1), num(70000), num(70000), num(1)])]);
    assert!(!program_within_limits(&round_huge));
    let square_overflows = main_program(vec![call("hbvDrawEllipse", vec![num(1), num(1), num(1 << 32), num(1), num(1)])]);
    assert!(!program_within_limits(&square_overflows));
    let no_main = Program { functions: vec![] };
    assert!(program_within_limits(&no_main));
}

#[test]
fn tall_ellipse_draws_its_on_screen_points() {
    let d = render_program(&main_program(vec![call("hbvDrawEllipse", vec![num(200), num(120), num(1), num(1048576), num(1)])]));
    assert!(!d.top_pixels.is_empty());
    assert!(d.top_pixels.iter().all(|p| p.x < 400 && p.y < 240));
}

#[test]
fn ellipse_with_zero_or_negative_radius_draws_nothing() {
    let mut s = VirtualScreen::new(20, 20);
    s.draw_ellipse(10, 10, 0, usize::MAX, 1);
    s.draw_ellipse(10, 10, usize::MAX >> 1, 0, 1);
    s.draw_ellipse(10, 10, 2, usize::MAX, 1);
    assert!(s.pixels().is_empty());
}

#[test]
fn fresh_runtime_screens() {
    let rt = Runtime::new();
    assert_eq!((rt.top_screen().width, rt.top_screen().height), (400, 240));
    assert_eq!((rt.bottom_screen().width, rt.bottom_screen().height), (320, 240));
}

#[test]
fn drawing_off_screen_records_nothing() {
    let d = render_program(&main_program(vec![
        call("hbvDrawPixel", vec![num(400), num(0), num(1)]),
        call("hbvDrawPixel", vec![num(0), num(240), num(1)]),
        call("hbvDrawLine", vec![num(398), num(0), num(402), num(0), num(1)]),
        call("hbvDrawCircle", vec![num(399), num(239), num(2), num(1)]),
    ]));
    assert!(d.top_pixels.iter().all(|p| p.x < 400 && p.y < 240));
    assert_eq!(d.top_pixels.iter().filter(|p| p.y == 0).count(), 2);
}

#[test]
fn program_without_main_previews_nothing() {
    let program = Program {
        functions: vec![Function {
            name: "update".to_string(),
            body: vec![call("printf", vec![text("hidden")])],
        }],
    };
    let d = render_program(&program);
    assert!(d.top_text.is_empty() && d.bottom_text.is_empty());
    assert!(d.top_pixels.is_empty() && d.top_rectangles.is_empty());
}
