use hbview3::input::{KEY_A, KEY_B};
use hbview3::ir::{Expression, Function, Program, Statement};
use hbview3::runtime::Runtime;
use hbview3::screen::BLACK;

fn call(name: &str, arguments: Vec<Expression>) -> Statement {
    Statement::Call { name: name.to_string(), arguments }
}

fn main_program(body: Vec<Statement>) -> Program {
    Program { functions: vec![Function { name: "main".to_string(), body }] }
}

fn texts(lines: &[hbview3::screen::TextLine]) -> Vec<String> {
    lines.iter().map(|l| l.text.clone()).collect()
}

#[test]
fn fresh_runtime_has_console_screens() {
    let rt = Runtime::new();
    assert_eq!((rt.top_screen().width, rt.top_screen().height), (400, 240));
    assert_eq!((rt.bottom_screen().width, rt.bottom_screen().height), (320, 240));
    assert_eq!(rt.top_screen().pixels.len(), 400 * 240);
    assert!(rt.top_screen().pixels.iter().all(|p| *p == BLACK));
    assert_eq!(rt.keys_held(), 0);
}

#[test]
fn printf_writes_to_current_screen() {
    let mut rt = Runtime::new();
    let names = rt.execute(&main_program(vec![
        call("gfxInitDefault", vec![]),
        call("printf", vec![Expression::String("top\n".to_string())]),
        call("consoleInit", vec![Expression::Identifier("GFX_BOTTOM".to_string())]),
        call("printf", vec![Expression::String("bottom %d".to_string()), Expression::Integer(3)]),
    ]));
    assert!(names.is_empty());
    assert_eq!(texts(&rt.top_screen().text), vec!["top", ""]);
    assert_eq!(texts(&rt.bottom_screen().text), vec!["bottom %d"]);
}

#[test]
fn execution_stops_at_return_and_reports_variables() {
    let mut rt = Runtime::new();
    let names = rt.execute(&main_program(vec![
        Statement::Variable { name: "x".to_string(), value: Expression::Integer(1) },
        call("printf", vec![Expression::String("a".to_string())]),
        Statement::Return,
        Statement::Variable { name: "y".to_string(), value: Expression::Integer(2) },
        call("printf", vec![Expression::String("b".to_string())]),
    ]));
    assert_eq!(names, vec!["x"]);
    assert_eq!(texts(&rt.top_screen().text), vec!["a"]);
}

#[test]
fn program_without_main_does_nothing() {
    let mut rt = Runtime::new();
    let program = Program {
        functions: vec![Function {
            name: "helper".to_string(),
            body: vec![call("printf", vec![Expression::String("x".to_string())])],
        }],
    };
    let names = rt.execute(&program);
    assert!(names.is_empty());
    assert!(rt.top_screen().text.is_empty());
}

#[test]
fn drawing_calls_fill_the_framebuffer() {
    let mut rt = Runtime::new();
    rt.execute(&main_program(vec![
        call("hbvClear", vec![Expression::Integer(0x112233FF)]),
        call("hbvDrawPixel", vec![Expression::Integer(-5), Expression::Integer(2), Expression::Integer(9)]),
        call("hbvDrawRect", vec![
            Expression::Integer(398),
            Expression::Integer(238),
            Expression::Integer(10),
            Expression::Integer(10),
            Expression::Integer(7),
        ]),
    ]));
    let top = rt.top_screen();
    assert_eq!(top.pixels[2 * 400], 9);
    assert_eq!(top.pixels[0], 0x112233FF);
    assert_eq!(top.pixels[238 * 400 + 398], 7);
    assert_eq!(top.pixels[239 * 400 + 399], 7);
    assert_eq!(top.pixels[237 * 400 + 399], 0x112233FF);
    assert!(rt.bottom_screen().pixels.iter().all(|p| *p == BLACK));
}

#[test]
fn calls_with_wrong_arguments_change_nothing() {
    let mut rt = Runtime::new();
    rt.execute(&main_program(vec![
        call("hbvClear", vec![Expression::String("red".to_string())]),
        call("hbvDrawPixel", vec![Expression::Integer(1), Expression::Integer(1)]),
        call("printf", vec![Expression::Integer(1)]),
        call("unknownCall", vec![]),
    ]));
    assert!(rt.top_screen().pixels.iter().all(|p| *p == BLACK));
    assert!(rt.top_screen().text.is_empty());
}

#[test]
fn keys_and_scan_input() {
    let mut rt = Runtime::new();
    rt.press_key(KEY_A);
    rt.press_key(KEY_B);
    rt.release_key(KEY_B);
    assert_eq!(rt.keys_held(), KEY_A);
    assert_eq!(rt.keys_down(), KEY_A | KEY_B);
    rt.execute(&main_program(vec![call("hidScanInput", vec![])]));
    assert_eq!(rt.keys_down(), 0);
    assert_eq!(rt.keys_held(), KEY_A);
    rt.press_key(KEY_B);
    rt.begin_frame();
    assert_eq!(rt.keys_down(), 0);
}
