use hbview3::ir::{Expression, Statement};
use hbview3::parser::{language_for_extension, parse_source, ParseError};
use hbview3::syntax::{syntax_tree, SourceLanguage};
use hbview3::text::IntErrorKind;

#[test]
fn languages_by_extension() {
    assert_eq!(language_for_extension(Some("c")), Some(SourceLanguage::C));
    assert_eq!(language_for_extension(Some("cpp")), Some(SourceLanguage::Cpp));
    assert_eq!(language_for_extension(Some("cc")), Some(SourceLanguage::Cpp));
    assert_eq!(language_for_extension(Some("cxx")), Some(SourceLanguage::Cpp));
    assert_eq!(language_for_extension(Some("h")), None);
    assert_eq!(language_for_extension(None), None);
}

#[test]
fn unsupported_extension_is_an_error() {
    assert!(matches!(parse_source(Some("py"), "x = 1"), Err(ParseError::UnsupportedSource)));
    assert!(matches!(parse_source(None, "int main() {}"), Err(ParseError::UnsupportedSource)));
}

#[test]
fn parses_calls_and_returns_of_c_functions() {
    let source = "#include <stdio.h>\n\nstatic void helper(void) { gfxExit(); }\n\nint main(int argc, char **argv) {\n    gfxInitDefault();\n    consoleInit(GFX_TOP, NULL);\n    printf(\"Hello\\n\");\n    hbvDrawPixel(10, 20, 4278190335);\n    int x = 5;\n    return 0;\n}\n";
    let program = parse_source(Some("c"), source).unwrap();
    assert_eq!(program.functions.len(), 2);
    assert_eq!(program.functions[0].name, "helper");
    assert_eq!(program.functions[1].name, "main");
    let body = &program.functions[1].body;
    assert_eq!(body.len(), 5);
    match &body[0] {
        Statement::Call { name, arguments } => {
            assert_eq!(name, "gfxInitDefault");
            assert!(arguments.is_empty());
        }
        _ => panic!("expected a call"),
    }
    match &body[1] {
        Statement::Call { name, arguments } => {
            assert_eq!(name, "consoleInit");
            assert_eq!(arguments.len(), 1);
            assert!(matches!(&arguments[0], Expression::Identifier(n) if n == "GFX_TOP"));
        }
        _ => panic!("expected a call"),
    }
    match &body[2] {
        Statement::Call { name, arguments } => {
            assert_eq!(name, "printf");
            assert!(matches!(&arguments[0], Expression::String(t) if t == "Hello\n"));
        }
        _ => panic!("expected a call"),
    }
    match &body[3] {
        Statement::Call { arguments, .. } => {
            assert!(matches!(arguments[0], Expression::Integer(10)));
            assert!(matches!(arguments[1], Expression::Integer(20)));
            assert!(matches!(arguments[2], Expression::Integer(4278190335)));
        }
        _ => panic!("expected a call"),
    }
    assert!(matches!(body[4], Statement::Return));
}

#[test]
fn cpp_sources_parse_too() {
    let program = parse_source(Some("cpp"), "int main() { printf(\"C++\"); return 0; }").unwrap();
    assert_eq!(program.functions.len(), 1);
    assert_eq!(program.functions[0].body.len(), 2);
}

#[test]
fn hexadecimal_literal_is_rejected() {
    let r = parse_source(Some("c"), "int main() { hbvClear(0xFF0000FF); }");
    assert!(matches!(r, Err(ParseError::InvalidInteger(IntErrorKind::InvalidDigit))));
}

#[test]
fn source_without_functions_gives_empty_program() {
    let program = parse_source(Some("c"), "int x = 3;\n").unwrap();
    assert!(program.functions.is_empty());
}

#[test]
fn syntax_tree_of_a_small_function() {
    let source = "int main() { return 0; }";
    let t = match syntax_tree(source, SourceLanguage::C) {
        Ok(t) => t,
        Err(_) => panic!("the grammar parses C"),
    };
    assert_eq!(t.kind, "translation_unit");
    assert_eq!((t.start, t.end), (0, source.len()));
    let f = &t.children[0];
    assert_eq!(f.kind, "function_definition");
    assert!(f.named);
    let fields: Vec<Option<&str>> = f.children.iter().map(|c| c.field.as_deref()).collect();
    assert_eq!(fields, vec![Some("type"), Some("declarator"), Some("body")]);
    let body = &f.children[2];
    assert_eq!(body.children.first().map(|c| c.kind.as_str()), Some("{"));
    assert!(!body.children[0].named);
}
