use hbview3::lsp::screen::VirtualScreen;
use hbview3::lsp::{build_preview, preview_for_source, PreviewError};
use hbview3::parser::ParseError;
use hbview3::preview::runtime::Runtime;

#[test]
fn preview_of_a_c_document() {
    let source = "int main() {\n  consoleInit(GFX_TOP, NULL);\n  printf(\"Hello\\nworld\");\n  hbvDrawPixel(1, 2, 3);\n  return 0;\n}\n";
    let d = match preview_for_source(Some("c"), source) {
        Ok(d) => d,
        Err(_) => panic!("the document should preview"),
    };
    assert_eq!(d.top_text, vec!["Hello", "world"]);
    assert_eq!(d.top_pixels.len(), 1);
    assert_eq!((d.top_pixels[0].x, d.top_pixels[0].y, d.top_pixels[0].color), (1, 2, 3));
    assert!(d.bottom_text.is_empty());
}

#[test]
fn preview_of_unsupported_document() {
    assert!(matches!(preview_for_source(Some("rs"), "fn main() {}"), Err(PreviewError::Parse(ParseError::UnsupportedSource))));
}

#[test]
fn preview_refuses_huge_ellipse() {
    let source = "int main() { hbvDrawEllipse(1, 1, 70000, 70000, 1); }";
    assert!(matches!(preview_for_source(Some("c"), source), Err(PreviewError::Overflow)));
}

#[test]
fn preview_of_tall_ellipse() {
    let source = "int main() { hbvDrawEllipse(200, 120, 1, 1048576, 7); }";
    let d = match preview_for_source(Some("c"), source) {
        Ok(d) => d,
        Err(_) => panic!("the ellipse stays within isize arithmetic"),
    };
    assert!(d.top_pixels.iter().all(|p| p.color == 7));
}

#[test]
fn preview_of_bad_number() {
    let source = "int main() { hbvClear(99999999999999999999); }";
    assert!(matches!(
        preview_for_source(Some("cpp"), source),
        Err(PreviewError::Parse(ParseError::InvalidInteger(_)))
    ));
}

#[test]
fn build_preview_of_fresh_runtime_is_empty() {
    let d = build_preview(&Runtime::new());
    assert!(d.top_text.is_empty() && d.bottom_text.is_empty());
    assert!(d.top_pixels.is_empty() && d.top_rectangles.is_empty());
    assert_eq!((d.top_background, d.bottom_background), (0, 0));
}

#[test]
fn text_screen_writes_lines() {
    let mut s = VirtualScreen::new(400, 240);
    s.write_text("a\nb");
    assert_eq!(s.text.len(), 2);
    assert_eq!(s.text[1].text, "b");
    assert_eq!((s.width, s.height), (400, 240));
}
