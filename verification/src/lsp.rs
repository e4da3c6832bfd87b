//! The language server's side: the program form it handles, its text screen,
//! and the preview it sends for a document.
pub mod ir;
pub mod screen;

use vstd::prelude::*;
use crate::ir::{ProgramModel, executed_statements};
use crate::parser::{ParseError, extension_text, parse_source, parses_to};
use crate::preview::render::{PreviewData, describes, preview_data};
use crate::preview::runtime::{Runtime, execute_model, initial_model, program_within_limits, within_limits};

verus! {

/// The preview notification for the screens of `runtime`.
pub fn build_preview(runtime: &Runtime) -> (d: PreviewData)
    ensures
        describes(d, runtime@.top_screen, runtime@.bottom_screen),
{
    preview_data(runtime)
}

/// Why no preview could be built for a document.
#[derive(Debug, Clone, Copy, PartialEq, Eq, Structural)]
pub enum PreviewError {
    /// The document could not be parsed.
    Parse(ParseError),
    /// The program draws an ellipse whose walk leaves the range of `isize`,
    /// where drawing it overflows.
    Overflow,
}

/// The preview of an opened or changed document: its source is parsed (the
/// language coming from the extension), the program runs on a fresh runtime,
/// and the screens are described.
pub fn preview_for_source(extension: Option<&str>, text: &str) -> (r: Result<PreviewData, PreviewError>)
    ensures
        match r {
            Ok(d) => exists|p: ProgramModel| {
                &&& #[trigger] parses_to(extension_text(extension), text@, Ok(p))
                &&& within_limits(executed_statements(p))
                &&& describes(d, execute_model(initial_model(), p).top_screen, execute_model(initial_model(), p).bottom_screen)
            },
            Err(PreviewError::Overflow) => exists|p: ProgramModel| {
                &&& #[trigger] parses_to(extension_text(extension), text@, Ok(p))
                &&& !within_limits(executed_statements(p))
            },
            Err(PreviewError::Parse(e)) => parses_to(extension_text(extension), text@, Err(e)),
        },
{
    let parsed = match parse_source(extension, text) {
        Ok(p) => p,
        Err(e) => {
            return Err(PreviewError::Parse(e));
        },
    };
    let program = crate::preview::ir::Program::from_parsed(&parsed);
    if !program_within_limits(&program) {
        return Err(PreviewError::Overflow);
    }
    let mut runtime = Runtime::new();
    runtime.execute(&program);
    Ok(build_preview(&runtime))
}

} // verus!
