//! The preview engine: programs handed over as data are run on two virtual
//! screens that record text, pixels and rectangles for a webview to draw.
pub mod ir;
pub mod runtime;
pub mod screen;
pub mod render;
