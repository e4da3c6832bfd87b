# HBView3

A virtual Nintendo 3DS environment for previewing homebrew projects: C/C++
sources are parsed with tree-sitter, the `main` function is run on two virtual
screens (400 × 240 on top, 320 × 240 below), and the screens are shown in a
window, in the editor's webview, or sent by a language server.

The library under `src/` is verified with Verus:

- `input` — the console's buttons: held keys and keys pressed since the frame began.
- `text` — characters, lines, decimal formatting and `i64` parsing, C string literals.
- `syntax` — the tree-sitter parse of a source as a tree of `SyntaxNode`s.
- `parser` — the program a syntax tree describes (functions, calls, returns).
- `ir` — the program form the desktop viewer runs, and the models every form shares.
- `screen`, `runtime` — the desktop viewer's framebuffer screens and runtime.
- `preview` — the engine the webview loads: its program form, recording screens
  (pixels, lines, circles, ellipses, triangles, rectangles, text) and runtime.
- `lsp` — what the language server sends for a document.
- `project` — a project directory's sources, headers, assets and makefile.

`app/` holds what runs around the library: the desktop window (eframe), the
directory walk, the language server (tower-lsp on tokio) and the WebAssembly
entry points (wasm-bindgen, serde).
