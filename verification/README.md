# viperpad

The verified core of ViperPad, a local viewer and editor for Markdown, HTML,
text, source code, office documents and PDFs.

- `src/` is the library, verified with Verus: file kinds and how they are
  inferred (`kind`), text extraction from RTF (`rtf`), legacy Word files and
  normalisation (`extract`), DOCX/ODT/PDF extraction and HTML previews
  (`office`), HTML escaping and rendering (`html`), header decoding
  (`header`), the in-memory file store (`store`), viewer pages (`page`),
  remote downloads (`remote`) and certificate pairs (`tls`).
- `app/main.rs` is the HTTPS server around it: routes, TLS, LibreOffice
  conversion and network downloads.
- `tests/` exercises the library with the real outside crates linked.

The server reads its interface files (`app.html`, `editor.bundle.js`,
`viperpad-splash.png`) from the directory named by `VIPERPAD_ASSET_DIR`
(default `assets`).
