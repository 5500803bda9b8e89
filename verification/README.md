# painty

Diagnostics rendering, verified with Verus: a diagnostic is described as borrowed data, resolved
against the text it points into, and written out as HTML or measured for a fixed-width terminal.

## Layout

- `src/diagnostic/` — the description: spans, locations, labels, severities, result paths, and
  the order labels are drawn in.
- `src/source/` — resolution: byte offsets to lines and columns, the lines a region is drawn on,
  and a forward walk that resolves many spans in one pass. The laws tying these together are in
  `src/source/laws.rs`.
- `src/elide.rs` — which line stands for the lines left out between two excerpts.
- `src/escape.rs` — escaping caller text for HTML.
- `src/html/` — the HTML renderer; its whole output is stated as a specification. Which lines
  of a span reaching across many are shown is decided over the anchors of the span's input (the
  lines any position there begins or ends on), by the rule in `src/elide.rs`.
- `src/style/` — colours, styles, roles and the built-in theme.
- `src/terminal/` — colour detection from the environment; the cell arithmetic of one source
  line: grapheme clusters (by `unicode-segmentation`), their widths (by `unicode-width`), tab
  stops, and sanitization of control characters; the terminal renderer (`render.rs`), in the
  idiom of `rustc`, `codespan`, `ariadne` or `miette` as the caller picks, with its whole output
  stated as a specification and the escapes of its styles written by `anstyle`; and the connector
  columns of spans that reach across lines (`plan.rs`). The renderer draws one excerpt per
  position: markers under a span on one line, and a bracket down a one-column margin for a span
  reaching across lines. A row stops at 4096 cells, with `…` in place of what is left. Lines
  shared by several positions are drawn once per position, so two brackets never stand side by
  side in one excerpt.
- `src/tokora.rs` — an adapter from the plain values a `tokora` diagnostic hands out.
- `app/` — ordinary Rust around the library: reading the process environment, `Display`
  wrappers, and the conversions from `tokora`'s own types.

Calls into the Unicode crates sit behind small trusted wrappers in `src/terminal/width.rs`, and the
call into `anstyle` behind one in `src/style/mod.rs`; their results are named rather than
restated, and everything computed from them is proved.
