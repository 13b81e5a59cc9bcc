# meow_engine

The layout, text, style, interaction, fetch and resource logic of a small
browser engine, written in Verus. Verus proves the contract of each function
in `src/`, with one exception: the small wrappers marked
`#[verifier::external_body]`, which call the outside crates (`encoding_rs`,
`skrifa`, `image`, `resvg`, `tiny-skia`, `http`, `base64`) or a few std
functions. Their contracts are believed, not proved, and each one's doc
comment says what it claims of the code it calls.

- `src/` holds the library, one module per area: box geometry and flex rows and
  columns (`layout`, `flex`, `layout_tree`), fonts, shaping and line breaking,
  fragments and painting, the style cascade and custom properties, charset
  sniffing and decoding, images, storage, session history, scripts and timers,
  the fetch and CORS decisions (`fetch`), the reference framebuffer and its
  PNG output (`framebuffer`), and the interaction state of a document view.
- `tests/` runs the library on concrete inputs.
- `app/` holds what stays outside the verified library: file I/O and font
  discovery on disk.
