# susume

Progress bars for terminals, with their layout and formatting verified in
Verus.

- `src/` is the verified library: the template parser (`format::parser`),
  byte sizes and durations (`format::byte_size`, `format::duration`), bar
  templates and styles (`template`, `style`), the renderer that lays out one
  line pass by pass (`render`, with laws in `render_laws`), bar hierarchies,
  their line order and the changes that climb linked bars (`hierarchy`),
  progress state (`state`) and the line decisions of a terminal target
  (`target`). `external` holds the calls into
  the `console` crate.
- `app/` is the plain Rust around it: the shared, locked `ProgressBar` tree,
  the ticker thread, rate estimators (floating point), terminal output.
- `tests/` exercises the library.
