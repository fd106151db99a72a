# hayate

The core of Hayate, an imperative, retained, GPU-native UI foundation, as a
verified library, with the web adapter around it.

- `src/` (verified with Verus): the Element Layer document model
  (`element::tree`: a generational arena of elements with parent links and
  ordered children, kept acyclic), its style vocabulary and routing
  (`element::style`), paint order by z-index (`element::scene_build`), the
  event queue and its flat wire format (`element::event`), the packed style
  format the page sends (`style_packet`), the interaction rules of the
  adapter (`input`: focus, hover, keys, IME, cursor blink), the decisions of
  HTML mode (`html_mode`), image decoding (`bitmap`), and the two Raw Layer
  scene graphs (`node`, `newdom`). The arena itself is `slotmap`'s, behind
  the trusted wrappers in `slots`.
- `app/` (plain Rust): the wasm-bindgen renderers, layout with Taffy, text
  shaping with Parley, drawing with Vello and wgpu, and fetching. These work
  in floating point or talk to the browser; they call into the library for
  everything else.
- `tests/`: the behaviour on concrete values.

Real-valued parameters (lengths, colours, opacity, positions) are carried
through the library as the bits of their `f32` values; only the layout and
paint stages in `app/` read them as numbers.
