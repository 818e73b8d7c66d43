# brz_json

A JSON deserializer over `brz_io` segmented input, verified with Verus.

- `src/` is the verified library. `JsonReader` holds the input (an owned
  `brz_io::Reader` or a `ReaderView`); `Cursor` walks it. Every step —
  whitespace, literals, number tokens, strings with their escapes and
  surrogate pairs, the nesting limit, and the steps through arrays, objects
  and externally tagged enums — states over the input bytes what it consumes,
  what it returns, and which error it reports at which byte offset. Offsets
  count from the start of the original reader: a reader made from a view
  takes that start from `JsonReader::from_view_at`; one made by
  `JsonReader::from_view` does not know it and reports errors without one.
  `grammar.rs` holds the rules as spec functions, `laws.rs` the properties of
  strings proved for every input.
- `app/` implements Serde's `Deserializer` on top of the cursor, hands number
  tokens to serde_json, and keeps `decode`, `end` and `position` on a
  `JsonReader` that owns its cursor in a `Cell`.
- `tests/` drive the cursor directly, as the Serde glue does.
