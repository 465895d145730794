# prompt_condensor

Prompt condensing for a chat client: white-space and punctuation clean-up,
phrase contractions, shorter synonyms and phrasings, with code and URLs kept
intact, and the token estimate that measures the saving. The library is written
in Verus. Its own functions carry contracts that Verus proves; the few small
functions that call into `std` or the `regex` crate (in `src/unicode.rs`,
`src/pattern.rs` and `text::push_char`) are trusted: their contracts state what
the outside function does and are not proved.

Layout:

- `src/text.rs` – character-level utilities (`trim`, word splitting, joining,
  `replace` with the semantics of `str::replace`, decimal rendering) over the
  `Seq<char>` view of strings.
- `src/layout.rs` – a text laid out as its own characters and numbered
  set-aside items, and what replacing does to it; the ground for the proof
  that restoring what was set aside gives code, inline code and URLs back.
- `src/unicode.rs` – lowercase mapping and character properties from std.
- `src/pattern.rs` – regular expressions through the `regex` crate.
- `src/metrics.rs` – the token estimate (a quarter token per UTF-8 byte in
  single precision, stated over the integers).
- `src/algorithms/` – the text preprocessor and the semantic compressor.
- `src/pipeline.rs`, `src/validation.rs` – the stages in priority order and
  the checks on an outcome.
- `src/commands.rs`, `src/usage.rs`, `src/agent.rs` – the decisions behind the
  `/condense` and `/usage` chat commands and the agent-protocol server.
- `app/` – ordinary Rust around the library: similarity scores, ratios and
  energy estimates (all `f32`), serde/clap/thiserror types, terminal output.
- `tests/` – tests run against the compiled library.
