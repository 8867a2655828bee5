# language-identifier

Layered identification of the natural language of short and multi-line
text (English, French, Vietnamese, Japanese, Korean and the Chinese
family), written in Verus.

## Layout

- `src/` — the verified library.
  - `layers/normalize.rs` — NFC, control characters, whitespace.
  - `layers/script.rs`, `layers/orthography.rs` — script counts and
    orthographic markers.
  - `layers/ngram.rs`, `layers/function_words.rs`, `layers/dictionary.rs`,
    `layers/morphology.rs`, `layers/context_window.rs` — the lexical,
    morphological and per-sentence signals.
  - `segments.rs` — per-character attribution grouped into segments.
  - `tokenize.rs` and `tokenize/` — words of each segment.
  - `aggregate.rs`, `pipeline.rs` — the decisions behind weighing the
    evidence, and every deterministic signal of one input.
  - `bcp47.rs`, `openlid.rs`, `layers/ml/` — language tags and the
    fastText label sets.
  - `lexicon.rs`, `tally.rs`, `wordset.rs`, `text.rs` — word lists,
    counters and character helpers.
- `tests/` — tests of the library.
- `app/` — the command-line program: floating-point weighing and
  calibration, the ML classifier hooks, reading the word lists from disk
  (`LANGUAGE_IDENTIFIER_DATA`, default `data/`), JSON output and a C ABI.
