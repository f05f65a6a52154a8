# ffrs

`ff` translates plain English media commands ("convert video.mp4 to
video.avi") into ffmpeg invocations. This crate is its library, written in
Verus: each public function carries a contract and is proved against it.

Layout:

- `src/grammar/` — the tokenizer of the command language. The lexical
  grammar is stated as spec functions (`lex`, `token_at`, ...) over the
  characters of the input; `Tokenizer::tokenize` is proved to produce exactly
  `lex` of its input, for any input; a character that starts no token is
  passed over. Whitespace is decided here; the other Unicode character
  classes and lowercasing come from std, with their ASCII part stated. A
  number token holds its decimal text.
- `src/intent/` — the intent of a command: operation, input and output
  paths, and the named parameters (a map with distinct names).
- `src/command_builder/` — the ffmpeg arguments for each operation, and the
  quoted display line.
- `src/executor/` — the runner's decisions around starting ffmpeg.
- `src/errors.rs` — errors and their exit codes.
- `src/frontend.rs` — decisions of the command-line program: interactive
  input lines, guidance after errors, input file checks.
- `app/main.rs` — the command-line program: argument handling, files,
  processes and printing.
- `tests/` — tests of the library.

The grammar that turns tokens into an intent is not part of this crate; the
program reports every command as one it cannot understand until it is.
