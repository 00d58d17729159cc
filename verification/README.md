# envlock

Encrypt, decrypt and inject `.env` files with [age](https://age-encryption.org/)
encryption, with the rules of the tool verified by Verus.

## Layout

- `src/` — the verified library. Its functions carry `requires` /
  `ensures` contracts that Verus proves; the properties that span several
  functions are stated and proved as public proof functions.
  - `text` — trimming, line splitting and the other string primitives, with
    their specifications.
  - `config` — where envlock keeps its files, and the recipients file format.
  - `gitignore` — the `.gitignore` entries envlock manages.
  - `crypto` — age keys and encryption, through the age crate.
  - `envfile`, `envmap` — reading `.env` content through dotenvy, and `.env`
    pairs as an ordered map.
  - `commands` — the decisions behind each command: among them `check` and
    `doctor`, the safety check and the full diagnosis decided from what was
    observed of a project, and `hook`, installing and removing the
    pre-commit hook.
  - `error` — the library's errors and their messages.
- `app/` — the command line: argument parsing, files, terminal and
  subprocesses. It reads what a command needs, asks the library what to do,
  and carries it out.
- `tests/` — tests that run the library with the real outside crates.

## What is trusted

The calls into `age`, `dotenvy` and `std::str::from_utf8` stand behind small
`#[verifier::external_body]` wrappers in `src/crypto.rs` and
`src/envfile.rs`; their contracts are assumed, and their doc comments say
what each claims of the outside code.
