# storehouse_core

The verified core of `storehouse`, the Bluebook toolchain: the Bluebook
parser and its intermediate representation, the projections rendered from
it (Terraform, Procfile, Wrangler, JSON Schema), and the decisions of the
command-line tools (the event-log follower, the persistence map, the boot
classifier, the cadence loops, the macrophage's edit and Bash-write
checks, the test runner's reports).

Every function in `src/` is proved by Verus against a contract stated over
mathematical models (`Seq<char>` for text, a `*Model` view for each IR
type). `app/` is the thin command line around it: reading files, tailing
the log, printing.

Layout:

- `src/text.rs` — the character-level toolkit every parser builds on.
- `src/ir.rs`, `src/parser.rs`, `src/blocks/`, `src/helpers.rs`,
  `src/pattern.rs` — the Bluebook language.
- `src/projection/` — artifacts rendered from a domain.
- `src/cli/`, `src/run*/` — the command-line tools' decisions.
- `tests/` — scenario tests run against the compiled library.
