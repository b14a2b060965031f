# arg_picker

A command-line argument picker whose parsing logic is verified with Verus.

- `src/text.rs` — character-level text operations (equality with or without ASCII case,
  prefixes, suffixes, occurrences, trimming) with their meaning over `Seq<char>`.
- `src/style.rs` — parser styles (UNIX, PowerShell, Windows) and naming conventions.
- `src/arg.rs` — argument descriptions, masked words, read results, the tag-phase context.
- `src/parselib/utils.rs` — building flags, telling flags from values, reading a single
  value, seeking words.
- `src/parselib/matcher.rs` — the named, positional and single-value matchers.
- `src/parselib/laws.rs` — what every tag and seek keeps.
- `src/pickable.rs` — `SinglePickable` and the readers of required and optional values.
- `src/duration.rs` — the unit suffix of a duration.
- `src/derive.rs` — what the `Pickable` derive decides: which structs and enums it accepts,
  the options of a field's `#[arg(..)]` attribute, each field's argument, the words the fields
  of a struct claim, and which unit variant a word names.
- `src/attr.rs` — the grammar of a field's `#[arg(..)]` attribute, read from its tokens.
- `app/lib.rs` — the process-wide style, and readers of `OsString` and `Duration`.
