# syskits

A set of Unix command-line tools (`fold`, `groups`, `hashsum` and the `*sum`
tools, `head`, `hostname` and its aliases, `id`, `install`, `kill`,
`logname`, `ls`) whose logic is written in Verus and proved against its
contracts.

## Layout

- `src/` — the verified library. Each tool has a module holding what it
  decides and computes: option handling, the text it writes, and the
  algorithms (folding, cutting heads and tails of inputs, checksum lines,
  signal tables, long listings, sorting, path planning); `version_sort.rs`
  holds the version order of `ls -v`. `text.rs` and `unicode.rs` hold what
  the modules share. Calls into outside crates (digests, hexadecimal, glob
  patterns, display widths, signals, the terminal grid) sit behind
  small trusted wrappers whose contracts name or state their results.
- `tests/` — tests of the library, run against the real outside crates.
- `app/` — the multi-call program: command lines, files, the system's
  user and group databases, signals and network names; it hands the
  library plain values and writes what the library returns.

## Laws

Besides the contract of each function, the library proves properties that
span functions, as public proof functions named `law_*`: for instance that
folding only inserts line breaks, that a checksum line written by the tool
reads back (and verifies) in check mode, that every signal name and number
reads back as that signal, that sorting a listing keeps every entry, that
reading the first lines piece by piece agrees with reading them whole, that
the version order is antisymmetric and transitive (so the listing sorts by
it are well defined), that `fold -c` breaks after every `width` characters,
and that no line of `fold -b` is wider than its width.
