# jj_cmd

Filters that shorten what the Jujutsu (`jj`) version control system prints,
verified with Verus.

- `src/text.rs`: text as a sequence of characters: trimming, lines, search,
  joining, decimal numbers, truncation, word counts, with their lemmas.
- `src/diff.rs`: compaction of a git-style unified diff, specified as a state
  machine over its lines.
- `src/email.rs`: the `regex` calls the log filter makes, as trusted items.
- `src/filters.rs`: the `jj status`, `jj diff`, `jj log` and `jj show`
  filters, and the laws they keep.
- `src/commands.rs`: the arguments `jj` is run with, the text shown and the
  exit code passed on.
- `app/lib.rs`: runs `jj` and prints, using the library's decisions.
