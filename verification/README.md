# hcmd

The verified core of `hcmd`'s file explorers, written in Verus.

- `src/fd.rs`: the `fd` explorer: the list of entries under a base
  directory, expanding and collapsing directories in place, and the key
  handling (selection, create and rename with a character-indexed cursor, delete).
  A key press returns a `KeyOutcome` that says what outside work is left
  (read a directory, rename, remove); the caller does it and hands the
  result back.
- `src/fuzzy.rs`: the `fuzzy` explorer of `Fuzz` entries, with expanding,
  collapsing and creating entries.
- `src/tree.rs`: laws of the `fuzzy` list as a whole (descendants in one
  run after their directory, spacer depth, chains of parents, names).
- `src/paths.rs`: paths as text, with the `std::path` operations used.
- `src/text.rs`: UTF-8 byte positions and text helpers.
- `src/seqs.rs`: sequence facts shared by both explorers.
- `app/`: the terminal program (reading directories, renaming, removing,
  drawing with `ratatui`, reading keys with `crossterm`).

## Creating entries

- In `fd`, `a` asks for a name. Enter creates it in the selected directory
  (beside a selected file; in the base directory where nothing is selected):
  as a directory where the typed name ends with `/`, as an empty file
  otherwise. Enter with nothing typed only goes back to browsing.
- In `fuzzy`, `creation_target` decides as `Path::ends_with("/")` does, by
  components: only a path that names the root counts as a directory, so a
  trailing `/` on a name does not make one there.
