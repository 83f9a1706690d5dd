# elicit_doc

Coverage and drift analysis for the elicitation workspace, written in Verus. The library
works out which types are `ElicitComplete`, which supertraits they lack, how well shadow crates
mirror their upstream crates, and what is to be done next. Its functions are verified against
their contracts. The exceptions are the few that call outside code, whose contracts are believed:
`docs::read_json` (`serde_json`), `report::csv_line` (`csv`), and in `text` those that call
`String::push`, `char::is_whitespace`, `char::is_uppercase` and `str::to_lowercase`.

## Layout

- `src/`: the verified library.
  - `text`, `order`, `table`, `distinct`, `count`, `date`: texts as sequences of characters, stable
    sorting, tables by name, lists without duplicates, counting and calendar dates.
  - `rustdoc`, `docs`, `extract`, `collect`, `inventory`: the documentation of a crate, reading
    it, and what is drawn from it.
  - `metadata`, `features`: packages, their dependencies and their features.
  - `harness`, `impl_coverage`, `shadow`, `edits`, `trenchcoat`, `gaps`: the analyses; `edits` says
    what the edit distance between names means.
  - `report`, `summary`: the CSV files and the Markdown summary.
  - `session`: what one run does, step by step.
  - `error`: what can go wrong.
- `tests/`: its tests.
- `app/`: the command line program: arguments, `cargo`, files, percentages.

The functions named `law_..` state what holds of the library as a whole: that rows come in order,
that features are closed under what they enable, that every upstream item is covered, drifted or
missing.
