# ufo

The library behind the UFO rover tools, written in Verus.

- `src/json.rs` — the JSON document model; text is parsed by `serde_json`.
- `src/text.rs` — character classes, trimming, line splitting, decimal text.
- `src/terminal.rs` — removal of terminal control sequences, with its laws.
- `src/auth.rs` — the OpenCode credential store, kept in ascending provider-id
  order: schema, summaries, redacted debug text, where credentials are looked
  for and which source wins.
- `src/beads.rs` — the beads rover's credential store and which one it uses,
  and what it runs for an issue.
- `src/mailbox.rs` — the JSONL mailbox: its record lines, the times written
  in records, claiming and finishing operations.
- `app/` — the `ufo` command line program (`ufo beads ...` runs the beads
  rover): files, locks, processes and the environment, and the serde forms
  of the typed records (mailbox operations, rovers, beads credentials, `bd`
  issues). Those are parsed with serde's derived visitors, which refuse a
  repeated field; the times inside them are read by the library.
- `tests/` — tests of the library on concrete values.

The stores are vectors: vstd gives a std map keyed by `String` no
specification that the contracts could use. The OpenCode store is a `Vec`
kept in ascending provider-id order by a type invariant (the order its
`BTreeMap` walks in); the beads store is a `Vec` whose order is left open, as
the order of the `HashMap` it stands for is.
