# Orka

A small Kubernetes toolkit: a command line that lists and watches objects, and a desktop
front end with tables, logs, sessions, port forwards, an editor and a map of namespaces.

The logic is a Verus library. The functions in `src/` carry contracts and are proved against
them; the laws that span several functions are public proof functions named `law_*`.

Some functions are trusted, not proved: the 42 that are marked `external_body` and the one
`assume_specification`, each of which does nothing but call an outside crate or the standard
library. What such a call is taken to do stands in the contract of the function, and in words
in its doc comment. Everything else rests on them. Of the clock nothing is taken: `now_ts`
has no contract.

- `src/types.rs`, `src/json.rs`, `src/text.rs`, `src/order.rs`, `src/small.rs`: values and the
  operations on them.
- `src/codec.rs`, `src/rx.rs`: JSON, YAML, base64, zstd, schemas and regular expressions. The
  formats are read and written by outside crates; what those calls return is named there.
- `src/columns.rs`, `src/gvk.rs`, `src/age.rs`, `src/schema.rs`, `src/refs.rs`, `src/patterns.rs`,
  `src/kubehub.rs`: kinds, their columns and schemas, references and patterns inside schemas,
  lists, pages and watches.
- `src/apply.rs`, `src/persist.rs`, `src/ops.rs`, `src/api.rs`, `src/cli.rs`, `src/settings.rs`:
  edits and their history, operations, the interface for front ends, what the command line
  prints, and settings.
- `src/gui/`: the state of the front end, how updates change it, and what it shows. The colours
  of the editor are those of `syntect`.
- `app/`: the program around the library: arguments, the cluster client, files and drawing. It
  is a crate of its own, which adds `eframe` for the window to what the library depends on.
- `tests/`: the library as its callers see it.
