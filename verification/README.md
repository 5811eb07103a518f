# comfy_i18n_core

The core of a compile-time internationalisation library: localization trees
(`Ast`), their merging and lookup, the rules by which a context reads its own
value or falls back to another, the formatting of templates, and the logic of
the Rust code generator (types, values, paths, names and the order of fields).

- `src/` is the library, written in Verus. Every function carries a contract
  stated over mathematical models of the trees, paths and names, and the
  laws of the library (merging, lookup, fallback, sorting) stand there as
  proof functions.
- `tests/` runs the library on concrete localizations.
- `app/` turns the values that the library computes into Rust tokens with
  `quote` and `proc-macro2`.

Outside crates: `dfmt` formats templates, `itertools` checks that node ids
are unique, and `uuid` gives nodes their random ids; each is called from
`src/` through a small wrapper whose contract states what the crate promises.
