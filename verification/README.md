# zz

The lifetime checker of the ZZ language, and the decisions of its command line, verified with
Verus.

ZZ is a small language that is compiled to C. Its pointers carry tags: what may be changed
(`mutable`), what must be looked at before use (`unsafe`, `tainted`), what is given away (`move`)
and what is only lent (`borrowed`). The checker walks a module, follows every pointer to the
storage that it points to, and reports what would be used after it was dropped or moved, before
it was set, or against its tags.

- `src/text.rs`, `location.rs`, `name.rs`, `tags.rs`, `ast.rs`, `report.rs`: the values that the
  checker reads and writes, each with a mathematical view.
- `src/lifetimes/state.rs`: the state of the checker as mathematical values.
- `src/lifetimes/rules.rs`: the rules of the language, as functions on that state.
- `src/lifetimes/stack.rs`, `arguments.rs`, `calls.rs`, `exprs.rs`, `stms.rs`, `modules.rs`: the
  checker itself, proved to follow the rules.
- `src/lifetimes/frame.rs`, `effects.rs`, `steps.rs`, `alike.rs`, `completion.rs`,
  `unchanged.rs`, `endless.rs`, `laws.rs`: what the rules promise.
- `src/driver/`: what a subcommand builds, which artifacts it is about, and whether a run of a
  test has passed.
- `app/`: the program around the library. Parsing, flattening and code generation are a program
  of their own, `zz-compiler`.

A program on which the checker cannot go on, because it needs the address of something that has
none, because returned pointers have no end, or because storage is needed where no scope is open,
gives an `Ice`, with the reports up to there.
