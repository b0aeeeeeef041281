# paideia_as_elaborator

The verified core of the paideia-as elaborator, written in Verus.

`src/` holds the logic with its contracts and the laws proved about it:

- `intrinsics`: the table of raw-memory and pointer-subtraction intrinsics;
- `incremental`: the memoising query engine (documents, parses, elaborated
  definitions, cascade invalidation);
- `hygiene`: macro hygiene tags, hygienic names and the splice cache;
- `env`: the scoped type environment;
- `file_module`: the file-to-module naming rule;
- `imm64_expand`: expansion of 64-bit immediates through r11;
- `functor_apply`: the applicative cache key of a functor application;
- `fingerprints`: `@fingerprint` data entries;
- `enum_registry`, `enum_layout`: enum type ids, variant descriptors and
  C-ABI payload layouts;
- `ir`, `walk_plan`, `closure_frames`, `frame_stubs`, `emit_ledger`: the IR
  as the emit walk reads it, the walk's pre-passes and per-node decisions,
  closure frame layout, function entry/exit stubs and emission bookkeeping;
- `digest`: BLAKE3 digests (through the `blake3` crate).

`app/` converts between the front-end and IR crates' types and the core's
plain values. `tests/` exercises the library.
