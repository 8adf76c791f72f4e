# node_compiler

The core of a node-based editor whose graphs compute bits, bytes and machine words, with
user-defined functions as subgraphs. The library is written in Verus: every function carries
a contract, and the laws the editor relies on are proved.

## Layout

- `src/types.rs` — wire types, runtime values and node kinds: port counts, pin types, titles,
  labels and the short text shown for a value.
- `src/graph.rs` — node and pin ids, `GraphData`, the `Graph` view, `FunctionDef` (call port
  types, structural hash, display name).
- `src/model.rs`, `src/eval.rs`, `src/cache.rs` — the memoising evaluator and its
  mathematical model; `src/denote.rs` and `src/eval_laws.rs` — the pure meaning of a pin and
  the laws that relate the two (exactly the output pins are visited; on acyclic graphs
  memoisation changes no value); `src/model_mono.rs` — more recursion depth never changes a
  completed evaluation; `src/cycle_laws.rs` — pins on a cycle get no value; `src/typing.rs` — on typed graphs every computed value has its pin's
  type; `src/pack_laws.rs` — packing the bits of an unpacked byte gives the byte back.
- `src/library.rs` — deleting a function from the library and keeping every call consistent
  (`snarl_graph::delete_function_everywhere` does it for the editor graphs too).
- `src/snarl_graph.rs`, `src/editor.rs` — the bridge to the `egui-snarl` editor graph
  (conversion both ways, keeping node order; removing calls; type-checked connection; node
  editing).
- `src/text.rs` — decimal and hexadecimal numerals, string order and sorting.
- `app/` — the `eframe` application: windows, menus, file dialogs and saving.
- `tests/` — tests of the library on concrete graphs.
