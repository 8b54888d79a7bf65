# reactive_scopes

Code generation for functions whose reactive scopes are memoized. The library is written in Verus: what
each function returns is stated in its contract and proved.

- `src/hir.rs` holds the representation that code generation reads: the control flow graph of a function
  and the tree of its reactive scopes. `src/graph.rs` walks over the graph.
- `src/codegen.rs` and `src/codegen/` write a function out as text from its control flow graph.
  `codegen_function` and its variants are the entry points; `codegen/laws.rs` states what holds of the
  code of every function.
- `src/codegen_ast.rs` and `src/codegen_ast/` build JavaScript syntax trees from the reactive tree.
  `codegen_reactive_function` is the entry point. `codegen_ast/walk.rs` says what the walk over a
  function gives, `codegen_ast/generate.rs` does it, and `codegen_ast/laws.rs` states what every walk
  keeps: settings, slots, declarations, errors and names.
- `src/extract_scope_destructuring.rs` takes destructuring assignments apart that bind both declared and
  new variables; `extract_scope_destructuring/laws.rs` states that nothing mixed is left, that doing it
  again changes nothing, and that temporaries differ.
- `src/text.rs`, `src/sorting.rs` and `src/collections.rs` hold what the rest is made of.
- `app/` turns the trees of the library into those of the oxc parser, and numbers from floating point
  values into literals.

What is taken on trust are a few functions of the standard library on characters and strings
(`src/text.rs`), and what the oxc parser says of identifiers and types (`src/codegen_ast/outside.rs`).

A tree and its model stand side by side in `codegen_ast/js.rs`. The models of trees are closed; the group
`group_js` gives the model of a node that is built, and the `unfold_` lemmas give the model of a node that
is looked into.
