# tree-sitter-graph, lazy execution

A program goes through the matches of a query in a syntax tree and builds a graph: nodes, edges and
attributes. It is executed in two phases.

1. The stanzas are executed, one per match. Graph nodes are created at once. Everything else is put
   off: values go into a store of thunks, variables of syntax nodes into a table of definitions, and
   edges, attributes and printing into the lazy graph.
2. The lazy graph is evaluated. A thunk is forced when it is first asked for, and the definitions of
   a name when a variable of this name is first asked for.

So a stanza can use a variable that another stanza defines, whatever comes first.

## Layout

- `src/ast.rs`: programs, and how they are shown.
- `src/values.rs`, `src/graph.rs`, `src/variables.rs`, `src/table.rs`: the data.
- `src/error.rs`, `src/cancellation.rs`, `src/functions.rs`: what comes from outside, or goes there.
- `src/regexes.rs`, `src/matching.rs`: calls into `regex` and `tree_sitter`.
- `src/lazy/evaluation.rs`, `src/lazy/execution.rs`: what evaluation and execution mean. All the
  contracts refer to these two.
- `src/lazy/store.rs`, `src/lazy/values.rs`, `src/lazy/statements.rs`: evaluation.
- `src/lazy/expressions.rs`, `src/lazy/attributes.rs`, `src/lazy/blocks.rs`, `src/lazy/files.rs`:
  execution.
- `src/value_laws.rs`, `src/lazy/evaluation_laws.rs`, `src/lazy/frame_laws.rs`,
  `src/lazy/order_laws.rs`, `src/lazy/variable_laws.rs`, `src/lazy/execution_laws.rs`,
  `src/lazy/graph_laws.rs`, `src/lazy/program_laws.rs`: what holds of all programs.
- `app/`: the same with printing.
