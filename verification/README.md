# sqly

The logic behind the `sqly` derive macros (`Table`, `Delete`, `Insert`, `Select`,
`Update`), which generate SQL queries and the structs around them at compile time,
verified with Verus.

- `src/` is the verified library. It reads the structs and their `#[sqly(..)]`
  attributes as plain values (`table.rs`, `types.rs`), checks them (`validate.rs`,
  `types.rs`, `occur.rs`), replaces `$name` placeholders in SQL fragments
  (`params.rs`, `escape.rs`, `write.rs`), builds the queries, static or as steps
  run at run time (`builder.rs`, `query.rs`, `delete.rs`, `insert.rs`,
  `update.rs`, `search.rs`, `select.rs`, `returning.rs`), joins nested structs and
  names them uniquely (`local.rs`, `construct.rs`), and plans how rows are read
  back (`form.rs`). `laws.rs` states what holds across these functions.
- `app/` is the code around it: reading the attribute syntax with `syn`, keeping
  the table structs seen across derive calls, and writing the generated code with
  `quote`.
- `tests/` runs the library on concrete structs.
