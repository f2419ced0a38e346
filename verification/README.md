# polars_planner

The planner of physical expressions for a lazy query engine on polars columns, written and proved in
Verus.

- `arena`, `expr`, `names`: logical expressions, in an arena and as trees, and the columns they read.
- `state`: what the planner remembers while it converts.
- `plan`: what plan an expression has, as a mathematical function.
- `planner`: the conversion itself, proved to compute that function.
- `physical`: the plans, and the errors in place of one.
- `laws`: what holds of every conversion.
- `udf`, `parallel`: the functions on columns that plans hold, and how some split their work over
  the thread pool of polars.
- `columns`: what is asked of a column before it is handed to polars.
- `integers`: what the reductions of integers come to, split or not.
- `series`: the boundary to `polars-core`, `polars-ops` and `rayon`. All trusted contracts are here.

The fields that a schema gives to the aggregations of an arena are handed in with the schema, as are
the numbers under which functions are registered, and the number of rows from which on a column is
worth splitting: `THREAD_BOUNDARY` in production, `DEBUG_THREAD_BOUNDARY` while debugging.

`arrow2` is listed among the dependencies to hold it to a version that polars compiles with; only the
tests make arrays of it.
