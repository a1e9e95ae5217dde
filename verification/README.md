# vortex_dict

A verified reader for dictionary-encoded columns. Such a column keeps its distinct values
once and a code for every row.

- `src/expr.rs`, `src/functions.rs`, `src/dtype.rs`: expressions over a column.
- `src/pushdown.rs`: splitting an expression into a part that runs on the values and a part
  that runs on the rows, with the laws of the split.
- `src/semantics.rs`: what expressions compute, and why projecting and filtering by way of
  the values is right.
- `src/reader.rs`: the reader. It decides what is read, evaluated and kept; its caller hands
  in the functions that read and evaluate.
- `src/rows.rs`: the rows that come of it, where those functions do what they are asked to.
- `src/key.rs`, `src/cache.rs`: the map of results that are kept, by expression.
- `src/mask.rs`: the rows that a filter selects.
- `src/matcher.rs`: matching arrays by what they are.
- `app/`: the reader over futures.
