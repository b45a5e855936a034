# fakeset

Synthetic datasets from declarations. A dataset file names fields, the dataset that it narrows,
the datasets that it draws rows from, and the files that it is written to. Constrained datasets
are generated first, and the broader ones are completed from their rows, so that references hold
across all outputs by construction.

`src/` is the library, written in Verus: its functions state what they return, and the proofs are
part of the code. Calls into other crates stand in small wrappers whose contracts are trusted; the
comment of each says what it is trusted for. Of random draws the contracts state what holds of
every outcome. The library holds

- the data model and the values of dataset files (`models`, `text`, `text_map`, `paths`, `order`,
  `message`, `json`);
- checks (`validate`, `validate_field`, `validate_links`, `validate_flatten`, `validate_quality`,
  `shares`);
- rewriting (`rewrite`, `expressions`, `expand_variants`, `list_norm`, `import`, `table`);
- constraints and the factoring of a population into segments (`constraints`, `bits`, `segment`,
  `cover`);
- planning (`graph`, `row_plan`, `plan`);
- generation (`generator`, `fakers`, `dates`, `draws`, `assembly`, `group`, `lists`, `columns`,
  `accumulate`, `schema`, `expr_analysis`, `run`);
- outputs (`output`, `dq`, `corrupt`).

Floating point numbers are known to the library by keys that order them (`models::Num`); sums,
products and random draws of them are handed in. Columns are known by name and position: the
library says where each column comes from, and `app/` applies that to Arrow arrays.

`app/` is ordinary Rust around the library: dataset files, imported tables, Arrow batches, SQL
expressions, and the files that are written. `tests/` runs the library from outside.
