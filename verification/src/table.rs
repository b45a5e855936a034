//! Tables that files hold, and which of their columns and rows an import takes.
use std::io::Cursor;
use std::sync::Arc;

use arrow::compute::concat_batches;
use arrow::json::reader::infer_json_schema;
use arrow::json::ReaderBuilder;
use arrow::record_batch::RecordBatch;
use vstd::prelude::*;
use vstd::string::*;

use crate::import::{
    hash_rows, json_to_lines, project_batch, record_lines, ring_place, taken_positions,
};
use crate::message::{join2, join4, problem, said, PartModel, Problem};
use crate::models::ImportSpec;
use crate::text::texts;

verus! {

// ---------------------------------------------------------------------------
// Outside values
// ---------------------------------------------------------------------------

/// Rows in columns: an `arrow::record_batch::RecordBatch`.
#[verifier::external_body]
#[derive(Debug)]
pub struct Table {
    pub rows: RecordBatch,
}

/// The names of the columns of a table.
pub uninterp spec fn table_names(t: Table) -> Seq<Seq<char>>;

/// The number of rows of a table.
pub uninterp spec fn table_rows(t: Table) -> nat;

/// Which call refused the bytes of a table.
#[derive(Debug, Clone, Copy, PartialEq, Eq, Structural)]
pub enum Stage {
    Schema,
    Build,
    Read,
    Concat,
}

/// The columns and the number of rows of the table that Arrow's JSON reader makes of bytes with a
/// record on each line, or which of its calls refuses them and what it says.
pub uninterp spec fn json_table(bytes: Seq<u8>) -> Result<
    (Seq<Seq<char>>, nat),
    (Stage, Seq<char>),
>;

/// Calls `arrow::json::reader::infer_json_schema`, `arrow::json::ReaderBuilder::build` and the
/// reader that this gives, and `arrow::compute::concat_batches` on the batches that are read. What
/// columns and rows come out is not stated: the result is named.
#[verifier::external_body]
pub(crate) fn read_json_table(bytes: &Vec<u8>) -> (r: Result<Table, (Stage, String)>)
    ensures
        match r {
            Ok(t) => json_table(bytes@) == Ok::<(Seq<Seq<char>>, nat), (Stage, Seq<char>)>(
                (table_names(t), table_rows(t)),
            ),
            Err((stage, e)) => json_table(bytes@) == Err::<
                (Seq<Seq<char>>, nat),
                (Stage, Seq<char>),
            >((stage, e@)),
        },
{
    let schema = infer_json_schema(Cursor::new(bytes), None)
        .map_err(|e| (Stage::Schema, e.to_string()))?;
    let schema = Arc::new(schema.0);
    let reader = ReaderBuilder::new(Arc::clone(&schema))
        .build(Cursor::new(bytes))
        .map_err(|e| (Stage::Build, e.to_string()))?;
    let batches = reader.collect::<Result<Vec<_>, _>>().map_err(|e| (Stage::Read, e.to_string()))?;
    let rows = concat_batches(&schema, &batches).map_err(|e| (Stage::Concat, e.to_string()))?;
    Ok(Table { rows })
}

/// Calls `RecordBatch::schema` and reads the names of its fields.
#[verifier::external_body]
pub(crate) fn names_of(t: &Table) -> (r: Vec<String>)
    ensures
        texts(r@) == table_names(*t),
{
    t.rows.schema().fields().iter().map(|f| f.name().clone()).collect()
}

/// Calls `RecordBatch::num_rows`.
#[verifier::external_body]
pub(crate) fn rows_of(t: &Table) -> (r: usize)
    ensures
        r == table_rows(*t),
{
    t.rows.num_rows()
}

// ---------------------------------------------------------------------------
// Imported tables
// ---------------------------------------------------------------------------

/// A table, the positions of the columns that an import takes of it, and the place of each row on
/// the ring.
#[derive(Debug)]
pub struct ImportTable {
    pub table: Table,
    pub taken: Vec<usize>,
    pub places: Vec<u64>,
}

impl ImportTable {
    /// The columns and rows of a table with the given names and number of rows, as an import with
    /// the given seed takes them.
    pub open spec fn indexes(
        self,
        names: Seq<Seq<char>>,
        rows: nat,
        spec: ImportSpec,
        seed: u64,
    ) -> bool {
        &&& table_names(self.table) == names
        &&& table_rows(self.table) == rows
        &&& self.taken@ == taken_positions(names, spec.model(), names.len() as int)
        &&& self.places@ == Seq::new(rows, |i: int| ring_place(seed, i as u64))
    }
}

/// The columns that an import takes of a table, and the place of each row on the ring.
pub fn index_table(table: Table, spec: &ImportSpec, seed: u64) -> (r: ImportTable)
    ensures
        r.table == table,
        r.indexes(table_names(table), table_rows(table), *spec, seed),
{
    let names = names_of(&table);
    let taken = project_batch(&names, spec);
    let places = hash_rows(seed, rows_of(&table));
    assert(texts(names@).len() == names@.len());
    ImportTable { table, taken, places }
}

/// The problem of bytes that one of the calls refuses.
pub open spec fn table_problem(stage: Stage, e: Seq<char>, path: Seq<char>) -> Seq<PartModel> {
    match stage {
        Stage::Schema => said("JSONL schema '"@ + path + "': "@ + e),
        Stage::Build => said("JSONL build '"@ + path + "': "@ + e),
        Stage::Read => said("JSONL read '"@ + path + "': "@ + e),
        Stage::Concat => said("JSONL concat: "@ + e),
    }
}

/// The table that bytes with a record on each line hold, as an import takes it.
pub fn load_jsonl_bytes(bytes: &Vec<u8>, path: &str, spec: &ImportSpec, seed: u64) -> (r: Result<
    ImportTable,
    Problem,
>)
    ensures
        match json_table(bytes@) {
            Ok((names, n)) => r matches Ok(t) && t.indexes(names, n, *spec, seed),
            Err((stage, e)) => r matches Err(p) && p.model() == table_problem(stage, e, path@),
        },
{
    match read_json_table(bytes) {
        Ok(t) => Ok(index_table(t, spec, seed)),
        Err((stage, e)) => Err(
            problem(
                match stage {
                    Stage::Schema => join4("JSONL schema '", path, "': ", &e),
                    Stage::Build => join4("JSONL build '", path, "': ", &e),
                    Stage::Read => join4("JSONL read '", path, "': ", &e),
                    Stage::Concat => join2("JSONL concat: ", &e),
                },
            ),
        ),
    }
}

/// The table of a file with the given text, a record on each line, as an import takes it.
pub fn load_jsonl_full(content: &str, path: &str, spec: &ImportSpec, seed: u64) -> (r: Result<
    ImportTable,
    Problem,
>)
    ensures
        match json_table(content.spec_bytes()) {
            Ok((names, n)) => r matches Ok(t) && t.indexes(names, n, *spec, seed),
            Err((stage, e)) => r matches Err(p) && p.model() == table_problem(stage, e, path@),
        },
{
    load_jsonl_bytes(&content.as_bytes_vec(), path, spec, seed)
}

/// The table of a JSON file with the given text, a list of records, as an import takes it.
pub fn load_json_full(content: &str, path: &str, spec: &ImportSpec, seed: u64) -> (r: Result<
    ImportTable,
    Problem,
>)
    ensures
        match record_lines(content@, path@) {
            Err(m) => r matches Err(p) && p.model() == m,
            Ok(bytes) => match json_table(bytes) {
                Ok((names, n)) => r matches Ok(t) && t.indexes(names, n, *spec, seed),
                Err((stage, e)) => r matches Err(p) && p.model() == table_problem(
                    stage,
                    e,
                    path@,
                ),
            },
        },
{
    let bytes = json_to_lines(content, path)?;
    load_jsonl_bytes(&bytes, path, spec, seed)
}

} // verus!
