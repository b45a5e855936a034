//! What an import promises: which columns it takes, as fields of which type, and where it fails.
use vstd::prelude::*;

use crate::import::{
    declares, file_type_of, filled_lines, first_collision, first_unmet, format_of, imported_fields,
    imported_names, json_type, merged_headers, on_ring, taken_positions, takes, trimmed_text,
    white_space, with_import, FileColumn, FileType, ImportHeader,
};
use crate::json::JsonModel;
use crate::models::{
    DatasetEntryModel, FieldModel, FieldType, Format, ImportSpecModel, Num, ParquetDatatype,
    RingBounds, SyntheticDatasetModel,
};
use crate::output::extension_of;
use crate::paths::extension_part;
use crate::schema::{column_type, ColumnTypeModel};

verus! {

// ---------------------------------------------------------------------------
// Lines
// ---------------------------------------------------------------------------

/// The characters from `a` on and before `b` are white space.
pub open spec fn blank(s: Seq<char>, a: int, b: int) -> bool {
    forall|i: int| a <= i < b ==> white_space(#[trigger] s[i])
}

proof fn lemma_blank_first(s: Seq<char>, a: int, b: int)
    requires
        s.len() > 0,
        white_space(s[0]),
        0 <= a <= b < s.len(),
        blank(s.drop_first(), 0, a),
        blank(s.drop_first(), b, s.len() - 1),
    ensures
        blank(s, 0, a + 1),
        blank(s, b + 1, s.len() as int),
{
    let t = s.drop_first();
    assert forall|i: int| 0 <= i < a + 1 || b + 1 <= i < s.len() implies white_space(
        #[trigger] s[i],
    ) by {
        if i > 0 {
            assert(t[i - 1] == s[i]);
        }
    }
}

proof fn lemma_blank_last(s: Seq<char>, a: int, b: int)
    requires
        s.len() > 0,
        white_space(s.last()),
        0 <= a <= b < s.len(),
        blank(s.drop_last(), 0, a),
        blank(s.drop_last(), b, s.len() - 1),
    ensures
        blank(s, 0, a),
        blank(s, b, s.len() as int),
{
    let t = s.drop_last();
    assert forall|i: int| 0 <= i < a || b <= i < s.len() implies white_space(#[trigger] s[i]) by {
        if i < t.len() {
            assert(t[i] == s[i]);
        }
    }
}

proof fn lemma_trimmed(s: Seq<char>) -> (r: (int, int))
    ensures
        0 <= r.0 <= r.1 <= s.len(),
        s.subrange(r.0, r.1) == trimmed_text(s),
        blank(s, 0, r.0),
        blank(s, r.1, s.len() as int),
    decreases s.len(),
{
    if s.len() > 0 && white_space(s[0]) {
        let (a, b) = lemma_trimmed(s.drop_first());
        lemma_blank_first(s, a, b);
        assert(s.subrange(a + 1, b + 1) =~= s.drop_first().subrange(a, b));
        (a + 1, b + 1)
    } else if s.len() > 0 && white_space(s.last()) {
        let (a, b) = lemma_trimmed(s.drop_last());
        lemma_blank_last(s, a, b);
        assert(s.subrange(a, b) =~= s.drop_last().subrange(a, b));
        (a, b)
    } else {
        assert(s.subrange(0, s.len() as int) =~= s);
        (0, s.len() as int)
    }
}

proof fn lemma_trimmed_ends(s: Seq<char>)
    ensures
        trimmed_text(s).len() > 0 ==> !white_space(trimmed_text(s)[0]) && !white_space(
            trimmed_text(s).last(),
        ),
    decreases s.len(),
{
    if s.len() > 0 && white_space(s[0]) {
        lemma_trimmed_ends(s.drop_first());
    } else if s.len() > 0 && white_space(s.last()) {
        lemma_trimmed_ends(s.drop_last());
    }
}

/// Trimming leaves a stretch of the text that neither begins nor ends with white space, and takes
/// nothing but white space off its ends.
pub proof fn law_trimming_takes_white_space_only(s: Seq<char>)
    ensures
        exists|a: int, b: int|
            0 <= a <= b <= s.len() && #[trigger] s.subrange(a, b) == trimmed_text(s) && blank(
                s,
                0,
                a,
            ) && blank(s, b, s.len() as int),
        trimmed_text(s).len() > 0 ==> !white_space(trimmed_text(s)[0]) && !white_space(
            trimmed_text(s).last(),
        ),
{
    let (a, b) = lemma_trimmed(s);
    lemma_trimmed_ends(s);
    assert(s.subrange(a, b) == trimmed_text(s));
}

/// A line counts as a row exactly where it holds more than white space.
pub proof fn law_lines_with_content_are_rows(lines: Seq<Seq<char>>, from: int, n: int)
    requires
        0 <= from < n <= lines.len(),
    ensures
        filled_lines(lines, from, from) == 0,
        filled_lines(lines, from, n) - filled_lines(lines, from, n - 1) == if exists|i: int|
            0 <= i < lines[n - 1].len() && !white_space(#[trigger] lines[n - 1][i]) {
            1int
        } else {
            0int
        },
{
    let s = lines[n - 1];
    lemma_trimmed_ends(s);
    let (a, b) = lemma_trimmed(s);
    if trimmed_text(s).len() > 0 {
        assert(s[a] == trimmed_text(s)[0]);
        assert(!white_space(s[a]));
    } else {
        assert(blank(s, 0, s.len() as int));
    }
}

// ---------------------------------------------------------------------------
// Formats and types
// ---------------------------------------------------------------------------

/// A file has the format whose extension it has.
pub proof fn law_formats_follow_the_extension(path: Seq<char>, f: Format)
    ensures
        extension_part(path) == Some(extension_of(f)) ==> format_of(path) == Some(f),
        format_of(path) == Some(f) ==> extension_part(path) == Some(extension_of(f)) || (f
            == Format::Jsonl && extension_part(path) == Some("ndjson"@)),
        extension_part(path) is None ==> format_of(path) is None,
{
    reveal_strlit("parquet");
    reveal_strlit("csv");
    reveal_strlit("json");
    reveal_strlit("jsonl");
    reveal_strlit("ndjson");
    assert("parquet"@.len() == 7 && "csv"@.len() == 3 && "json"@.len() == 4 && "jsonl"@.len() == 5
        && "ndjson"@.len() == 6);
}

/// What is written and read again has the type that it was written with: a column of a field's
/// type is imported as a field of that type. Left out are fields of mixed type.
pub proof fn law_field_types_read_back(f: FieldModel)
    requires
        f.parquet is None,
        f.field_type is Some,
        f.field_type->0 != FieldType::Variant,
        f.field_type->0 != FieldType::Union,
    ensures
        file_type_of(column_type(f)).as_field() == f.field_type->0,
{
}

/// Every number that is stored comes back as a number, whatever its width.
pub proof fn law_stored_numbers_read_back(p: ParquetDatatype)
    ensures
        file_type_of(ColumnTypeModel::Plain(p)).as_field() == match p {
            ParquetDatatype::Utf8 => FieldType::String,
            ParquetDatatype::Boolean => FieldType::Boolean,
            ParquetDatatype::Date32 => FieldType::Date,
            ParquetDatatype::TimestampMs => FieldType::DateTime,
            ParquetDatatype::TimestampUs => FieldType::DateTime,
            _ => FieldType::Number,
        },
        FileType::Integer.as_field() == FieldType::Number,
        FileType::Float.as_field() == FieldType::Number,
{
}

/// A record becomes a column with an entry for each key, a list one of the type of its first item,
/// and an empty list one of texts.
pub proof fn law_records_tell_their_columns(v: JsonModel, i: int)
    ensures
        v is Object ==> json_type(v) is Struct && json_type(v)->Struct_0.len()
            == v->Object_0.len(),
        v is Object && 0 <= i < v->Object_0.len() ==> json_type(v)->Struct_0[i].name
            == v->Object_0[i].key && json_type(v)->Struct_0[i].kind == json_type(
            v->Object_0[i].value,
        ),
        v is Array && v->Array_0.len() > 0 ==> json_type(v) == ColumnTypeModel::List(
            Box::new(json_type(v->Array_0[0])),
        ),
        v is Array && v->Array_0.len() == 0 ==> json_type(v) == ColumnTypeModel::List(
            Box::new(ColumnTypeModel::Plain(ParquetDatatype::Utf8)),
        ),
        v is Bool ==> file_type_of(json_type(v)).as_field() == FieldType::Boolean,
        v is Number ==> file_type_of(json_type(v)).as_field() == FieldType::Number,
        v is Number && (v->signed || v->unsigned) <==> file_type_of(json_type(v))
            == FileType::Integer,
        v is Text ==> file_type_of(json_type(v)).as_field() == FieldType::String,
{
    reveal_with_fuel(json_type, 3);
    reveal_with_fuel(crate::import::json_columns, 3);
}

// ---------------------------------------------------------------------------
// Columns
// ---------------------------------------------------------------------------

/// The import asks for the column: it names it, or all columns, and does not exclude it.
pub open spec fn asks_for(spec: ImportSpecModel, name: Seq<char>) -> bool {
    &&& spec.exclude is Some ==> !spec.exclude->0.contains(name)
    &&& spec.fields.len() == 0 || spec.fields == seq!["*"@] || spec.fields.contains(name)
}

proof fn lemma_asks(spec: ImportSpecModel, name: Seq<char>)
    ensures
        takes(spec, name) == asks_for(spec, name),
{
    if spec.fields.len() == 1 && spec.fields[0] == "*"@ {
        assert(spec.fields =~= seq!["*"@]);
    }
}

/// The columns that are read are exactly those that the import asks for.
pub proof fn law_requested_columns_are_taken(
    names: Seq<Seq<char>>,
    spec: ImportSpecModel,
    n: int,
    k: usize,
)
    requires
        0 <= n <= names.len() <= usize::MAX,
    ensures
        taken_positions(names, spec, n).contains(k) <==> k < n && asks_for(spec, names[k as int]),
    decreases n,
{
    if n > 0 {
        law_requested_columns_are_taken(names, spec, n - 1, k);
        lemma_asks(spec, names[n - 1]);
        let before = taken_positions(names, spec, n - 1);
        let now = taken_positions(names, spec, n);
        if before.contains(k) {
            let j = choose|j: int| 0 <= j < before.len() && before[j] == k;
            assert(now[j] == k);
        }
        if k == n - 1 && now.len() > before.len() {
            assert(now[before.len() as int] == k);
        }
        if now.contains(k) && !before.contains(k) {
            let j = choose|j: int| 0 <= j < now.len() && now[j] == k;
            assert(j == before.len());
        }
    }
}

/// The fields of an import and the columns that are read for it are the same, in the same order:
/// each field has the name of its column and the type that the column reads back with, and is
/// marked as imported.
pub proof fn law_fields_match_the_columns_read(
    columns: Seq<FileColumn>,
    spec: ImportSpecModel,
    n: int,
    k: int,
)
    requires
        0 <= n <= columns.len() <= usize::MAX,
        0 <= k < imported_fields(columns, spec, n).len(),
    ensures
        ({
            let names = crate::import::column_names(columns);
            let f = imported_fields(columns, spec, n)[k];
            let at = taken_positions(names, spec, n)[k];
            &&& taken_positions(names, spec, n).len() == imported_fields(columns, spec, n).len()
            &&& at < n
            &&& f.name == columns[at as int].name@
            &&& f.field_type == Some(columns[at as int].kind.as_field())
            &&& f.imported_taint
            &&& f.expression is None
            &&& f.content is None
            &&& !f.hidden
        }),
    decreases n,
{
    lemma_same_count(columns, spec, n);
    if n > 0 {
        lemma_same_count(columns, spec, n - 1);
        if k < imported_fields(columns, spec, n - 1).len() {
            law_fields_match_the_columns_read(columns, spec, n - 1, k);
        }
    }
}

proof fn lemma_same_count(columns: Seq<FileColumn>, spec: ImportSpecModel, n: int)
    requires
        0 <= n <= columns.len(),
    ensures
        taken_positions(crate::import::column_names(columns), spec, n).len() == imported_fields(
            columns,
            spec,
            n,
        ).len(),
    decreases n,
{
    if n > 0 {
        lemma_same_count(columns, spec, n - 1);
    }
}

/// A column that the import names, does not exclude, and that the file lacks.
pub open spec fn lacks(columns: Seq<FileColumn>, spec: ImportSpecModel, i: int) -> bool {
    &&& 0 <= i < spec.fields.len()
    &&& spec.fields != seq!["*"@]
    &&& spec.fields[i] != "*"@
    &&& spec.exclude is Some ==> !spec.exclude->0.contains(spec.fields[i])
    &&& forall|c: int| 0 <= c < columns.len() ==> (#[trigger] columns[c]).name@ != spec.fields[i]
}

proof fn lemma_unmet(columns: Seq<FileColumn>, spec: ImportSpecModel, n: int)
    requires
        0 <= n <= spec.fields.len(),
    ensures
        match first_unmet(columns, spec, n) {
            Some(i) => 0 <= i < n && lacks(columns, spec, i),
            None => forall|i: int| 0 <= i < n ==> !#[trigger] lacks(columns, spec, i),
        },
    decreases n,
{
    if n > 0 {
        lemma_unmet(columns, spec, n - 1);
        let name = spec.fields[n - 1];
        let names = crate::import::column_names(columns);
        if spec.fields.len() == 1 && spec.fields[0] == "*"@ {
            assert(spec.fields =~= seq!["*"@]);
        }
        if names.contains(name) {
            let c = choose|c: int| 0 <= c < names.len() && names[c] == name;
            assert(columns[c].name@ == name);
        } else {
            assert forall|c: int| 0 <= c < columns.len() implies (#[trigger] columns[c]).name@
                != name by {
                assert(names[c] == columns[c].name@);
            }
        }
    }
}

proof fn lemma_collision(imported: Seq<FieldModel>, data: Seq<FieldModel>, n: int)
    requires
        0 <= n <= imported.len(),
    ensures
        first_collision(imported, data, n) is None <==> forall|i: int, d: int|
            0 <= i < n && 0 <= d < data.len() ==> (#[trigger] imported[i]).name != (
            #[trigger] data[d]).name,
    decreases n,
{
    if n > 0 {
        lemma_collision(imported, data, n - 1);
        if declares(data, imported[n - 1].name) {
            let d = choose|d: int|
                0 <= d < data.len() && (#[trigger] data[d]).name == imported[n - 1].name;
            assert(imported[n - 1].name == data[d].name);
        }
    }
}

/// An import succeeds exactly where the file has every column that is named and not excluded, and
/// no declared field has the name of a column that is taken.
pub proof fn law_imports_succeed_where_columns_fit(
    ds: SyntheticDatasetModel,
    columns: Seq<FileColumn>,
    total_rows: usize,
)
    requires
        ds.import is Some,
    ensures
        with_import(ds, columns, total_rows) is Ok <==> {
            &&& forall|i: int|
                0 <= i < ds.import->0.fields.len() ==> !#[trigger] lacks(
                    columns,
                    ds.import->0,
                    i,
                )
            &&& forall|c: int, d: int|
                0 <= c < columns.len() && asks_for(ds.import->0, (#[trigger] columns[c]).name@)
                    && 0 <= d < ds.data.len() ==> columns[c].name@ != (#[trigger] ds.data[d]).name
        },
{
    let spec = ds.import->0;
    let n = columns.len() as int;
    let fields = imported_fields(columns, spec, n);
    lemma_unmet(columns, spec, spec.fields.len() as int);
    lemma_collision(fields, ds.data, fields.len() as int);
    if first_collision(fields, ds.data, fields.len() as int) is None {
        assert forall|c: int, d: int|
            0 <= c < n && asks_for(spec, (#[trigger] columns[c]).name@) && 0 <= d
                < ds.data.len() implies columns[c].name@ != (#[trigger] ds.data[d]).name by {
            lemma_imported(columns, spec, n, c);
            let k = choose|k: int|
                0 <= k < fields.len() && (#[trigger] fields[k]).name == columns[c].name@;
            assert(fields[k].name != ds.data[d].name);
        }
    }
    if forall|c: int, d: int|
        0 <= c < columns.len() && asks_for(spec, (#[trigger] columns[c]).name@) && 0 <= d
            < ds.data.len() ==> columns[c].name@ != (#[trigger] ds.data[d]).name {
        assert forall|i: int, d: int| 0 <= i < fields.len() && 0 <= d < ds.data.len() implies (
        #[trigger] fields[i]).name != (#[trigger] ds.data[d]).name by {
            lemma_imported_from(columns, spec, n, i);
            let c = choose|c: int|
                0 <= c < n && asks_for(spec, (#[trigger] columns[c]).name@) && fields[i].name
                    == columns[c].name@;
            assert(columns[c].name@ != ds.data[d].name);
        }
    }
}

proof fn lemma_imported(columns: Seq<FileColumn>, spec: ImportSpecModel, n: int, c: int)
    requires
        0 <= c < n <= columns.len(),
        asks_for(spec, columns[c].name@),
    ensures
        exists|k: int|
            0 <= k < imported_fields(columns, spec, n).len() && (#[trigger] imported_fields(
                columns,
                spec,
                n,
            )[k]).name == columns[c].name@,
    decreases n,
{
    let before = imported_fields(columns, spec, n - 1);
    let now = imported_fields(columns, spec, n);
    lemma_asks(spec, columns[c].name@);
    if c < n - 1 {
        lemma_imported(columns, spec, n - 1, c);
        let k = choose|k: int|
            0 <= k < before.len() && (#[trigger] before[k]).name == columns[c].name@;
        assert(now[k].name == columns[c].name@);
    } else {
        assert(now[before.len() as int].name == columns[c].name@);
    }
}

proof fn lemma_imported_from(columns: Seq<FileColumn>, spec: ImportSpecModel, n: int, k: int)
    requires
        0 <= n <= columns.len(),
        0 <= k < imported_fields(columns, spec, n).len(),
    ensures
        exists|c: int|
            0 <= c < n && asks_for(spec, (#[trigger] columns[c]).name@) && imported_fields(
                columns,
                spec,
                n,
            )[k].name == columns[c].name@,
    decreases n,
{
    if n > 0 {
        lemma_asks(spec, columns[n - 1].name@);
        if k < imported_fields(columns, spec, n - 1).len() {
            lemma_imported_from(columns, spec, n - 1, k);
        } else {
            assert(asks_for(spec, columns[n - 1].name@));
        }
    }
}

/// An import changes nothing of a dataset but its fields and the number of rows that the file has:
/// the declared fields stay, behind those of the file.
pub proof fn law_imports_keep_the_dataset(
    ds: SyntheticDatasetModel,
    columns: Seq<FileColumn>,
    total_rows: usize,
)
    requires
        with_import(ds, columns, total_rows) is Ok,
    ensures
        ({
            let r = with_import(ds, columns, total_rows)->Ok_0;
            &&& ds.import is None ==> r == ds
            &&& ds.import is Some ==> {
                &&& r.import is Some
                &&& r.import->0.total_rows == total_rows
                &&& ds.import->0 == (ImportSpecModel {
                    total_rows: ds.import->0.total_rows,
                    ..r.import->0
                })
                &&& r.data.len() >= ds.data.len()
                &&& r.data.subrange(r.data.len() - ds.data.len(), r.data.len() as int) == ds.data
                &&& forall|k: int|
                    0 <= k < r.data.len() - ds.data.len() ==> (#[trigger] r.data[k]).imported_taint
            }
            &&& ds == (SyntheticDatasetModel { import: ds.import, data: ds.data, ..r })
        }),
{
    let r = with_import(ds, columns, total_rows)->Ok_0;
    if ds.import is Some {
        let fields = imported_fields(columns, ds.import->0, columns.len() as int);
        assert(r.data.subrange(r.data.len() - ds.data.len(), r.data.len() as int) =~= ds.data);
        assert forall|k: int| 0 <= k < r.data.len() - ds.data.len() implies (
        #[trigger] r.data[k]).imported_taint by {
            lemma_tainted(columns, ds.import->0, columns.len() as int, k);
        }
    }
}

proof fn lemma_tainted(columns: Seq<FileColumn>, spec: ImportSpecModel, n: int, k: int)
    requires
        0 <= k < imported_fields(columns, spec, n).len(),
    ensures
        imported_fields(columns, spec, n)[k].imported_taint,
    decreases n,
{
    if n > 0 && k < imported_fields(columns, spec, n - 1).len() {
        lemma_tainted(columns, spec, n - 1, k);
    }
}

/// All imports are merged, each into its own dataset, and the datasets keep their paths and their
/// order.
pub proof fn law_every_import_is_merged(
    datasets: Seq<DatasetEntryModel>,
    headers: Seq<ImportHeader>,
    n: int,
    i: int,
)
    requires
        0 <= i < n <= datasets.len(),
        merged_headers(datasets, headers, n) is Ok,
    ensures
        ({
            let r = merged_headers(datasets, headers, n)->Ok_0;
            let one = with_import(datasets[i].dataset, headers[i].columns@, headers[i].total_rows);
            r.len() == n && r[i].path == datasets[i].path && one is Ok && r[i].dataset == one->Ok_0
        }),
    decreases n,
{
    if i < n - 1 {
        law_every_import_is_merged(datasets, headers, n - 1, i);
    } else if n > 1 {
        law_every_import_is_merged(datasets, headers, n - 1, 0);
    } else {
        assert(merged_headers(datasets, headers, 0)->Ok_0.len() == 0);
    }
}

/// The imported columns of a dataset are exactly those of its fields that come from the file.
pub proof fn law_imported_columns_are_named(data: Seq<FieldModel>, n: int, name: Seq<char>)
    requires
        0 <= n <= data.len(),
    ensures
        imported_names(data, n).contains(name) <==> exists|i: int|
            0 <= i < n && (#[trigger] data[i]).imported_taint && data[i].name == name,
    decreases n,
{
    if n > 0 {
        law_imported_columns_are_named(data, n - 1, name);
        let before = imported_names(data, n - 1);
        let now = imported_names(data, n);
        if before.contains(name) {
            let j = choose|j: int| 0 <= j < before.len() && before[j] == name;
            assert(now[j] == name);
        }
        if now.len() > before.len() {
            assert(now[before.len() as int] == data[n - 1].name);
        }
        if now.contains(name) && !before.contains(name) {
            let j = choose|j: int| 0 <= j < now.len() && now[j] == name;
            assert(j == before.len());
        }
    }
}

/// A row is on a ring exactly where its place is not before the start and before the end.
pub proof fn law_rings_hold_their_start(place: Num, ring: RingBounds)
    requires
        !place.nan(),
        !ring.start.nan(),
        !ring.end.nan(),
    ensures
        on_ring(place, ring) <==> ring.start.key <= place.key < ring.end.key,
{
}

/// The columns of a record are its keys with the types of their values, and nothing but a record
/// has columns.
pub proof fn law_records_have_a_column_per_key(v: JsonModel, path: Seq<char>, i: int)
    ensures
        crate::import::record_columns(v, path) is Ok <==> v is Object,
        v is Object ==> crate::import::record_columns(v, path)->Ok_0.len() == v->Object_0.len(),
        v is Object && 0 <= i < v->Object_0.len() ==> {
            let c = crate::import::record_columns(v, path)->Ok_0[i];
            c.name == v->Object_0[i].key && c.kind == json_type(v->Object_0[i].value)
        },
{
}

/// A list of records has the columns of the first and as many rows as records; an empty one is
/// refused.
pub proof fn law_lists_of_records_count_all(records: Seq<JsonModel>, path: Seq<char>)
    ensures
        crate::import::list_schema(records, path) is Ok <==> records.len() > 0 && records[0]
            is Object,
        crate::import::list_schema(records, path) is Ok ==> {
            let r = crate::import::list_schema(records, path)->Ok_0;
            &&& r.1 == records.len()
            &&& r.0 == crate::import::record_columns(records[0], path)->Ok_0
        },
{
}

/// A file of lines has the columns of the record on its first line, and a row for every line with
/// content; a first line without content is refused.
pub proof fn law_lines_of_records_count_all(lines: Seq<Seq<char>>, path: Seq<char>)
    ensures
        crate::import::jsonl_file(lines, path) is Ok ==> {
            let r = crate::import::jsonl_file(lines, path)->Ok_0;
            let first = crate::json::json_of_text(trimmed_text(lines[0]));
            &&& lines.len() > 0
            &&& r.1 == filled_lines(lines, 0, lines.len() as int)
            &&& first is Ok
            &&& first->Ok_0 is Object
            &&& r.0 == crate::import::record_columns(first->Ok_0, path)->Ok_0
        },
        lines.len() == 0 ==> crate::import::jsonl_file(lines, path) is Err,
{
    if crate::import::jsonl_file(lines, path) is Ok {
        lemma_filled_from(lines, lines.len() as int);
    }
}

proof fn lemma_filled_from(lines: Seq<Seq<char>>, n: int)
    requires
        1 <= n <= lines.len(),
        trimmed_text(lines[0]).len() > 0,
    ensures
        filled_lines(lines, 0, n) == 1 + filled_lines(lines, 1, n),
    decreases n,
{
    if n > 1 {
        lemma_filled_from(lines, n - 1);
    } else {
        assert(filled_lines(lines, 0, 0) == 0);
    }
}

} // verus!
