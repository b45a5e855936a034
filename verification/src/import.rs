//! Columns and rows of imported files.
use vstd::prelude::*;

use crate::json::{
    json_entries_model, json_lines_of, json_list_of_text, json_of_text, json_values_model,
    list_to_lines, parse_json, parse_json_list, JsonEntry, JsonEntryModel, JsonModel, JsonValue,
};
use crate::message::{join3, join4, join5, problem, problem_of, said, PartModel, Problem};
use crate::models::{
    default_field_model, entries_model, fields_model, DatasetEntry, DatasetEntryModel, Field,
    FieldModel, FieldType, Format, ImportSpec, ImportSpecModel, Num, ParquetDatatype, RingBounds,
    SyntheticDataset, SyntheticDatasetModel,
};
use crate::paths::{extension_part, file_extension, path_beside, resolve_include};
use crate::schema::{columns_model, ColumnField, ColumnModel, ColumnType, ColumnTypeModel};
use crate::text::{holds_text, listed, same_text, texts};

verus! {

// ---------------------------------------------------------------------------
// Files
// ---------------------------------------------------------------------------

/// The path of an imported file, relative to the dataset that imports it.
pub fn resolve_import_path(dataset_path: &str, file: &str) -> (r: String)
    ensures
        r@ == path_beside(dataset_path@, file@),
{
    resolve_include(dataset_path, file)
}

/// The format of a file, by its extension.
pub open spec fn format_of(path: Seq<char>) -> Option<Format> {
    match extension_part(path) {
        None => None,
        Some(e) => if e == "parquet"@ {
            Some(Format::Parquet)
        } else if e == "csv"@ {
            Some(Format::Csv)
        } else if e == "json"@ {
            Some(Format::Json)
        } else if e == "jsonl"@ || e == "ndjson"@ {
            Some(Format::Jsonl)
        } else {
            None
        },
    }
}

/// The problem of a file whose format is not known.
pub open spec fn unknown_format(path: Seq<char>) -> Seq<PartModel> {
    said(
        "unsupported import file format '"@ + match extension_part(path) {
            Some(e) => e,
            None => "(no extension)"@,
        } + "' ("@ + path + "); expected parquet, csv, json, or jsonl"@,
    )
}

/// Finds the format of a file by its extension.
pub fn detect_format(path: &str) -> (r: Result<Format, Problem>)
    ensures
        match format_of(path@) {
            Some(f) => r == Ok::<Format, Problem>(f),
            None => problem_of(r) == Some(unknown_format(path@)),
        },
{
    let ext: &str = match file_extension(path) {
        Some(e) => {
            if same_text(e, "parquet") {
                return Ok(Format::Parquet);
            }
            if same_text(e, "csv") {
                return Ok(Format::Csv);
            }
            if same_text(e, "json") {
                return Ok(Format::Json);
            }
            if same_text(e, "jsonl") || same_text(e, "ndjson") {
                return Ok(Format::Jsonl);
            }
            e
        },
        None => "(no extension)",
    };
    Err(
        problem(
            join5(
                "unsupported import file format '",
                ext,
                "' (",
                path,
                "); expected parquet, csv, json, or jsonl",
            ),
        ),
    )
}

/// A character with the Unicode property `White_Space`.
pub open spec fn white_space(c: char) -> bool {
    let n = c as int;
    ||| 0x9 <= n <= 0xD
    ||| 0x2000 <= n <= 0x200A
    ||| n == 0x20 || n == 0x85 || n == 0xA0 || n == 0x1680
    ||| n == 0x2028 || n == 0x2029 || n == 0x202F || n == 0x205F || n == 0x3000
}

/// A text without the white space at its ends.
pub open spec fn trimmed_text(s: Seq<char>) -> Seq<char>
    decreases s.len(),
{
    if s.len() > 0 && white_space(s[0]) {
        trimmed_text(s.drop_first())
    } else if s.len() > 0 && white_space(s.last()) {
        trimmed_text(s.drop_last())
    } else {
        s
    }
}

/// Calls `str::trim`: the text without the characters at its ends that Unicode lists as
/// `White_Space`.
#[verifier::external_body]
pub(crate) fn trimmed(s: &str) -> (r: String)
    ensures
        r@ == trimmed_text(s@),
{
    s.trim().to_string()
}

/// The lines from `from` on that hold more than white space.
pub open spec fn filled_lines(lines: Seq<Seq<char>>, from: int, n: int) -> int
    decreases n,
{
    if n <= from || n <= 0 {
        0
    } else {
        filled_lines(lines, from, n - 1) + (if trimmed_text(lines[n - 1]).len() > 0 {
            1int
        } else {
            0int
        })
    }
}

fn count_filled(lines: &Vec<String>, from: usize) -> (r: usize)
    ensures
        r == filled_lines(texts(lines@), from as int, lines@.len() as int),
        r <= lines.len(),
        from <= lines.len() ==> r <= lines.len() - from,
{
    let ghost lm = texts(lines@);
    let mut r: usize = 0;
    let mut i: usize = from;
    while i < lines.len()
        invariant
            from <= i,
            lm == texts(lines@),
            r == filled_lines(lm, from as int, i as int),
            r <= i - from,
            i <= lines.len() || i == from,
        decreases lines.len() - i,
    {
        assert(lm[i as int] == lines[i as int]@);
        let t = trimmed(&lines[i]);
        if t.as_str().unicode_len() > 0 {
            r += 1;
        }
        i += 1;
    }
    assert(from > lines.len() ==> filled_lines(lm, from as int, lines@.len() as int) == 0);
    r
}

/// The number of data rows of a file with a header line.
pub fn count_csv_rows(lines: &Vec<String>) -> (r: usize)
    ensures
        r == filled_lines(texts(lines@), 1, lines@.len() as int),
{
    count_filled(lines, 1)
}

/// The number of records of a file with one record per line; the first line must hold one.
pub fn count_jsonl_rows(lines: &Vec<String>, path: &str) -> (r: Result<usize, Problem>)
    ensures
        if lines.len() == 0 || trimmed_text(lines[0]@).len() == 0 {
            problem_of(r) == Some(said("JSONL import file '"@ + path@ + "' is empty"@))
        } else {
            r is Ok && r->Ok_0 == 1 + filled_lines(texts(lines@), 1, lines@.len() as int)
        },
{
    if lines.len() == 0 {
        return Err(problem(join3("JSONL import file '", path, "' is empty")));
    }
    let t = trimmed(&lines[0]);
    if t.as_str().unicode_len() == 0 {
        return Err(problem(join3("JSONL import file '", path, "' is empty")));
    }
    let rest: usize = count_filled(lines, 1);
    Ok(1 + rest)
}

// ---------------------------------------------------------------------------
// Types of JSON records
// ---------------------------------------------------------------------------

/// The type of the column that holds a JSON value: of a list, that of its first item.
pub open spec fn json_type(v: JsonModel) -> ColumnTypeModel
    decreases v,
{
    match v {
        JsonModel::Bool(_) => ColumnTypeModel::Plain(ParquetDatatype::Boolean),
        JsonModel::Number { signed, unsigned, .. } => ColumnTypeModel::Plain(
            if signed || unsigned {
                ParquetDatatype::Int64
            } else {
                ParquetDatatype::Float64
            },
        ),
        JsonModel::Object(entries) => ColumnTypeModel::Struct(json_columns(entries)),
        JsonModel::Array(items) => ColumnTypeModel::List(
            Box::new(
                if items.len() == 0 {
                    ColumnTypeModel::Plain(ParquetDatatype::Utf8)
                } else {
                    json_type(items[0])
                },
            ),
        ),
        _ => ColumnTypeModel::Plain(ParquetDatatype::Utf8),
    }
}

/// The columns that hold the entries of a JSON object.
pub open spec fn json_columns(s: Seq<JsonEntryModel>) -> Seq<ColumnModel>
    decreases s,
{
    Seq::new(
        s.len(),
        |i: int|
            if 0 <= i < s.len() {
                ColumnModel { name: s[i].key, kind: json_type(s[i].value) }
            } else {
                arbitrary()
            },
    )
}

/// The type of the column that holds a JSON value.
pub fn json_value_to_arrow_type(v: &JsonValue) -> (r: ColumnType)
    ensures
        r.model() == json_type(v.model()),
    decreases v,
{
    match v {
        JsonValue::Bool(_) => ColumnType::Plain(ParquetDatatype::Boolean),
        JsonValue::Number { signed, unsigned, .. } => ColumnType::Plain(
            if *signed || *unsigned {
                ParquetDatatype::Int64
            } else {
                ParquetDatatype::Float64
            },
        ),
        JsonValue::Object(entries) => {
            let sub = entry_columns(entries);
            let r = ColumnType::Struct(sub);
            assert(r.model() == ColumnTypeModel::Struct(columns_model(sub@)));
            r
        },
        JsonValue::Array(items) => {
            assert(json_values_model(items@).len() == items@.len());
            let item: ColumnType = if items.len() == 0 {
                ColumnType::Plain(ParquetDatatype::Utf8)
            } else {
                assert(json_values_model(items@)[0] == items@[0].model());
                json_value_to_arrow_type(&items[0])
            };
            let r = ColumnType::List(Box::new(item));
            assert(r.model() == ColumnTypeModel::List(Box::new(item.model())));
            r
        },
        _ => ColumnType::Plain(ParquetDatatype::Utf8),
    }
}

fn entry_columns(entries: &Vec<JsonEntry>) -> (r: Vec<ColumnField>)
    ensures
        columns_model(r@) == json_columns(json_entries_model(entries@)),
    decreases entries,
{
    let ghost em = json_entries_model(entries@);
    let mut r: Vec<ColumnField> = Vec::new();
    let mut i: usize = 0;
    while i < entries.len()
        invariant
            i <= entries.len(),
            em == json_entries_model(entries@),
            r.len() == i,
            forall|j: int|
                0 <= j < i ==> (#[trigger] r[j]).model() == (ColumnModel {
                    name: em[j].key,
                    kind: json_type(em[j].value),
                }),
        decreases entries.len() - i,
    {
        let kind = json_value_to_arrow_type(&entries[i].value);
        let c = ColumnField { name: entries[i].key.clone(), kind };
        assert(c.model().kind == c.kind.model());
        assert(em[i as int].key == entries@[i as int].key@);
        r.push(c);
        i += 1;
    }
    assert(columns_model(r@) =~= json_columns(em));
    r
}

/// The problem of a record that is no object.
pub open spec fn no_object(path: Seq<char>) -> Seq<PartModel> {
    said(
        "import file '"@ + path + "': expected a JSON object at the top level of each record"@,
    )
}

/// The columns of a record, or the problem of a record that is no object.
pub open spec fn record_columns(v: JsonModel, path: Seq<char>) -> Result<
    Seq<ColumnModel>,
    Seq<PartModel>,
> {
    match v {
        JsonModel::Object(entries) => Ok(json_columns(entries)),
        _ => Err(no_object(path)),
    }
}

/// The columns of a record, or the problem of a record that is no object.
pub fn infer_schema_from_json_object(value: &JsonValue, path: &str) -> (r: Result<
    Vec<ColumnField>,
    Problem,
>)
    ensures
        match record_columns(value.model(), path@) {
            Ok(c) => r matches Ok(x) && columns_model(x@) == c,
            Err(m) => r matches Err(p) && p.model() == m,
        },
{
    match value {
        JsonValue::Object(entries) => Ok(entry_columns(entries)),
        _ => Err(
            problem(
                join3(
                    "import file '",
                    path,
                    "': expected a JSON object at the top level of each record",
                ),
            ),
        ),
    }
}

/// The columns of a file that holds a list of records, and how many there are; the first record
/// tells the columns.
pub open spec fn list_schema(records: Seq<JsonModel>, path: Seq<char>) -> Result<
    (Seq<ColumnModel>, int),
    Seq<PartModel>,
> {
    if records.len() == 0 {
        Err(said("JSON import file '"@ + path + "' is empty"@))
    } else {
        match record_columns(records[0], path) {
            Ok(c) => Ok((c, records.len() as int)),
            Err(m) => Err(m),
        }
    }
}

/// The columns and the number of rows of a file that holds an array of records.
pub fn json_schema(records: &Vec<JsonValue>, path: &str) -> (r: Result<
    (Vec<ColumnField>, usize),
    Problem,
>)
    ensures
        match list_schema(json_values_model(records@), path@) {
            Ok((c, n)) => r matches Ok((x, k)) && columns_model(x@) == c && k == n,
            Err(m) => r matches Err(p) && p.model() == m,
        },
{
    assert(json_values_model(records@).len() == records.len());
    if records.len() == 0 {
        return Err(problem(join3("JSON import file '", path, "' is empty")));
    }
    assert(json_values_model(records@)[0] == records@[0].model());
    match infer_schema_from_json_object(&records[0], path) {
        Ok(c) => Ok((c, records.len())),
        Err(p) => Err(p),
    }
}

/// The columns and the number of rows of a JSON file with the given text: what it holds as a list
/// of records, or why it holds none.
pub open spec fn json_file(content: Seq<char>, path: Seq<char>) -> Result<
    (Seq<ColumnModel>, int),
    Seq<PartModel>,
> {
    match json_list_of_text(content) {
        Ok(records) => list_schema(records, path),
        Err(e) => Err(said("could not parse JSON import file '"@ + path + "': "@ + e)),
    }
}

/// The columns and the number of rows of a JSON file with the given text.
pub fn read_json_schema(content: &str, path: &str) -> (r: Result<
    (Vec<ColumnField>, usize),
    Problem,
>)
    ensures
        match json_file(content@, path@) {
            Ok((c, n)) => r matches Ok((x, k)) && columns_model(x@) == c && k == n,
            Err(m) => r matches Err(p) && p.model() == m,
        },
{
    match parse_json_list(content) {
        Ok(records) => json_schema(&records, path),
        Err(e) => Err(problem(join4("could not parse JSON import file '", path, "': ", &e))),
    }
}

/// The columns and the number of rows of a file with the given lines, a record each: the first
/// line, without white space at its ends, tells the columns.
pub open spec fn jsonl_file(lines: Seq<Seq<char>>, path: Seq<char>) -> Result<
    (Seq<ColumnModel>, int),
    Seq<PartModel>,
> {
    if lines.len() == 0 || trimmed_text(lines[0]).len() == 0 {
        Err(said("JSONL import file '"@ + path + "' is empty"@))
    } else {
        match json_of_text(trimmed_text(lines[0])) {
            Err(e) => Err(said("could not parse first line of JSONL '"@ + path + "': "@ + e)),
            Ok(first) => match record_columns(first, path) {
                Ok(c) => Ok((c, 1 + filled_lines(lines, 1, lines.len() as int))),
                Err(m) => Err(m),
            },
        }
    }
}

/// The columns and the number of rows of a file with the given lines, a record each.
pub fn read_jsonl_schema(lines: &Vec<String>, path: &str) -> (r: Result<
    (Vec<ColumnField>, usize),
    Problem,
>)
    ensures
        match jsonl_file(texts(lines@), path@) {
            Ok((c, n)) => r matches Ok((x, k)) && columns_model(x@) == c && k == n,
            Err(m) => r matches Err(p) && p.model() == m,
        },
{
    assert(texts(lines@).len() == lines.len());
    if lines.len() > 0 {
        assert(texts(lines@)[0] == lines[0]@);
    }
    let total_rows = count_jsonl_rows(lines, path)?;
    let first = match parse_json(&trimmed(&lines[0])) {
        Ok(v) => v,
        Err(e) => {
            return Err(
                problem(join4("could not parse first line of JSONL '", path, "': ", &e)),
            );
        },
    };
    let columns = infer_schema_from_json_object(&first, path)?;
    Ok((columns, total_rows))
}

/// The records of a JSON file with the given text, each on a line of its own, or why there are
/// none.
pub open spec fn record_lines(content: Seq<char>, path: Seq<char>) -> Result<
    Seq<u8>,
    Seq<PartModel>,
> {
    match json_list_of_text(content) {
        Err(e) => Err(said("JSON parse '"@ + path + "': "@ + e)),
        Ok(records) => if records.len() == 0 {
            Err(said("JSON import file '"@ + path + "' is empty"@))
        } else {
            Ok(json_lines_of(records, records.len() as int))
        },
    }
}

/// The records of a JSON file with the given text, each on a line of its own.
pub fn json_to_lines(content: &str, path: &str) -> (r: Result<Vec<u8>, Problem>)
    ensures
        match record_lines(content@, path@) {
            Ok(b) => r matches Ok(x) && x@ == b,
            Err(m) => r matches Err(p) && p.model() == m,
        },
{
    match list_to_lines(content) {
        Ok(Some(b)) => Ok(b),
        Ok(None) => Err(problem(join3("JSON import file '", path, "' is empty"))),
        Err(e) => Err(problem(join4("JSON parse '", path, "': ", &e))),
    }
}

// ---------------------------------------------------------------------------
// Columns
// ---------------------------------------------------------------------------

/// The type of a column of a file, as far as field types depend on it.
#[derive(Debug, Clone, Copy, PartialEq, Eq, Structural)]
pub enum FileType {
    Integer,
    Float,
    Boolean,
    Date,
    Timestamp,
    Struct,
    List,
    Other,
}

impl FileType {
    /// The type of the field that stands for such a column.
    pub open spec fn as_field(self) -> FieldType {
        match self {
            FileType::Integer => FieldType::Number,
            FileType::Float => FieldType::Number,
            FileType::Boolean => FieldType::Boolean,
            FileType::Date => FieldType::Date,
            FileType::Timestamp => FieldType::DateTime,
            FileType::Struct => FieldType::Object,
            FileType::List => FieldType::List,
            FileType::Other => FieldType::String,
        }
    }

    /// The type of the field that stands for such a column.
    pub fn field_type(&self) -> (r: FieldType)
        ensures
            r == self.as_field(),
    {
        match self {
            FileType::Integer => FieldType::Number,
            FileType::Float => FieldType::Number,
            FileType::Boolean => FieldType::Boolean,
            FileType::Date => FieldType::Date,
            FileType::Timestamp => FieldType::DateTime,
            FileType::Struct => FieldType::Object,
            FileType::List => FieldType::List,
            FileType::Other => FieldType::String,
        }
    }
}

/// The type of a column of records, as far as field types depend on it.
pub open spec fn file_type_of(kind: ColumnTypeModel) -> FileType {
    match kind {
        ColumnTypeModel::Struct(_) => FileType::Struct,
        ColumnTypeModel::List(_) => FileType::List,
        ColumnTypeModel::Union(_) => FileType::Other,
        ColumnTypeModel::Plain(p) => match p {
            ParquetDatatype::Float32 | ParquetDatatype::Float64 => FileType::Float,
            ParquetDatatype::Utf8 => FileType::Other,
            ParquetDatatype::Boolean => FileType::Boolean,
            ParquetDatatype::Date32 => FileType::Date,
            ParquetDatatype::TimestampMs | ParquetDatatype::TimestampUs => FileType::Timestamp,
            _ => FileType::Integer,
        },
    }
}

/// The type of a column of records, as far as field types depend on it.
pub fn record_file_type(kind: &ColumnType) -> (r: FileType)
    ensures
        r == file_type_of(kind.model()),
{
    match kind {
        ColumnType::Struct(_) => FileType::Struct,
        ColumnType::List(_) => FileType::List,
        ColumnType::Union(_) => FileType::Other,
        ColumnType::Plain(p) => match *p {
            ParquetDatatype::Float32 | ParquetDatatype::Float64 => FileType::Float,
            ParquetDatatype::Utf8 => FileType::Other,
            ParquetDatatype::Boolean => FileType::Boolean,
            ParquetDatatype::Date32 => FileType::Date,
            ParquetDatatype::TimestampMs | ParquetDatatype::TimestampUs => FileType::Timestamp,
            _ => FileType::Integer,
        },
    }
}

/// A column of a file.
#[derive(Debug)]
pub struct FileColumn {
    pub name: String,
    pub kind: FileType,
}

/// The names of the columns of a file.
pub open spec fn column_names(s: Seq<FileColumn>) -> Seq<Seq<char>> {
    Seq::new(s.len(), |i: int| s[i].name@)
}

/// True when an import takes all columns that it does not exclude.
pub open spec fn takes_all(fields: Seq<Seq<char>>) -> bool {
    fields.len() == 0 || (fields.len() == 1 && fields[0] == "*"@)
}

/// True when an import excludes a column.
pub open spec fn excludes(exclude: Option<Seq<Seq<char>>>, name: Seq<char>) -> bool {
    exclude is Some && exclude->0.contains(name)
}

/// True when an import takes a column.
pub open spec fn takes(spec: ImportSpecModel, name: Seq<char>) -> bool {
    !excludes(spec.exclude, name) && (takes_all(spec.fields) || spec.fields.contains(name))
}

fn takes_every(fields: &Vec<String>) -> (r: bool)
    ensures
        r == takes_all(texts(fields@)),
{
    if fields.len() == 1 {
        assert(texts(fields@)[0] == fields[0]@);
    }
    fields.len() == 0 || (fields.len() == 1 && same_text(&fields[0], "*"))
}

fn is_excluded(exclude: &Option<Vec<String>>, name: &str) -> (r: bool)
    ensures
        r == excludes(
            match *exclude {
                Some(v) => Some(texts(v@)),
                None => None,
            },
            name@,
        ),
{
    match exclude {
        Some(v) => holds_text(v, name),
        None => false,
    }
}

fn is_taken(spec: &ImportSpec, name: &str) -> (r: bool)
    ensures
        r == takes(spec.model(), name@),
{
    !is_excluded(&spec.exclude, name) && (takes_every(&spec.fields) || holds_text(
        &spec.fields,
        name,
    ))
}

/// The positions of the columns among the first `n` that an import takes.
pub open spec fn taken_positions(names: Seq<Seq<char>>, spec: ImportSpecModel, n: int) -> Seq<usize>
    decreases n,
{
    if n <= 0 {
        Seq::empty()
    } else if takes(spec, names[n - 1]) {
        taken_positions(names, spec, n - 1).push((n - 1) as usize)
    } else {
        taken_positions(names, spec, n - 1)
    }
}

/// The positions of the columns that an import takes.
pub fn project_batch(names: &Vec<String>, spec: &ImportSpec) -> (r: Vec<usize>)
    ensures
        r@ == taken_positions(texts(names@), spec.model(), names@.len() as int),
{
    let ghost nm = texts(names@);
    let mut r: Vec<usize> = Vec::new();
    let mut i: usize = 0;
    while i < names.len()
        invariant
            i <= names.len(),
            nm == texts(names@),
            r@ == taken_positions(nm, spec.model(), i as int),
        decreases names.len() - i,
    {
        assert(nm[i as int] == names[i as int]@);
        if is_taken(spec, &names[i]) {
            r.push(i);
        }
        i += 1;
    }
    r
}

/// The field that stands for an imported column.
pub open spec fn imported_field(c: FileColumn) -> FieldModel {
    FieldModel {
        name: c.name@,
        field_type: Some(c.kind.as_field()),
        imported_taint: true,
        ..default_field_model()
    }
}

/// The fields of the columns among the first `n` that an import takes.
pub open spec fn imported_fields(columns: Seq<FileColumn>, spec: ImportSpecModel, n: int) -> Seq<
    FieldModel,
>
    decreases n,
{
    if n <= 0 {
        Seq::empty()
    } else if takes(spec, columns[n - 1].name@) {
        imported_fields(columns, spec, n - 1).push(imported_field(columns[n - 1]))
    } else {
        imported_fields(columns, spec, n - 1)
    }
}

/// True when a requested column must be there and is not.
pub open spec fn unmet(columns: Seq<FileColumn>, spec: ImportSpecModel, name: Seq<char>) -> bool {
    !takes_all(spec.fields) && name != "*"@ && !excludes(spec.exclude, name) && !column_names(
        columns,
    ).contains(name)
}

/// The first of the first `n` texts that `unmet` holds of.
pub open spec fn first_unmet(columns: Seq<FileColumn>, spec: ImportSpecModel, n: int) -> Option<int>
    decreases n,
{
    if n <= 0 {
        None
    } else {
        match first_unmet(columns, spec, n - 1) {
            Some(i) => Some(i),
            None => if unmet(columns, spec, spec.fields[n - 1]) {
                Some(n - 1)
            } else {
                None
            },
        }
    }
}

/// The problem of a requested column that the file lacks.
pub open spec fn missing_column(columns: Seq<FileColumn>, name: Seq<char>) -> Seq<PartModel> {
    said(
        "import column '"@ + name + "' not found in file schema (available: "@ + listed(
            column_names(columns),
            columns.len() as int,
        ) + ")"@,
    )
}

fn list_names(columns: &Vec<FileColumn>) -> (r: String)
    ensures
        r@ == listed(column_names(columns@), columns@.len() as int),
{
    let ghost nm = column_names(columns@);
    if columns.len() == 0 {
        let r = "".to_owned();
        proof {
            reveal_strlit("");
            assert(r@ =~= listed(nm, 0));
        }
        return r;
    }
    let mut r: String = columns[0].name.clone();
    let mut i: usize = 1;
    assert(r@ == listed(nm, 1));
    while i < columns.len()
        invariant
            1 <= i <= columns.len(),
            nm == column_names(columns@),
            r@ == listed(nm, i as int),
        decreases columns.len() - i,
    {
        assert(nm[i as int] == columns[i as int].name@);
        r = join3(&r, ", ", &columns[i].name);
        i += 1;
    }
    r
}

fn has_column(columns: &Vec<FileColumn>, name: &str) -> (r: bool)
    ensures
        r == column_names(columns@).contains(name@),
{
    let ghost nm = column_names(columns@);
    let mut i: usize = 0;
    while i < columns.len()
        invariant
            i <= columns.len(),
            nm == column_names(columns@),
            forall|j: int| 0 <= j < i ==> #[trigger] nm[j] != name@,
        decreases columns.len() - i,
    {
        assert(nm[i as int] == columns[i as int].name@);
        if same_text(&columns[i].name, name) {
            return true;
        }
        i += 1;
    }
    false
}

proof fn lemma_unmet_stays(columns: Seq<FileColumn>, spec: ImportSpecModel, k: int, n: int)
    requires
        0 <= k <= n,
        first_unmet(columns, spec, k) is Some,
    ensures
        first_unmet(columns, spec, n) == first_unmet(columns, spec, k),
    decreases n - k,
{
    if k < n {
        lemma_unmet_stays(columns, spec, k, n - 1);
    }
}

/// The fields of the columns that an import takes, or the problem of a requested column that the
/// file lacks.
pub fn project_columns(columns: &Vec<FileColumn>, spec: &ImportSpec) -> (r: Result<
    Vec<Field>,
    Problem,
>)
    ensures
        match first_unmet(columns@, spec.model(), spec.fields@.len() as int) {
            Some(i) => problem_of(r) == Some(missing_column(columns@, spec.model().fields[i])),
            None => r is Ok && fields_model(r->Ok_0@) == imported_fields(
                columns@,
                spec.model(),
                columns@.len() as int,
            ),
        },
{
    let ghost sm = spec.model();
    let mut r: Vec<Field> = Vec::new();
    let mut i: usize = 0;
    assert(fields_model(r@) =~= imported_fields(columns@, sm, 0));
    while i < columns.len()
        invariant
            i <= columns.len(),
            sm == spec.model(),
            fields_model(r@) == imported_fields(columns@, sm, i as int),
        decreases columns.len() - i,
    {
        let c = &columns[i];
        if is_taken(spec, &c.name) {
            let mut f: Field = Default::default();
            f.name = c.name.clone();
            f.field_type = Some(c.kind.field_type());
            f.imported_taint = true;
            assert(f.model() == imported_field(*c));
            let ghost before = r@;
            r.push(f);
            assert(fields_model(r@) =~= fields_model(before).push(f.model()));
        }
        i += 1;
    }
    let every = takes_every(&spec.fields);
    let mut k: usize = 0;
    while k < spec.fields.len()
        invariant
            k <= spec.fields.len(),
            sm == spec.model(),
            every == takes_all(sm.fields),
            first_unmet(columns@, sm, k as int) is None,
        decreases spec.fields.len() - k,
    {
        let name = &spec.fields[k];
        assert(sm.fields[k as int] == name@);
        if !every && !same_text(name, "*") && !is_excluded(&spec.exclude, name) && !has_column(
            columns,
            name,
        ) {
            let all = list_names(columns);
            proof {
                lemma_unmet_stays(columns@, sm, k + 1, spec.fields@.len() as int);
            }
            return Err(
                problem(
                    join5(
                        "import column '",
                        name,
                        "' not found in file schema (available: ",
                        &all,
                        ")",
                    ),
                ),
            );
        }
        k += 1;
    }
    Ok(r)
}

/// The first field of the first `n` imported ones whose name a field of the dataset has.
pub open spec fn first_collision(imported: Seq<FieldModel>, data: Seq<FieldModel>, n: int) -> Option<
    int,
>
    decreases n,
{
    if n <= 0 {
        None
    } else {
        match first_collision(imported, data, n - 1) {
            Some(i) => Some(i),
            None => if declares(data, imported[n - 1].name) {
                Some(n - 1)
            } else {
                None
            },
        }
    }
}

/// True when some field has the given name.
pub open spec fn declares(data: Seq<FieldModel>, name: Seq<char>) -> bool {
    exists|i: int| 0 <= i < data.len() && (#[trigger] data[i]).name == name
}

/// The problem of a declared field with the name of an imported column.
pub open spec fn colliding_name(dataset: Seq<char>, name: Seq<char>) -> Seq<PartModel> {
    said(
        "dataset '"@ + dataset + "': `data.fields` entry '"@ + name
            + "' collides with imported column name; rename the synthetic field or exclude the imported column"@,
    )
}

/// A dataset with the columns of its import in front of its own fields.
pub open spec fn with_import(
    ds: SyntheticDatasetModel,
    columns: Seq<FileColumn>,
    total_rows: usize,
) -> Result<SyntheticDatasetModel, Seq<PartModel>> {
    match ds.import {
        None => Ok(ds),
        Some(spec) => match first_unmet(columns, spec, spec.fields.len() as int) {
            Some(i) => Err(missing_column(columns, spec.fields[i])),
            None => {
                let fields = imported_fields(columns, spec, columns.len() as int);
                match first_collision(fields, ds.data, fields.len() as int) {
                    Some(i) => Err(colliding_name(ds.name, fields[i].name)),
                    None => Ok(
                        SyntheticDatasetModel {
                            import: Some(ImportSpecModel { total_rows, ..spec }),
                            data: fields + ds.data,
                            ..ds
                        },
                    ),
                }
            },
        },
    }
}

pub(crate) fn is_declared(data: &Vec<Field>, name: &str) -> (r: bool)
    ensures
        r == declares(fields_model(data@), name@),
{
    let ghost dm = fields_model(data@);
    let mut i: usize = 0;
    while i < data.len()
        invariant
            i <= data.len(),
            dm == fields_model(data@),
            forall|j: int| 0 <= j < i ==> (#[trigger] dm[j]).name != name@,
        decreases data.len() - i,
    {
        assert(dm[i as int] == data[i as int].model());
        if same_text(&data[i].name, name) {
            return true;
        }
        i += 1;
    }
    false
}

proof fn lemma_collision_stays(imported: Seq<FieldModel>, data: Seq<FieldModel>, k: int, n: int)
    requires
        0 <= k <= n,
        first_collision(imported, data, k) is Some,
    ensures
        first_collision(imported, data, n) == first_collision(imported, data, k),
    decreases n - k,
{
    if k < n {
        lemma_collision_stays(imported, data, k, n - 1);
    }
}

/// Puts the columns of an import in front of the fields of a dataset.
pub fn merge_import(ds: &SyntheticDataset, columns: &Vec<FileColumn>, total_rows: usize) -> (r:
    Result<SyntheticDataset, Problem>)
    ensures
        match r {
            Ok(d) => with_import(ds.model(), columns@, total_rows) == Ok::<
                SyntheticDatasetModel,
                Seq<PartModel>,
            >(d.model()),
            Err(p) => with_import(ds.model(), columns@, total_rows) == Err::<
                SyntheticDatasetModel,
                Seq<PartModel>,
            >(p.model()),
        },
{
    match &ds.import {
        None => Ok(ds.clone()),
        Some(spec) => {
            assert(ds.model().import == Some(spec.model()));
            let mut fields = match project_columns(columns, spec) {
                Ok(f) => f,
                Err(p) => {
                    return Err(p);
                },
            };
            let ghost fm = fields_model(fields@);
            let ghost dm = fields_model(ds.data@);
            let mut i: usize = 0;
            while i < fields.len()
                invariant
                    i <= fields.len(),
                    fm == fields_model(fields@),
                    dm == fields_model(ds.data@),
                    ds.model().import == Some(spec.model()),
                    fm == imported_fields(columns@, spec.model(), columns@.len() as int),
                    first_unmet(columns@, spec.model(), spec.fields@.len() as int) is None,
                    first_collision(fm, dm, i as int) is None,
                decreases fields.len() - i,
            {
                assert(fm[i as int] == fields[i as int].model());
                if is_declared(&ds.data, &fields[i].name) {
                    proof {
                        lemma_collision_stays(fm, dm, i + 1, fm.len() as int);
                    }
                    return Err(
                        problem(
                            join5(
                                "dataset '",
                                &ds.name,
                                "': `data.fields` entry '",
                                &fields[i].name,
                                "' collides with imported column name; rename the synthetic field or exclude the imported column",
                            ),
                        ),
                    );
                }
                i += 1;
            }
            let mut d = ds.clone();
            let mut s = spec.clone();
            s.total_rows = total_rows;
            assert(s.model() == (ImportSpecModel { total_rows, ..spec.model() }));
            d.import = Some(s);
            let mut rest = crate::models::clone_fields(&ds.data);
            let ghost own = rest@;
            let ghost front = fields@;
            fields.append(&mut rest);
            assert(fields_model(fields@) =~= fm + dm) by {
                assert forall|j: int| 0 <= j < fields@.len() implies #[trigger] fields_model(
                    fields@,
                )[j] == (fm + dm)[j] by {
                    if j < front.len() {
                        assert(fields@[j] == front[j]);
                    } else {
                        assert(fields@[j] == own[j - front.len()]);
                        assert(fields_model(own)[j - front.len()] == dm[j - front.len()]);
                    }
                }
            }
            d.data = fields;
            Ok(d)
        },
    }
}

/// The header of an imported file.
#[derive(Debug)]
pub struct ImportHeader {
    pub columns: Vec<FileColumn>,
    pub total_rows: usize,
}

/// The first `n` datasets with their imports merged, or the first problem.
pub open spec fn merged_headers(
    datasets: Seq<DatasetEntryModel>,
    headers: Seq<ImportHeader>,
    n: int,
) -> Result<Seq<DatasetEntryModel>, Seq<PartModel>>
    decreases n,
{
    if n <= 0 {
        Ok(Seq::empty())
    } else {
        match merged_headers(datasets, headers, n - 1) {
            Err(p) => Err(p),
            Ok(before) => match with_import(
                datasets[n - 1].dataset,
                headers[n - 1].columns@,
                headers[n - 1].total_rows,
            ) {
                Err(p) => Err(p),
                Ok(dataset) => Ok(
                    before.push(DatasetEntryModel { path: datasets[n - 1].path, dataset }),
                ),
            },
        }
    }
}

proof fn lemma_header_error_stays(
    datasets: Seq<DatasetEntryModel>,
    headers: Seq<ImportHeader>,
    k: int,
    n: int,
)
    requires
        0 <= k <= n,
        merged_headers(datasets, headers, k) is Err,
    ensures
        merged_headers(datasets, headers, n) == merged_headers(datasets, headers, k),
    decreases n - k,
{
    if k < n {
        lemma_header_error_stays(datasets, headers, k, n - 1);
    }
}

/// Merges the headers of imported files into the datasets; the header of a dataset without an
/// import does not matter.
pub fn load_import_headers(datasets: &Vec<DatasetEntry>, headers: &Vec<ImportHeader>) -> (r: Result<
    Vec<DatasetEntry>,
    Problem,
>)
    requires
        headers.len() == datasets.len(),
    ensures
        match r {
            Ok(d) => merged_headers(entries_model(datasets@), headers@, datasets@.len() as int)
                == Ok::<Seq<DatasetEntryModel>, Seq<PartModel>>(entries_model(d@)),
            Err(p) => merged_headers(entries_model(datasets@), headers@, datasets@.len() as int)
                == Err::<Seq<DatasetEntryModel>, Seq<PartModel>>(p.model()),
        },
{
    let ghost em = entries_model(datasets@);
    let mut r: Vec<DatasetEntry> = Vec::new();
    let mut i: usize = 0;
    assert(entries_model(r@) =~= Seq::empty());
    while i < datasets.len()
        invariant
            i <= datasets.len(),
            headers.len() == datasets.len(),
            em == entries_model(datasets@),
            merged_headers(em, headers@, i as int) == Ok::<
                Seq<DatasetEntryModel>,
                Seq<PartModel>,
            >(entries_model(r@)),
        decreases datasets.len() - i,
    {
        assert(em[i as int] == datasets[i as int].model());
        match merge_import(&datasets[i].dataset, &headers[i].columns, headers[i].total_rows) {
            Ok(dataset) => {
                let e = DatasetEntry { path: datasets[i].path.clone(), dataset };
                let ghost before = r@;
                r.push(e);
                assert(entries_model(r@) =~= entries_model(before).push(e.model()));
            },
            Err(p) => {
                proof {
                    lemma_header_error_stays(em, headers@, i + 1, datasets@.len() as int);
                }
                return Err(p);
            },
        }
        i += 1;
    }
    Ok(r)
}

/// The names of the imported columns among the first `n` fields.
pub open spec fn imported_names(data: Seq<FieldModel>, n: int) -> Seq<Seq<char>>
    decreases n,
{
    if n <= 0 {
        Seq::empty()
    } else if data[n - 1].imported_taint {
        imported_names(data, n - 1).push(data[n - 1].name)
    } else {
        imported_names(data, n - 1)
    }
}

/// The names of the imported columns of a dataset.
pub fn imported_column_names(dataset: &SyntheticDataset) -> (r: Vec<String>)
    ensures
        texts(r@) == imported_names(dataset.model().data, dataset.model().data.len() as int),
{
    let ghost dm = fields_model(dataset.data@);
    let mut r: Vec<String> = Vec::new();
    let mut i: usize = 0;
    assert(texts(r@) =~= imported_names(dm, 0));
    while i < dataset.data.len()
        invariant
            i <= dataset.data.len(),
            dm == fields_model(dataset.data@),
            texts(r@) == imported_names(dm, i as int),
        decreases dataset.data.len() - i,
    {
        assert(dm[i as int] == dataset.data[i as int].model());
        if dataset.data[i].imported_taint {
            let ghost before = r@;
            r.push(dataset.data[i].name.clone());
            assert(texts(r@) =~= texts(before).push(dm[i as int].name));
        }
        i += 1;
    }
    r
}

/// Imported fields are all taken from the file, and in front of the declared ones.
pub proof fn law_imported_columns_lead(
    ds: SyntheticDatasetModel,
    columns: Seq<FileColumn>,
    total_rows: usize,
)
    requires
        ds.import is Some,
        with_import(ds, columns, total_rows) is Ok,
    ensures
        ({
            let d = with_import(ds, columns, total_rows)->Ok_0;
            let k = d.data.len() - ds.data.len();
            &&& 0 <= k
            &&& d.data.subrange(k, d.data.len() as int) == ds.data
            &&& forall|i: int| 0 <= i < k ==> (#[trigger] d.data[i]).imported_taint
            &&& forall|i: int, j: int|
                0 <= i < k && k <= j < d.data.len() ==> (#[trigger] d.data[i]).name != (
                #[trigger] d.data[j]).name
        }),
{
    let d = with_import(ds, columns, total_rows)->Ok_0;
    let fields = imported_fields(columns, ds.import->0, columns.len() as int);
    let k = fields.len() as int;
    assert(d.data.subrange(k, d.data.len() as int) =~= ds.data);
    assert forall|i: int| 0 <= i < k implies (#[trigger] d.data[i]).imported_taint by {
        lemma_imported_fields(columns, ds.import->0, columns.len() as int, i);
    }
    assert forall|i: int, j: int| 0 <= i < k && k <= j < d.data.len() implies (
    #[trigger] d.data[i]).name != (#[trigger] d.data[j]).name by {
        lemma_no_collision(fields, ds.data, k, i);
        assert(ds.data[j - k] == d.data[j]);
        assert(fields[i] == d.data[i]);
    }
}

proof fn lemma_imported_fields(columns: Seq<FileColumn>, spec: ImportSpecModel, n: int, i: int)
    requires
        0 <= i < imported_fields(columns, spec, n).len(),
    ensures
        imported_fields(columns, spec, n)[i].imported_taint,
    decreases n,
{
    if n > 0 && i < imported_fields(columns, spec, n - 1).len() {
        lemma_imported_fields(columns, spec, n - 1, i);
    }
}

proof fn lemma_no_collision(imported: Seq<FieldModel>, data: Seq<FieldModel>, n: int, i: int)
    requires
        first_collision(imported, data, n) is None,
        0 <= i < n,
    ensures
        !declares(data, imported[i].name),
    decreases n,
{
    if i < n - 1 {
        lemma_no_collision(imported, data, n - 1, i);
    }
}

// ---------------------------------------------------------------------------
// The hash ring
// ---------------------------------------------------------------------------

/// A whole number, wrapped to 64 bits.
pub open spec fn wrap64(x: int) -> u64 {
    (x % 0x1_0000_0000_0000_0000) as u64
}

/// One scrambling step: the number mixed with itself and multiplied.
pub open spec fn scrambled(z: u64, shift: u64, factor: int) -> u64 {
    wrap64((z ^ (z >> shift)) * factor)
}

/// The place of a row on the ring, in units of 2 to the power of -53.
pub open spec fn ring_place(seed: u64, row: u64) -> u64 {
    let start = wrap64((seed ^ wrap64(row * 0x9e3779b97f4a7c15)) + 0x9e3779b97f4a7c15);
    let first = scrambled(start, 30, 0xbf58476d1ce4e5b9);
    let second = scrambled(first, 27, 0x94d049bb133111eb);
    (second ^ (second >> 31)) >> 11
}

/// The place of a row on the ring, in units of 2 to the power of -53: the row number scrambled by
/// the seed.
pub fn hash_row(seed: u64, row_index: usize) -> (r: u64)
    ensures
        r == ring_place(seed, row_index as u64),
        r < 0x20_0000_0000_0000,
{
    let step: u64 = 0x9e3779b97f4a7c15;
    let start: u64 = (seed ^ (row_index as u64).wrapping_mul(step)).wrapping_add(step);
    let first: u64 = (start ^ (start >> 30)).wrapping_mul(0xbf58476d1ce4e5b9);
    let second: u64 = (first ^ (first >> 27)).wrapping_mul(0x94d049bb133111eb);
    let z: u64 = second ^ (second >> 31);
    proof {
        assert(z >> 11 < 0x20_0000_0000_0000u64) by (bit_vector);
    }
    z >> 11
}

/// The places of the first `n` rows.
pub fn hash_rows(seed: u64, n: usize) -> (r: Vec<u64>)
    ensures
        r@ == Seq::new(n as nat, |i: int| ring_place(seed, i as u64)),
{
    let mut r: Vec<u64> = Vec::new();
    let mut i: usize = 0;
    while i < n
        invariant
            i <= n,
            r.len() == i,
            forall|j: int| 0 <= j < i ==> #[trigger] r[j] == ring_place(seed, j as u64),
        decreases n - i,
    {
        r.push(hash_row(seed, i));
        i += 1;
    }
    assert(r@ =~= Seq::new(n as nat, |i: int| ring_place(seed, i as u64)));
    r
}

/// A place on the ring is within the bounds: the start counts, the end does not.
pub open spec fn on_ring(place: Num, ring: RingBounds) -> bool {
    ring.start.at_most(place) && place.below(ring.end)
}

/// Which rows are within the bounds of a ring.
pub fn filter_ring(places: &Vec<Num>, ring: &RingBounds) -> (r: Vec<bool>)
    ensures
        r@ == Seq::new(places@.len(), |i: int| on_ring(places@[i], *ring)),
{
    let mut r: Vec<bool> = Vec::new();
    let mut i: usize = 0;
    while i < places.len()
        invariant
            i <= places.len(),
            r.len() == i,
            forall|j: int| 0 <= j < i ==> #[trigger] r[j] == on_ring(places@[j], *ring),
        decreases places.len() - i,
    {
        r.push(ring.start.le(places[i]) && places[i].lt(ring.end));
        i += 1;
    }
    assert(r@ =~= Seq::new(places@.len(), |i: int| on_ring(places@[i], *ring)));
    r
}

/// Rings that meet end to end split the rows between them: each row is on exactly one.
pub proof fn law_adjacent_rings_split_rows(place: Num, low: RingBounds, high: RingBounds)
    requires
        low.end == high.start,
        low.start.at_most(low.end) && low.end.at_most(high.end),
    ensures
        on_ring(place, RingBounds { start: low.start, end: high.end }) == (on_ring(place, low)
            || on_ring(place, high)),
        !(on_ring(place, low) && on_ring(place, high)),
{
}

} // verus!
