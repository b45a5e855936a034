//! Laying a batch out for writing.
use std::sync::Arc;

use arrow::array::{
    Array, ArrayRef, Int32Array, RecordBatch, StringArray, StructArray, UInt32Array, UnionArray,
};
use arrow::buffer::ScalarBuffer;
use arrow::compute::take;
use arrow::datatypes::{
    DataType, Field as ArrowField, Fields, Schema as ArrowSchema, UnionFields, UnionMode,
};
use fakeset::message::{Part, Problem};
use fakeset::models::{Field, FieldType, FlattenStrategy, Format, ParquetDatatype};
use fakeset::output::{
    active_cases, case_rows, filter_hidden_columns, output_file_name, prepare_output_batch,
    OutSource,
};
use fakeset::schema::{ColumnField, ColumnType};

/// The column type that an Arrow type stands for.
fn kind_of(dt: &DataType) -> ColumnType {
    let fields = |fs: &Fields| -> Vec<ColumnField> { fs.iter().map(|f| column_of(f)).collect() };
    match dt {
        DataType::Int32 => ColumnType::Plain(ParquetDatatype::Int32),
        DataType::Float64 => ColumnType::Plain(ParquetDatatype::Float64),
        DataType::Utf8 => ColumnType::Plain(ParquetDatatype::Utf8),
        DataType::Struct(fs) => ColumnType::Struct(fields(fs)),
        DataType::Union(fs, _) => {
            ColumnType::Union(fs.iter().map(|(_, f)| column_of(f)).collect())
        }
        other => panic!("no column type for {other:?}"),
    }
}

fn column_of(f: &ArrowField) -> ColumnField {
    ColumnField { name: f.name().clone(), kind: kind_of(f.data_type()) }
}

fn union_of(col: &ArrayRef) -> &UnionArray {
    col.as_any().downcast_ref::<UnionArray>().expect("a union column")
}

/// Rows of a union as positions in the child of one case.
fn rows_of_case(u: &UnionArray, id: i8) -> UInt32Array {
    let ids: Vec<i8> = u.type_ids().to_vec();
    let offsets: Vec<i32> = u.offsets().expect("dense").to_vec();
    UInt32Array::from(case_rows(&ids, &offsets, id))
}

/// An array in portable form.
fn portable(col: &ArrayRef) -> ArrayRef {
    match col.data_type() {
        DataType::Union(fs, _) => {
            let u = union_of(col);
            let parts: Vec<(Arc<ArrowField>, ArrayRef)> = fs
                .iter()
                .map(|(id, f)| {
                    let a = portable(&take(u.child(id), &rows_of_case(u, id), None).unwrap());
                    (Arc::new(ArrowField::new(f.name(), a.data_type().clone(), true)), a)
                })
                .collect();
            Arc::new(StructArray::from(parts))
        }
        DataType::Struct(fs) => {
            let s = col.as_any().downcast_ref::<StructArray>().unwrap();
            let arrays: Vec<ArrayRef> = s.columns().iter().map(portable).collect();
            let fields: Vec<ArrowField> = fs
                .iter()
                .zip(&arrays)
                .map(|(f, a)| ArrowField::new(f.name(), a.data_type().clone(), true))
                .collect();
            Arc::new(StructArray::new(fields.into(), arrays, s.nulls().cloned()))
        }
        _ => col.clone(),
    }
}

fn case_id(u: &UnionArray, case: usize) -> i8 {
    let DataType::Union(fs, _) = u.data_type() else { panic!("a union type") };
    fs.iter().nth(case).unwrap().0
}

fn array_for(batch: &RecordBatch, source: OutSource) -> ArrayRef {
    match source {
        OutSource::Whole(i) => portable(batch.column(i)),
        OutSource::Entry { column, entry } => {
            let s = batch.column(column).as_any().downcast_ref::<StructArray>().unwrap();
            portable(s.column(entry))
        }
        OutSource::CaseEntry { column, case, entry } => {
            let u = union_of(batch.column(column));
            let id = case_id(u, case);
            let s = u.child(id).as_any().downcast_ref::<StructArray>().unwrap();
            portable(&take(s.column(entry), &rows_of_case(u, id), None).unwrap())
        }
        OutSource::Case { column, case } => {
            let u = union_of(batch.column(column));
            let id = case_id(u, case);
            take(u.child(id), &rows_of_case(u, id), None).unwrap()
        }
        OutSource::Tag(column) => {
            let u = union_of(batch.column(column));
            let DataType::Union(fs, _) = u.data_type() else { panic!("a union type") };
            let ids: Vec<i8> = fs.iter().map(|(id, _)| id).collect();
            let labels: Vec<String> = fs.iter().map(|(_, f)| f.name().clone()).collect();
            let active = active_cases(&u.type_ids().to_vec(), &ids);
            let tags: Vec<Option<String>> =
                active.iter().map(|c| c.map(|k| labels[k].clone())).collect();
            Arc::new(StringArray::from(tags))
        }
    }
}

/// Lays a batch out for writing.
fn lay_out(batch: &RecordBatch, fields: &[Field], format: Format) -> Result<RecordBatch, Problem> {
    let columns: Vec<ColumnField> = batch.schema().fields().iter().map(|f| column_of(f)).collect();
    let shown: Vec<String> =
        batch.schema().fields().iter().map(|f| format!("{:?}", f.data_type())).collect();
    let outs = prepare_output_batch(&columns, &shown, &fields.to_vec(), format)?;
    let mut out_fields = Vec::new();
    let mut arrays = Vec::new();
    for o in &outs {
        let a = array_for(batch, o.source);
        assert_eq!(format!("{:?}", kind_of(a.data_type())), format!("{:?}", o.kind));
        out_fields.push(ArrowField::new(&o.name, a.data_type().clone(), true));
        arrays.push(a);
    }
    Ok(RecordBatch::try_new(Arc::new(ArrowSchema::new(out_fields)), arrays).unwrap())
}

fn flatten_field(name: &str) -> Field {
    Field {
        name: name.into(),
        field_type: Some(FieldType::Variant),
        flatten: true,
        ..Default::default()
    }
}

fn flatten_field_strategy(name: &str, strategy: FlattenStrategy) -> Field {
    Field {
        flatten_strategy: Some(strategy),
        ..flatten_field(name)
    }
}

/// 2-row batch: `id` + a `detail` union with two object cases that **share** a field
/// name (`amount`) — the cross-case collision the `prefixed` strategy resolves.
fn flatten_union_collision_batch() -> RecordBatch {
    let mk_struct = |v: i32| -> ArrayRef {
        Arc::new(StructArray::from(vec![(
            Arc::new(ArrowField::new("amount", DataType::Int32, true)),
            Arc::new(Int32Array::from(vec![v])) as ArrayRef,
        )]))
    };
    let alpha = mk_struct(10);
    let beta = mk_struct(20);
    let union_fields: UnionFields = [
        (
            0_i8,
            Arc::new(ArrowField::new("alpha", alpha.data_type().clone(), false)),
        ),
        (
            1_i8,
            Arc::new(ArrowField::new("beta", beta.data_type().clone(), false)),
        ),
    ]
    .into_iter()
    .collect();
    let union = UnionArray::try_new(
        union_fields.clone(),
        ScalarBuffer::<i8>::from(vec![0, 1]),
        Some(ScalarBuffer::<i32>::from(vec![0, 0])),
        vec![alpha, beta],
    )
    .expect("build union");
    let schema = Arc::new(ArrowSchema::new(vec![
        ArrowField::new("id", DataType::Int32, false),
        ArrowField::new(
            "detail",
            DataType::Union(union_fields, UnionMode::Dense),
            false,
        ),
    ]));
    RecordBatch::try_new(
        schema,
        vec![Arc::new(Int32Array::from(vec![0, 1])), Arc::new(union)],
    )
    .expect("build batch")
}

fn col_names(batch: &RecordBatch) -> Vec<String> {
    batch
        .schema()
        .fields()
        .iter()
        .map(|f| f.name().clone())
        .collect()
}

/// 2-row batch: `id` + a `detail` dense union with two **object** cases —
/// row 0 = `alpha {a: Int32}`, row 1 = `beta {b: Utf8}`.
fn flatten_union_batch() -> RecordBatch {
    let alpha_struct: ArrayRef = Arc::new(StructArray::from(vec![(
        Arc::new(ArrowField::new("a", DataType::Int32, true)),
        Arc::new(Int32Array::from(vec![10])) as ArrayRef,
    )]));
    let beta_struct: ArrayRef = Arc::new(StructArray::from(vec![(
        Arc::new(ArrowField::new("b", DataType::Utf8, true)),
        Arc::new(StringArray::from(vec!["x"])) as ArrayRef,
    )]));
    let union_fields: UnionFields = [
        (
            0_i8,
            Arc::new(ArrowField::new(
                "alpha",
                alpha_struct.data_type().clone(),
                false,
            )),
        ),
        (
            1_i8,
            Arc::new(ArrowField::new(
                "beta",
                beta_struct.data_type().clone(),
                false,
            )),
        ),
    ]
    .into_iter()
    .collect();
    let type_ids = ScalarBuffer::<i8>::from(vec![0, 1]);
    let offsets = ScalarBuffer::<i32>::from(vec![0, 0]);
    let union = UnionArray::try_new(
        union_fields.clone(),
        type_ids,
        Some(offsets),
        vec![alpha_struct, beta_struct],
    )
    .expect("build union");
    let schema = Arc::new(ArrowSchema::new(vec![
        ArrowField::new("id", DataType::Int32, false),
        ArrowField::new(
            "detail",
            DataType::Union(union_fields, UnionMode::Dense),
            false,
        ),
    ]));
    RecordBatch::try_new(
        schema,
        vec![Arc::new(Int32Array::from(vec![0, 1])), Arc::new(union)],
    )
    .expect("build batch")
}

#[test]
fn flatten_union_pulls_case_fields_to_top_level() {
    let out = lay_out(
        &flatten_union_batch(),
        &[flatten_field("detail")],
        Format::Jsonl,
    )
    .unwrap();
    let sch = out.schema();
    let names: Vec<&str> = sch.fields().iter().map(|f| f.name().as_str()).collect();
    assert_eq!(
        names,
        vec!["id", "a", "b"],
        "case fields pulled up; `detail` gone"
    );
    let a = out.column_by_name("a").unwrap();
    let b = out.column_by_name("b").unwrap();
    assert!(a.is_valid(0) && !a.is_valid(1), "`a` only on the alpha row");
    assert!(!b.is_valid(0) && b.is_valid(1), "`b` only on the beta row");
}

/// The JSON writer must omit null keys so each row carries only its active
/// case's fields.
#[test]
fn flatten_union_jsonl_emits_per_row_keys() {
    let out = lay_out(
        &flatten_union_batch(),
        &[flatten_field("detail")],
        Format::Jsonl,
    )
    .unwrap();
    let mut buf = Vec::new();
    {
        let mut w = arrow::json::LineDelimitedWriter::new(&mut buf);
        w.write(&out).unwrap();
        w.finish().unwrap();
    }
    let text = String::from_utf8(buf).unwrap();
    let lines: Vec<&str> = text.lines().collect();
    assert_eq!(lines.len(), 2);
    assert!(
        lines[0].contains("\"a\"") && !lines[0].contains("\"b\""),
        "row 0 should carry only the alpha case's keys: {}",
        lines[0]
    );
    assert!(
        lines[1].contains("\"b\"") && !lines[1].contains("\"a\""),
        "row 1 should carry only the beta case's keys: {}",
        lines[1]
    );
}

#[test]
fn flatten_object_pulls_fields_to_top_level() {
    let id: ArrayRef = Arc::new(Int32Array::from(vec![0, 1]));
    let addr: ArrayRef = Arc::new(StructArray::from(vec![
        (
            Arc::new(ArrowField::new("street", DataType::Utf8, true)),
            Arc::new(StringArray::from(vec!["s1", "s2"])) as ArrayRef,
        ),
        (
            Arc::new(ArrowField::new("city", DataType::Utf8, true)),
            Arc::new(StringArray::from(vec!["c1", "c2"])) as ArrayRef,
        ),
    ]));
    let schema = Arc::new(ArrowSchema::new(vec![
        ArrowField::new("id", DataType::Int32, false),
        ArrowField::new("addr", addr.data_type().clone(), true),
    ]));
    let batch = RecordBatch::try_new(schema, vec![id, addr]).unwrap();
    let out = lay_out(&batch, &[flatten_field("addr")], Format::Jsonl).unwrap();
    let sch = out.schema();
    let names: Vec<&str> = sch.fields().iter().map(|f| f.name().as_str()).collect();
    assert_eq!(names, vec!["id", "street", "city"]);
}

/// `prefixed` namespaces colliding case fields by case label, so a Parquet superset of
/// two cases that both carry `amount` becomes `alpha_amount` / `beta_amount`.
#[test]
fn flatten_union_prefixed_namespaces_colliding_fields() {
    let out = lay_out(
        &flatten_union_collision_batch(),
        &[flatten_field_strategy("detail", FlattenStrategy::Prefixed)],
        Format::Parquet,
    )
    .unwrap();
    assert_eq!(col_names(&out), vec!["id", "alpha_amount", "beta_amount"]);
}

/// `discriminant` keeps the superset names and appends a `<field>_case` tag column naming
/// the active case per row.
#[test]
fn flatten_union_discriminant_appends_case_tag() {
    let out = lay_out(
        &flatten_union_batch(),
        &[flatten_field_strategy(
            "detail",
            FlattenStrategy::Discriminant,
        )],
        Format::Parquet,
    )
    .unwrap();
    assert_eq!(col_names(&out), vec!["id", "a", "b", "detail_case"]);
    let tag = out.column_by_name("detail_case").unwrap();
    let tag = tag.as_any().downcast_ref::<StringArray>().unwrap();
    assert_eq!(tag.value(0), "alpha");
    assert_eq!(tag.value(1), "beta");
}

/// JSON/JSONL ignore the strategy — per-row keys use raw names regardless of `prefixed`.
#[test]
fn flatten_union_jsonl_ignores_strategy() {
    let out = lay_out(
        &flatten_union_collision_batch(),
        &[flatten_field_strategy("detail", FlattenStrategy::Prefixed)],
        Format::Jsonl,
    )
    .unwrap();
    // Raw (un-prefixed) names; the two `amount` columns coexist (one fires per row).
    assert_eq!(col_names(&out), vec!["id", "amount", "amount"]);
}


#[test]
fn a_plain_column_cannot_be_flattened() {
    let schema = Arc::new(ArrowSchema::new(vec![ArrowField::new("id", DataType::Int32, false)]));
    let batch = RecordBatch::try_new(schema, vec![Arc::new(Int32Array::from(vec![1]))]).unwrap();
    let p = lay_out(&batch, &[flatten_field("id")], Format::Csv).unwrap_err();
    match &p.parts[0] {
        Part::Text(s) => assert_eq!(
            s,
            "field 'id': cannot flatten a Int32 column (expected object or variant)"
        ),
        other => panic!("unexpected part {other:?}"),
    }
}

#[test]
fn rows_of_other_cases_are_null() {
    assert_eq!(
        case_rows(&vec![0, 1, 0], &vec![0, 0, 1], 0),
        vec![Some(0), None, Some(1)]
    );
}

#[test]
fn declared_columns_lead_and_hidden_ones_go() {
    let names: Vec<String> =
        ["x", "b", "secret", "a"].iter().map(|s| s.to_string()).collect();
    let field = |name: &str, hidden: bool| Field { name: name.into(), hidden, ..Default::default() };
    let fields = vec![field("a", false), field("secret", true), field("b", false)];
    assert_eq!(filter_hidden_columns(&names, &fields), vec![3, 1, 0]);
}

#[test]
fn output_names_get_their_extension() {
    assert_eq!(output_file_name("people", Format::Csv), "people.csv");
    assert_eq!(output_file_name("people.csv", Format::Csv), "people.csv");
    assert_eq!(output_file_name("people.csv", Format::Jsonl), "people.csv.jsonl");
    assert_eq!(output_file_name("v1.2", Format::Parquet), "v1.2.parquet");
    assert_eq!(output_file_name(".json", Format::Json), ".json.json");
}
