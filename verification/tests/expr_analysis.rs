//! Placement, inputs and types of computed columns.
use fakeset::expr_analysis::{
    cast_computed_columns, classify_expression_placement, scalar_input_context, types_compatible,
    TypeFamily,
};
use fakeset::models::{Field, FieldType, Num, ParquetDatatype, Range};
use fakeset::schema::{field_to_arrow, is_typed, schema_to_arrow, ColumnType};

fn num(x: f64) -> Num {
    Num::from_bits(x.to_bits())
}

fn expr_field(name: &str, expr: &str) -> Field {
    Field {
        name: name.into(),
        expression: Some(expr.into()),
        ..Default::default()
    }
}

fn typed(name: &str, t: FieldType) -> Field {
    Field { name: name.into(), field_type: Some(t), ..Default::default() }
}

#[test]
fn is_field_type_arrow_mapping_sanity() {
    // Guard the assumption used by the friendly type check: `number` -> Float64.
    assert!(matches!(
        field_to_arrow(&Field {
            name: "n".into(),
            field_type: Some(FieldType::Number),
            ..Default::default()
        })
        .kind,
        ColumnType::Plain(ParquetDatatype::Float64)
    ));
}

#[test]
fn what_reads_a_list_is_late() {
    let data = vec![
        typed("n", FieldType::Number),
        expr_field("twice", "n * 2"),
        typed("tags", FieldType::List),
        expr_field("count", "array_length(tags)"),
        expr_field("more", "count + n"),
        expr_field("other", "twice + 1"),
    ];
    let (staging, assembly) = classify_expression_placement(&data);
    assert_eq!(staging, vec![1, 5]);
    assert_eq!(assembly, vec![3, 4]);
}

#[test]
fn inputs_are_scalar_columns_with_their_ranges() {
    let mut n = typed("n", FieldType::Number);
    n.range = Some(Range { min: Some(num(1.0)), max: None });
    let data = vec![n, expr_field("twice", "n * 2"), Field { name: "untyped".into(), ..Default::default() }];
    let c = scalar_input_context(&data);
    assert_eq!(c.columns.len(), 1);
    assert_eq!(c.columns[0].name, "n");
    assert_eq!(c.ranges.len(), 1);
    assert_eq!((c.ranges[0].interval.min, c.ranges[0].interval.max), (Some(num(1.0)), None));
}

#[test]
fn types_of_one_family_are_compatible() {
    assert!(types_compatible(false, TypeFamily::Numeric, TypeFamily::Numeric));
    assert!(types_compatible(true, TypeFamily::Other, TypeFamily::Other));
    assert!(!types_compatible(false, TypeFamily::Other, TypeFamily::Other));
    assert!(!types_compatible(false, TypeFamily::Text, TypeFamily::Numeric));
}

#[test]
fn only_computed_columns_are_cast() {
    let columns = vec!["a".to_string(), "b".to_string()];
    let computed = vec!["b".to_string()];
    assert_eq!(cast_computed_columns(&columns, &computed), vec![None, Some(0)]);
}

#[test]
fn computed_fields_have_no_declared_column() {
    let fields = vec![
        typed("a", FieldType::Boolean),
        expr_field("b", "a"),
        Field { field_type: Some(FieldType::Date), ..Default::default() },
    ];
    let columns = schema_to_arrow(&fields);
    let names: Vec<&str> = columns.iter().map(|c| c.name.as_str()).collect();
    assert_eq!(names, vec!["a", "item"]);
    assert!(matches!(columns[0].kind, ColumnType::Plain(ParquetDatatype::Boolean)));
    assert!(matches!(columns[1].kind, ColumnType::Plain(ParquetDatatype::Date32)));
}

#[test]
fn types_are_settled_at_any_depth() {
    let mut record = typed("r", FieldType::Object);
    record.fields = vec![typed("a", FieldType::Number)];
    assert!(is_typed(&record));
    record.fields.push(expr_field("b", "a"));
    assert!(!is_typed(&record));
    assert!(!is_typed(&typed("v", FieldType::Variant)));
    assert!(is_typed(&typed("l", FieldType::List)));
}
