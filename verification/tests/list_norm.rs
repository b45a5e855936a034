//! Lists that add up to a declared total.
use std::sync::Arc;

use arrow::array::{Array, ArrayRef, Float64Array, Int64Array, StringArray, StructArray};
use arrow::datatypes::{DataType, Field as ArrowField};
use fakeset::list_norm::{
    build_normalize_expression, desugar_normalize, field_output_fields, normalize_flat,
    normalize_window_int, out_is_int, parse_field_tail, EntryTarget, ScalarArg,
};
use fakeset::message::{Part, Problem};
use fakeset::models::{
    DatasetEntry, Field, FieldType, Format, ListContent, Normalize, Num, Range,
    SyntheticDataset,
};

fn num(x: f64) -> Num {
    Num::from_bits(x.to_bits())
}

fn text_of(p: &Problem) -> String {
    match &p.parts[0] {
        Part::Text(s) => s.clone(),
        other => panic!("unexpected part {other:?}"),
    }
}

/// Items of several lists in one run, with the offsets of the lists.
fn flat(rows: &[&[f64]]) -> (Vec<f64>, Vec<usize>) {
    let mut values = Vec::new();
    let mut offsets = vec![0];
    for r in rows {
        values.extend_from_slice(r);
        offsets.push(values.len());
    }
    (values, offsets)
}

/// The shares of every list, as whole parts and fractions, and the sum of its items.
fn shares(values: &[f64], offsets: &[usize], total: f64) -> (Vec<usize>, Vec<Num>, Vec<Num>) {
    let mut floors = vec![0; values.len()];
    let mut fracs = vec![num(0.0); values.len()];
    let mut sums = Vec::new();
    for w in offsets.windows(2) {
        let part = &values[w[0]..w[1]];
        let sum: f64 = part.iter().sum();
        sums.push(num(sum));
        for (k, v) in part.iter().enumerate().filter(|_| sum > 0.0) {
            let share = v / sum * total;
            floors[w[0] + k] = share.floor() as usize;
            fracs[w[0] + k] = num(share.fract());
        }
    }
    (floors, fracs, sums)
}

fn rescaled(rows: &[&[f64]], total: usize) -> (Vec<i64>, Vec<usize>) {
    let (values, offsets) = flat(rows);
    let (floors, fracs, sums) = shares(&values, &offsets, total as f64);
    (normalize_flat(&offsets, &floors, &fracs, &sums, total), offsets)
}

fn window_sums(out: &(Vec<i64>, Vec<usize>)) -> Vec<i64> {
    out.1.windows(2).map(|w| out.0[w[0]..w[1]].iter().sum()).collect()
}

#[test]
fn integer_precision_sums_exactly() {
    // Float source + precision:0 → integer output summing to exactly the total.
    assert!(out_is_int(false, Some(0)));
    let out = rescaled(&[&[1.0, 1.0, 1.0], &[2.0, 1.0]], 100);
    assert_eq!(window_sums(&out), vec![100, 100]);
}

#[test]
fn empty_window_stays_empty() {
    assert_eq!(normalize_window_int(&vec![], &vec![], num(0.0), 10), Vec::<i64>::new());
    let out = rescaled(&[&[], &[5.0]], 10);
    assert_eq!(out.1[1] - out.1[0], 0);
    assert_eq!(window_sums(&out)[1], 10);
}

#[test]
fn all_zero_window_equal_splits() {
    let out = rescaled(&[&[0.0, 0.0, 0.0, 0.0]], 100);
    assert_eq!(out.0.iter().sum::<i64>(), 100);
    // Equal split of 100 over 4 → 25 each.
    assert_eq!(out.0, vec![25, 25, 25, 25]);
    // What does not come out even goes to the first items.
    let none = vec![num(0.0); 3];
    assert_eq!(normalize_window_int(&vec![0; 3], &none, num(0.0), 11), vec![4, 4, 3]);
}

#[test]
fn field_in_place_overwrites_and_sums() {
    let names = vec!["tag".to_string(), "amt".to_string()];
    let target = field_output_fields(&names, "amt", &None).unwrap();
    assert_eq!(target, EntryTarget::Replace { source: 1 }, "in-place keeps the same fields");
    for s in window_sums(&rescaled(&[&[1.0, 3.0], &[2.0, 2.0, 4.0]], 100)) {
        assert_eq!(s, 100);
    }
}

/// The entries of lists of `{tag, amt}` with the rescaled amounts where `target` puts them.
fn entries(rows: &[&[f64]], target: &EntryTarget, into: &str, out: &[i64]) -> StructArray {
    let (values, _) = flat(rows);
    let tags: ArrayRef = Arc::new(StringArray::from(vec!["x"; values.len()]));
    let mut columns = vec![("tag", tags), ("amt", Arc::new(Float64Array::from(values)) as ArrayRef)];
    let scaled: ArrayRef = Arc::new(Int64Array::from(out.to_vec()));
    match target {
        EntryTarget::Append { .. } => columns.push((into, scaled)),
        EntryTarget::Replace { source } => columns[*source].1 = scaled,
    }
    let fields: Vec<ArrowField> = columns
        .iter()
        .map(|(name, c)| ArrowField::new(*name, c.data_type().clone(), true))
        .collect();
    StructArray::new(fields.into(), columns.into_iter().map(|c| c.1).collect(), None)
}

#[test]
fn field_into_keeps_source_and_adds_integer_pct() {
    let names = vec!["tag".to_string(), "amt".to_string()];
    let target = field_output_fields(&names, "amt", &Some("pct".into())).unwrap();
    assert_eq!(target, EntryTarget::Append { source: 1 }, "into appends a new field");
    assert!(out_is_int(false, Some(0)));
    let rows: [&[f64]; 2] = [&[1.0, 1.0, 1.0], &[3.0, 1.0]];
    let out = rescaled(&rows, 100);
    let list = entries(&rows, &target, "pct", &out.0);
    assert_eq!(list.num_columns(), 3, "into appends a new field");
    assert_eq!(list.column_by_name("pct").unwrap().data_type(), &DataType::Int64);
    // Raw amt retained unchanged.
    let amt = list.column_by_name("amt").unwrap().as_any().downcast_ref::<Float64Array>().unwrap();
    let sums: Vec<f64> = out.1.windows(2).map(|w| (w[0]..w[1]).map(|j| amt.value(j)).sum()).collect();
    assert_eq!(sums, vec![3.0, 4.0]);
    // pct sums to exactly 100 per window.
    let pct = list.column_by_name("pct").unwrap().as_any().downcast_ref::<Int64Array>().unwrap();
    for w in out.1.windows(2) {
        assert_eq!((w[0]..w[1]).map(|j| pct.value(j)).sum::<i64>(), 100);
    }
}

#[test]
fn expression_shapes_match_arity() {
    let scalar = Normalize {
        total: num(1.0),
        ..Default::default()
    };
    assert_eq!(
        build_normalize_expression("w__norm_src", "1", &scalar),
        "array_normalize(\"w__norm_src\", 1)"
    );
    let in_place = Normalize {
        total: num(100.0),
        field: Some("stake".into()),
        ..Default::default()
    };
    assert_eq!(
        build_normalize_expression("s__norm_src", "100", &in_place),
        "array_normalize_field(\"s__norm_src\", 'stake', 100)"
    );
    let into = Normalize {
        total: num(100.0),
        field: Some("shareholding".into()),
        into: Some("ownership_pc".into()),
        precision: Some(0),
    };
    assert_eq!(
        build_normalize_expression("h__norm_src", "100", &into),
        "array_normalize_field(\"h__norm_src\", 'shareholding', 100, 'ownership_pc', 0)"
    );
}

#[test]
fn desugar_renames_source_and_injects_expression() {
    let share = Field {
        name: "shareholding".into(),
        field_type: Some(FieldType::Number),
        range: Some(Range { min: Some(num(1.0)), max: Some(num(9.0)) }),
        ..Default::default()
    };
    let item = Field { fields: vec![share], ..Default::default() };
    let field = Field {
        name: "shareholders".into(),
        field_type: Some(FieldType::List),
        normalize: Some(Normalize {
            total: num(100.0),
            field: Some("shareholding".into()),
            into: Some("ownership_pc".into()),
            precision: Some(0),
        }),
        content: Some(Box::new(ListContent {
            from: Some("subsidiary".into()),
            project: None,
            item,
        })),
        ..Default::default()
    };
    let ds = SyntheticDataset {
        name: "companies".into(),
        format: Format::Parquet,
        rows: Some(10),
        output: None,
        outputs: vec![],
        locale: None,
        include_spec: None,
        import: None,
        links: vec![],
        data: vec![field],
        variants: vec![],
    };
    let entries = vec![DatasetEntry { path: "/a/companies.yaml".into(), dataset: ds }];
    let out = desugar_normalize(&entries, &vec![vec!["100".to_string()]]);
    let ds = &out[0].dataset;

    assert_eq!(ds.data.len(), 2, "source + injected expression");
    let src = &ds.data[0];
    assert_eq!(src.name, "shareholders__norm_src");
    assert!(src.hidden, "renamed source is hidden");
    assert!(src.normalize.is_none(), "normalize consumed");
    assert!(src.content.is_some(), "list content preserved on the source");

    let result = &ds.data[1];
    assert_eq!(result.name, "shareholders");
    assert!(!result.hidden);
    assert_eq!(
        result.expression.as_deref(),
        Some("array_normalize_field(\"shareholders__norm_src\", 'shareholding', 100, 'ownership_pc', 0)")
    );
}

#[test]
fn a_negative_precision_keeps_its_sign() {
    let n = Normalize { total: num(1.0), precision: Some(-12), ..Default::default() };
    assert_eq!(build_normalize_expression("x", "1", &n), "array_normalize(\"x\", 1, -12)");
}

#[test]
fn trailing_arguments_are_told_apart_by_type() {
    let text = |s: &str| Some(ScalarArg { text: Some(s.into()), number: None, integer: None });
    let number = |x: f64| {
        Some(ScalarArg { text: None, number: Some(num(x)), integer: Some(x as i32) })
    };
    let a = parse_field_tail(&vec![number(100.0), text("pct"), number(0.0)]).unwrap();
    assert_eq!((a.total, a.into.as_deref(), a.precision), (num(100.0), Some("pct"), Some(0)));
    assert_eq!(
        text_of(&parse_field_tail(&vec![]).unwrap_err()),
        "array_normalize_field: missing `total`"
    );
    assert_eq!(
        text_of(&parse_field_tail(&vec![text("x")]).unwrap_err()),
        "array_normalize: `total` must be a non-null number"
    );
    let null = Some(ScalarArg { text: None, number: None, integer: None });
    assert_eq!(
        text_of(&parse_field_tail(&vec![number(1.0), null]).unwrap_err()),
        "array_normalize: `precision` must be a non-null integer"
    );
    assert!(field_output_fields(&vec![], "amt", &None).is_err());
}
