//! Rules on datasets: rows, rings and imported columns.
use fakeset::message::{Part, Problem};
use fakeset::models::{
    DatasetEntry, Field, FieldType, Format, ImportSpec, Include, Num, RefsSpec, RingBounds,
    SyntheticDataset,
};
use fakeset::shares::all_declared_shares;
use fakeset::validate::{check_child_against_taint, check_import_taint, taint_closure, validate};
use fakeset::validate_field::ShareTotal;

fn num(x: f64) -> Num {
    Num::from_bits(x.to_bits())
}

fn text_of(p: &Problem) -> String {
    let mut out = String::new();
    for part in &p.parts {
        match part {
            Part::Text(s) => out.push_str(s),
            Part::Number(n) => out.push_str(&format!("{}", f64::from_bits(n.to_bits()))),
        }
    }
    out
}

fn make_include(file: &str, reference: &str, fields: Vec<String>) -> Include {
    Include {
        file: file.into(),
        resolved: None,
        reference: reference.into(),
        ratio: None,
        cardinality: None,
        reinforcement: None,
        overlap: None,
        fields,
        exclude: None,
    }
}

fn imported_ds(name: &str, cols: &[(&str, bool)]) -> SyntheticDataset {
    let mut ds = plain_ds(name, vec![]);
    ds.rows = None;
    ds.import = Some(ImportSpec {
        file: format!("{name}.csv"),
        reference: name.into(),
        fields: vec![],
        exclude: None,
        ring: None,
        total_rows: 100,
    });
    for (col, tainted) in cols {
        ds.data.push(Field {
            name: col.to_string(),
            imported_taint: *tainted,
            ..Default::default()
        });
    }
    ds
}

fn plain_ds(name: &str, data: Vec<Field>) -> SyntheticDataset {
    SyntheticDataset {
        name: name.into(),
        format: Format::Csv,
        rows: Some(50),
        output: None,
        outputs: vec![],
        locale: None,
        include_spec: None,
        import: None,
        links: vec![],
        data,
        variants: vec![],
    }
}

#[test]
fn rows_and_import_errors() {
    let mut ds = imported_ds("tickers", &[("symbol", true)]);
    ds.rows = Some(50);
    let datasets = vec![DatasetEntry { path: "/s/tickers.yaml".into(), dataset: ds }];
    let err = text_of(&validate(&datasets, &vec![]).unwrap_err());
    assert!(
        err.contains("`rows` cannot be set when `import` is present"),
        "{err}"
    );
}

#[test]
fn import_without_rows_is_ok() {
    let ds = imported_ds("tickers", &[("symbol", true)]);
    let datasets = vec![DatasetEntry { path: "/s/tickers.yaml".into(), dataset: ds }];
    assert!(validate(&datasets, &vec![]).is_ok());
}

#[test]
fn imported_dataset_no_false_row_warning() {
    let ds = imported_ds("tickers", &[("symbol", true)]);
    let datasets = vec![DatasetEntry { path: "/s/tickers.yaml".into(), dataset: ds }];
    let warnings = validate(&datasets, &vec![]).unwrap();
    assert!(
        !warnings
            .iter()
            .any(|w| w.contains("defaulting to 100 rows")),
        "spurious row-count warning: {warnings:?}"
    );
}

// ── ring bounds (single dataset — full validate is fine) ─────────────────

#[test]
fn ring_start_ge_end_errors() {
    let mut ds = imported_ds("tickers", &[("symbol", true)]);
    ds.import.as_mut().unwrap().ring = Some(RingBounds { start: num(0.6), end: num(0.3) });
    let datasets = vec![DatasetEntry { path: "/s/tickers.yaml".into(), dataset: ds }];
    let err = text_of(&validate(&datasets, &vec![]).unwrap_err());
    assert!(err.contains("must be less than"), "{err}");
}

#[test]
fn ring_out_of_range_errors() {
    let mut ds = imported_ds("tickers", &[("symbol", true)]);
    ds.import.as_mut().unwrap().ring = Some(RingBounds { start: num(0.0), end: num(1.5) });
    let datasets = vec![DatasetEntry { path: "/s/tickers.yaml".into(), dataset: ds }];
    let err = text_of(&validate(&datasets, &vec![]).unwrap_err());
    assert!(err.contains("[0.0, 1.0)"), "{err}");
}

// ── taint closure (unit-test taint_closure directly) ─────────────────────

#[test]
fn taint_closure_includes_imported_fields() {
    let ds = imported_ds("p", &[("symbol", true), ("region", false)]);
    let t = taint_closure(&ds);
    assert!(t.contains(&"symbol".to_string()));
    assert!(!t.contains(&"region".to_string()));
}

#[test]
fn taint_closure_expands_expression_referencing_tainted_field() {
    let mut ds = imported_ds("p", &[("symbol", true)]);
    ds.data.push(Field {
        name: "display".into(),
        expression: Some("CONCAT(symbol, '-USD')".into()),
        ..Default::default()
    });
    let t = taint_closure(&ds);
    assert!(
        t.contains(&"display".to_string()),
        "expression derived from imported field must be tainted"
    );
}

#[test]
fn taint_closure_does_not_taint_unrelated_expression() {
    let mut ds = imported_ds("p", &[("symbol", true), ("exchange", false)]);
    ds.data.push(Field {
        name: "suffix".into(),
        expression: Some("CONCAT(exchange, '-SFX')".into()),
        ..Default::default()
    });
    let t = taint_closure(&ds);
    assert!(
        !t.contains(&"suffix".to_string()),
        "expression with no imported deps should not be tainted"
    );
}

// ── check_child_against_taint (called directly to avoid disk-path resolution) ──

fn taint(cols: &[&str]) -> Vec<String> {
    cols.iter().map(|s| s.to_string()).collect()
}

fn child_with_include(
    reference: &str,
    include_fields: Vec<String>,
    data: Vec<Field>,
) -> (SyntheticDataset, Include) {
    let mut ds = plain_ds("child", data);
    let inc = make_include("parent.yaml", reference, include_fields);
    ds.include_spec = Some(inc.clone());
    (ds, inc)
}

#[test]
fn child_same_name_as_imported_column_errors() {
    let (child, inc) = child_with_include(
        "par",
        vec![],
        vec![Field {
            name: "symbol".into(),
            ..Default::default()
        }],
    );
    let err = text_of(&check_child_against_taint(&child, &inc, &taint(&["symbol"])).unwrap_err());
    assert!(err.contains("same name as an imported column"), "{err}");
}

#[test]
fn child_ref_to_imported_column_errors() {
    let (child, inc) = child_with_include(
        "par",
        vec![],
        vec![Field {
            name: "ticker".into(),
            refs: Some(RefsSpec::Single("par.symbol".into())),
            ..Default::default()
        }],
    );
    let err = text_of(&check_child_against_taint(&child, &inc, &taint(&["symbol"])).unwrap_err());
    assert!(err.contains("references imported column"), "{err}");
}

#[test]
fn child_ref_to_synthetic_column_is_ok() {
    let (child, inc) = child_with_include(
        "par",
        vec![],
        vec![Field {
            name: "area".into(),
            refs: Some(RefsSpec::Single("par.region".into())),
            ..Default::default()
        }],
    );
    // "region" is NOT in the taint set — only "symbol" is.
    assert!(check_child_against_taint(&child, &inc, &taint(&["symbol"])).is_ok());
}

#[test]
fn child_include_fields_listing_imported_column_errors() {
    let (child, inc) = child_with_include("par", vec!["symbol".into()], vec![]);
    let err = text_of(&check_child_against_taint(&child, &inc, &taint(&["symbol"])).unwrap_err());
    assert!(err.contains("`include.fields` lists"), "{err}");
}

#[test]
fn child_include_fields_wildcard_is_ok() {
    // Wildcard is silently filtered by expand_include_fields; the validator
    // should not reject it here.
    let (child, inc) = child_with_include("par", vec!["*".into()], vec![]);
    assert!(check_child_against_taint(&child, &inc, &taint(&["symbol"])).is_ok());
}

#[test]
fn child_ref_to_expression_derived_column_errors() {
    let (child, inc) = child_with_include(
        "par",
        vec![],
        vec![Field {
            name: "label".into(),
            refs: Some(RefsSpec::Single("par.display".into())),
            ..Default::default()
        }],
    );
    // "display" is in the taint set (derived from imported "symbol").
    let err = text_of(&check_child_against_taint(&child, &inc, &taint(&["symbol", "display"])).unwrap_err());
    assert!(err.contains("references imported column"), "{err}");
}

#[test]
fn child_ref_to_expression_from_synthetic_is_ok() {
    let (child, inc) = child_with_include(
        "par",
        vec![],
        vec![Field {
            name: "exch_tag".into(),
            refs: Some(RefsSpec::Single("par.suffix".into())),
            ..Default::default()
        }],
    );
    // "suffix" is NOT in the taint set.
    assert!(check_child_against_taint(&child, &inc, &taint(&["symbol"])).is_ok());
}

// ── own cases ──

fn entry(path: &str, dataset: SyntheticDataset) -> DatasetEntry {
    DatasetEntry { path: path.into(), dataset }
}

fn named(name: &str) -> Field {
    Field { name: name.into(), field_type: Some(FieldType::String), ..Default::default() }
}

#[test]
fn imported_values_may_not_leave_their_dataset() {
    let parent = imported_ds("parent", &[("symbol", true)]);
    let mut child = plain_ds("child", vec![named("symbol")]);
    let mut inc = make_include("parent.yaml", "par", vec![]);
    inc.resolved = Some("/s/parent.yaml".into());
    child.include_spec = Some(inc);
    let datasets = vec![entry("/s/parent.yaml", parent), entry("/s/child.yaml", child)];
    let err = text_of(&check_import_taint(&datasets).unwrap_err());
    assert!(err.starts_with("dataset 'child': field 'symbol' has the same name"), "{err}");
}

#[test]
fn a_root_without_rows_is_warned_of() {
    let mut ds = plain_ds("people", vec![named("first")]);
    ds.rows = None;
    let warnings = validate(&vec![entry("/s/people.yaml", ds)], &vec![]).unwrap();
    assert_eq!(
        warnings,
        vec!["warning: dataset 'people' has no includes and no explicit `rows` — defaulting to 100 rows"]
    );
}

#[test]
fn expressions_read_only_what_stands_above() {
    let sum = Field { name: "sum".into(), expression: Some("a + b".into()), ..Default::default() };
    let good = plain_ds("d", vec![named("a"), named("b"), sum.clone()]);
    assert!(validate(&vec![entry("/s/d.yaml", good)], &vec![]).is_ok());
    let bad = plain_ds("d", vec![named("a"), sum, named("b")]);
    let err = text_of(&validate(&vec![entry("/s/d.yaml", bad)], &vec![]).unwrap_err());
    assert_eq!(
        err,
        "field 'd.sum': expression references 'b' which must be defined above it"
    );
}

#[test]
fn shares_above_one_are_refused() {
    let mut f = named("tier");
    f.field_type = Some(FieldType::Variant);
    f.variants = vec![
        fakeset::models::FieldVariant {
            field_type: Some(FieldType::String),
            ratio: Some(num(0.8)),
            ..Default::default()
        },
        fakeset::models::FieldVariant {
            field_type: Some(FieldType::String),
            ratio: Some(num(0.5)),
            ..Default::default()
        },
    ];
    let totals = vec![ShareTotal {
        shares: vec![num(0.8), num(0.5)],
        above: true,
        off: true,
        shown: "1.3000".into(),
    }];
    let ds = plain_ds("d", vec![f]);
    let err = text_of(&validate(&vec![entry("/s/d.yaml", ds)], &totals).unwrap_err());
    assert_eq!(err, "field 'd.tier': variant distributions sum to 1.3000 which exceeds 1.0");
}

fn alternatives(name: &str, shares: &[Option<f64>]) -> Field {
    let mut f = Field {
        name: name.into(),
        field_type: Some(FieldType::Variant),
        ..Default::default()
    };
    for s in shares {
        f.variants.push(fakeset::models::FieldVariant {
            field_type: Some(FieldType::String),
            ratio: s.map(num),
            ..Default::default()
        });
    }
    f
}

#[test]
fn shares_are_listed_at_every_depth() {
    let mut outer = Field {
        name: "o".into(),
        field_type: Some(FieldType::Object),
        ..Default::default()
    };
    outer.fields.push(alternatives("i", &[Some(0.25), None, Some(0.5)]));
    let plain = Field { name: "p".into(), ..Default::default() };
    let a = plain_ds("d", vec![alternatives("x", &[Some(0.5), Some(0.5)]), plain, outer]);
    let b = plain_ds("d", vec![alternatives("x", &[None])]);
    assert_eq!(
        all_declared_shares(&vec![entry("/s/a.yaml", a), entry("/s/b.yaml", b)]),
        vec![vec![num(0.5), num(0.5)], vec![num(0.25), num(0.5)], vec![]]
    );
}

#[test]
fn datasets_of_one_name_have_shares_of_their_own() {
    let total = |shares: &[f64]| {
        let sum: f64 = shares.iter().sum();
        ShareTotal {
            shares: shares.iter().map(|s| num(*s)).collect(),
            above: sum > 1.0 + 1e-9,
            off: (sum - 1.0).abs() > 1e-9,
            shown: format!("{sum:.4}"),
        }
    };
    let good = plain_ds("d", vec![alternatives("x", &[Some(0.5), Some(0.5)])]);
    let bad = plain_ds("d", vec![alternatives("x", &[Some(0.5), Some(0.25)])]);
    let both = vec![entry("/s/a.yaml", good), entry("/s/b.yaml", bad)];
    let totals = vec![total(&[0.5, 0.5]), total(&[0.5, 0.25])];
    let err = text_of(&validate(&both, &totals).unwrap_err());
    assert_eq!(
        err,
        "field 'd.x': all variant distributions are explicit but sum to 0.7500, not 1.0"
    );
}
