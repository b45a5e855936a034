//! Merging and reconciling generation constraints.
use fakeset::constraints::{
    validate_field_constraints, FieldConstraints, Merge, NumericInterval, Reconciled, Satisfiable,
};
use fakeset::models::{Field, Generator, Num, Range, YamlValue};

fn num(x: f64) -> Num {
    Num::from_bits(x.to_bits())
}

fn whole(n: i64) -> YamlValue {
    YamlValue::Int { value: n as i128, num: num(n as f64) }
}

fn bounds(min: Option<f64>, max: Option<f64>) -> FieldConstraints {
    FieldConstraints {
        min: min.map(num),
        max: max.map(num),
        ..Default::default()
    }
}

fn with_gen(g: Generator) -> FieldConstraints {
    FieldConstraints {
        generator: Some(g),
        ..Default::default()
    }
}

fn with_value(v: &str) -> FieldConstraints {
    FieldConstraints {
        value: Some(YamlValue::Text(v.to_string())),
        ..Default::default()
    }
}

// --- satisfiable ---

#[test]
fn empty_is_satisfiable() {
    assert!(FieldConstraints::default().satisfiable());
}

#[test]
fn valid_range_is_satisfiable() {
    assert!(bounds(Some(0.0), Some(100.0)).satisfiable());
}

#[test]
fn equal_bounds_is_satisfiable() {
    assert!(bounds(Some(5.0), Some(5.0)).satisfiable());
}

#[test]
fn inverted_range_is_not_satisfiable() {
    assert!(!bounds(Some(100.0), Some(0.0)).satisfiable());
}

#[test]
fn numeric_value_inside_range_is_satisfiable() {
    // `value` is the tightest source; a numeric value within bounds is fine.
    let c = FieldConstraints {
        min: Some(num(1.0)),
        value: Some(whole(42)),
        ..Default::default()
    };
    assert!(c.satisfiable());
}

#[test]
fn numeric_value_outside_range_is_not_satisfiable() {
    let c = FieldConstraints {
        max: Some(num(10.0)),
        value: Some(whole(42)),
        ..Default::default()
    };
    assert!(!c.satisfiable());
}

#[test]
fn value_with_generator_is_satisfiable() {
    // `value` supersedes the generator (tightest point on the spectrum).
    let c = FieldConstraints {
        generator: Some(Generator::Email),
        value: Some(YamlValue::Text("x".to_string())),
        ..Default::default()
    };
    assert!(c.satisfiable());
}

#[test]
fn empty_one_of_is_not_satisfiable() {
    let c = FieldConstraints {
        one_of: Some(vec![]),
        ..Default::default()
    };
    assert!(!c.satisfiable());
}

// --- merge: unconstrained ---

#[test]
fn two_empty_merge_to_empty() {
    let m = FieldConstraints::default()
        .merge(&FieldConstraints::default())
        .unwrap();
    assert!(m.min.is_none() && m.max.is_none() && m.generator.is_none() && m.value.is_none());
}

// --- merge: numeric bounds ---

#[test]
fn merge_takes_tighter_lower_bound() {
    // [20, 80] merged with [0, 100] → [20, 80]
    let m = bounds(Some(20.0), Some(80.0))
        .merge(&bounds(Some(0.0), Some(100.0)))
        .unwrap();
    assert_eq!((m.min, m.max), (Some(num(20.0)), Some(num(80.0))));
}

#[test]
fn merge_takes_tighter_upper_bound() {
    // [0, 50] merged with [0, 100] → [0, 50]
    let m = bounds(Some(0.0), Some(50.0))
        .merge(&bounds(Some(0.0), Some(100.0)))
        .unwrap();
    assert_eq!((m.min, m.max), (Some(num(0.0)), Some(num(50.0))));
}

#[test]
fn one_sided_bounds_combine() {
    // min-only merged with max-only → both bounds present
    let m = bounds(Some(10.0), None)
        .merge(&bounds(None, Some(50.0)))
        .unwrap();
    assert_eq!((m.min, m.max), (Some(num(10.0)), Some(num(50.0))));
}

#[test]
fn non_overlapping_ranges_conflict() {
    // [60, 100] ∩ [0, 30] = ∅
    assert!(
        bounds(Some(60.0), Some(100.0))
            .merge(&bounds(Some(0.0), Some(30.0)))
            .is_none()
    );
}

#[test]
fn one_sided_non_overlapping_conflicts() {
    // [50, ∞) ∩ (-∞, 30] = ∅
    assert!(
        bounds(Some(50.0), None)
            .merge(&bounds(None, Some(30.0)))
            .is_none()
    );
}

// --- merge: generators ---

#[test]
fn same_generator_merges() {
    let m = with_gen(Generator::Email)
        .merge(&with_gen(Generator::Email))
        .unwrap();
    assert_eq!(m.generator, Some(Generator::Email));
}

#[test]
fn different_generators_conflict() {
    assert!(
        with_gen(Generator::Email)
            .merge(&with_gen(Generator::Username))
            .is_none()
    );
}

#[test]
fn generator_merges_with_unconstrained() {
    let m = with_gen(Generator::Email)
        .merge(&FieldConstraints::default())
        .unwrap();
    assert_eq!(m.generator, Some(Generator::Email));
}

// --- merge: constant values ---

#[test]
fn same_value_merges() {
    let m = with_value("active").merge(&with_value("active")).unwrap();
    assert_eq!(m.value.as_ref().and_then(|v| v.as_str()), Some("active"));
}

#[test]
fn different_values_conflict() {
    assert!(
        with_value("active")
            .merge(&with_value("inactive"))
            .is_none()
    );
}

#[test]
fn value_merges_with_unconstrained() {
    // Adding a constant to an unconstrained base is a valid specialisation.
    let m = with_value("active")
        .merge(&FieldConstraints::default())
        .unwrap();
    assert_eq!(m.value.as_ref().and_then(|v| v.as_str()), Some("active"));
}

#[test]
fn string_value_merges_with_numeric_min() {
    // a string `value` wins; the numeric `min` is moot (not a conflict).
    let m = with_value("active")
        .merge(&bounds(Some(0.0), None))
        .unwrap();
    assert_eq!(m.value.as_ref().and_then(|v| v.as_str()), Some("active"));
}

#[test]
fn numeric_value_outside_merged_range_conflicts() {
    // A numeric value pinned outside the merged bound is a genuine conflict.
    let value = FieldConstraints {
        value: Some(whole(42)),
        ..Default::default()
    };
    assert!(value.merge(&bounds(None, Some(10.0))).is_none());
}

// --- merge: value-source spectrum ---

fn with_one_of(vals: &[&str]) -> FieldConstraints {
    FieldConstraints {
        one_of: Some(
            vals.iter()
                .map(|s| YamlValue::Text(s.to_string()))
                .collect(),
        ),
        ..Default::default()
    }
}

#[test]
fn generator_plus_value_specialises_to_value() {
    // A value specialises a generator: value wins.
    let m = with_gen(Generator::Word)
        .merge(&with_value("active"))
        .unwrap();
    assert_eq!(m.value.as_ref().and_then(|v| v.as_str()), Some("active"));
    assert!(
        m.generator.is_none(),
        "generator dropped when value supersedes it"
    );
}

#[test]
fn generator_plus_one_of_specialises_to_one_of() {
    let m = with_gen(Generator::Word)
        .merge(&with_one_of(&["a", "b"]))
        .unwrap();
    assert_eq!(m.one_of.as_ref().map(|s| s.len()), Some(2));
    assert!(
        m.generator.is_none(),
        "generator dropped when one_of restricts it"
    );
}

#[test]
fn one_of_intersects() {
    let m = with_one_of(&["a", "b", "c"])
        .merge(&with_one_of(&["b", "c", "d"]))
        .unwrap();
    let got: Vec<&str> = m
        .one_of
        .as_ref()
        .unwrap()
        .iter()
        .filter_map(|v| v.as_str())
        .collect();
    assert_eq!(got, vec!["b", "c"], "intersection preserves left order");
}

#[test]
fn disjoint_one_of_conflicts() {
    assert!(
        with_one_of(&["a", "b"])
            .merge(&with_one_of(&["x", "y"]))
            .is_none()
    );
}

#[test]
fn value_within_one_of_wins() {
    let m = with_one_of(&["a", "b"]).merge(&with_value("a")).unwrap();
    assert_eq!(m.value.as_ref().and_then(|v| v.as_str()), Some("a"));
    assert!(m.one_of.is_none(), "one_of collapses to the pinned value");
}

#[test]
fn value_outside_one_of_conflicts() {
    assert!(with_one_of(&["a", "b"]).merge(&with_value("z")).is_none());
}

// --- reconcile: rigid computed support  ---

fn rigid(min: f64, max: f64) -> FieldConstraints {
    FieldConstraints {
        computed: Some(NumericInterval {
            min: Some(num(min)),
            max: Some(num(max)),
        }),
        ..Default::default()
    }
}

#[test]
fn reconcile_without_computed_matches_merge() {
    match bounds(Some(20.0), Some(80.0)).reconcile(&bounds(Some(0.0), Some(100.0))) {
        Reconciled::Feasible(m) => assert_eq!((m.min, m.max), (Some(num(20.0)), Some(num(80.0)))),
        other => panic!("expected Feasible, got {other:?}"),
    }
    assert!(matches!(
        bounds(Some(60.0), Some(100.0)).reconcile(&bounds(Some(0.0), Some(30.0))),
        Reconciled::Infeasible
    ));
}

#[test]
fn reconcile_rigid_contained_is_feasible() {
    // computed [30,45] within restriction [0,100]
    assert!(matches!(
        rigid(30.0, 45.0).reconcile(&bounds(Some(0.0), Some(100.0))),
        Reconciled::Feasible(_)
    ));
}

#[test]
fn reconcile_rigid_disjoint_is_infeasible() {
    // computed [1,4] vs restriction [30,50] — no overlap
    assert!(matches!(
        rigid(1.0, 4.0).reconcile(&bounds(Some(30.0), Some(50.0))),
        Reconciled::Infeasible
    ));
}

#[test]
fn reconcile_rigid_partial_overlap_is_unsound() {
    // computed [1,45] vs restriction [30,50] — overlaps [30,45] but not contained
    assert!(matches!(
        rigid(1.0, 45.0).reconcile(&bounds(Some(30.0), Some(50.0))),
        Reconciled::Unsound(_)
    ));
}

#[test]
fn reconcile_rigid_is_symmetric() {
    assert!(matches!(
        bounds(Some(30.0), Some(50.0)).reconcile(&rigid(1.0, 45.0)),
        Reconciled::Unsound(_)
    ));
}

#[test]
fn reconcile_rigid_unbounded_against_range_is_unsound() {
    // computed unbounded above, restriction caps it → cannot verify
    let r = FieldConstraints {
        computed: Some(NumericInterval {
            min: Some(num(0.0)),
            max: None,
        }),
        ..Default::default()
    };
    assert!(matches!(
        r.reconcile(&bounds(None, Some(100.0))),
        Reconciled::Unsound(_)
    ));
}

#[test]
fn reconcile_rigid_no_restriction_is_feasible() {
    assert!(matches!(
        rigid(1.0, 45.0).reconcile(&FieldConstraints::default()),
        Reconciled::Feasible(_)
    ));
}

#[test]
fn reconcile_rigid_against_one_of_is_unsound() {
    assert!(matches!(
        rigid(1.0, 45.0).reconcile(&with_one_of(&["a", "b"])),
        Reconciled::Unsound(_)
    ));
}

// --- bounds that are not numbers ---

#[test]
fn a_bound_that_is_no_number_bounds_nothing() {
    assert!(bounds(Some(f64::NAN), Some(5.0)).satisfiable());
    assert!(bounds(Some(5.0), Some(f64::NAN)).satisfiable());
    assert!(bounds(Some(f64::INFINITY), Some(f64::NAN)).satisfiable());
    assert!(!bounds(Some(f64::INFINITY), Some(5.0)).satisfiable());
    let field = Field {
        name: "x".into(),
        range: Some(Range { min: Some(num(f64::NAN)), max: Some(num(5.0)) }),
        ..Default::default()
    };
    assert!(validate_field_constraints("x", &field).is_ok());
    let pinned = FieldConstraints { value: Some(whole(9)), ..bounds(Some(f64::NAN), None) };
    assert!(pinned.satisfiable());
}

#[test]
fn a_bound_that_is_no_number_gives_way() {
    let merged = bounds(Some(f64::NAN), Some(7.0))
        .merge(&bounds(Some(2.0), Some(f64::NAN)))
        .expect("the bounds do not conflict");
    assert_eq!((merged.min, merged.max), (Some(num(2.0)), Some(num(7.0))));
}
