//! Row counts of datasets.
use fakeset::models::{DatasetEntry, Format, Include, Num, SyntheticDataset};
use fakeset::row_plan::{RowPlanner, RowRequest, DEFAULT_ROWS};

fn num(x: f64) -> Num {
    Num::from_bits(x.to_bits())
}

fn bare_dataset(rows: Option<usize>) -> SyntheticDataset {
    SyntheticDataset {
        name: "test".into(),
        format: Format::Csv,
        rows,
        output: None,
        outputs: vec![],
        locale: None,
        include_spec: None,
        import: None,
        links: vec![],
        data: vec![],
        variants: vec![],
    }
}

fn entry(path: &str, dataset: SyntheticDataset) -> DatasetEntry {
    DatasetEntry { path: path.into(), dataset }
}

fn double(n: Num) -> f64 {
    f64::from_bits(n.to_bits())
}

/// Runs the planner: products and quotients of ratios are made here.
fn plan_row_counts(datasets: &Vec<DatasetEntry>) -> Vec<usize> {
    let mut p = RowPlanner::start(datasets);
    loop {
        match p.next(datasets) {
            RowRequest::FromParent { rows, ratio, .. } => {
                p.answer(datasets, (rows as f64 * double(ratio)).round() as usize);
            }
            RowRequest::FromChild { rows, ratio, .. } => {
                p.answer(datasets, (rows as f64 / double(ratio)).round() as usize);
            }
            RowRequest::Done => return p.finish(),
        }
    }
}

#[test]
fn explicit_rows_used_directly() {
    let datasets = vec![entry("/a/b/c.yaml", bare_dataset(Some(77)))];
    assert_eq!(plan_row_counts(&datasets)[0], 77);
}

#[test]
fn default_rows_when_nothing_resolves() {
    let datasets = vec![entry("/a/b/c.yaml", bare_dataset(None))];
    assert_eq!(plan_row_counts(&datasets)[0], DEFAULT_ROWS);
}

#[test]
fn multiple_explicit_rows_independent() {
    let datasets = vec![
        entry("/a/one.yaml", bare_dataset(Some(10))),
        entry("/a/two.yaml", bare_dataset(Some(25))),
    ];
    let counts = plan_row_counts(&datasets);
    assert_eq!(counts[0], 10);
    assert_eq!(counts[1], 25);
}

fn drawn_from(parent: &str, ratio: f64) -> Option<Include> {
    Some(Include {
        file: parent.into(),
        resolved: Some(parent.into()),
        reference: "p".into(),
        ratio: Some(num(ratio)),
        cardinality: None,
        reinforcement: None,
        overlap: None,
        fields: vec![],
        exclude: None,
    })
}

#[test]
fn rows_follow_ratios_both_ways() {
    let mut child = bare_dataset(None);
    child.include_spec = drawn_from("/a/p.yaml", 0.25);
    let datasets = vec![entry("/a/c.yaml", child.clone()), entry("/a/p.yaml", bare_dataset(Some(80)))];
    assert_eq!(plan_row_counts(&datasets), vec![20, 80]);
    child.rows = Some(30);
    let datasets = vec![entry("/a/c.yaml", child), entry("/a/p.yaml", bare_dataset(None))];
    assert_eq!(plan_row_counts(&datasets), vec![30, 120]);
}
