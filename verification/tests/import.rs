//! Imported files: the hash ring, the columns taken, and their types.
use std::sync::Arc;

use arrow::array::{ArrayRef, BooleanArray, Float64Array, RecordBatch, StringArray};
use arrow::compute::filter_record_batch;
use arrow::datatypes::{DataType, Field as ArrowField, Schema as ArrowSchema};
use fakeset::json::{parse_json, parse_json_list, JsonEntry, JsonValue};
use fakeset::import::{
    count_csv_rows, count_jsonl_rows, detect_format, filter_ring, hash_row, hash_rows,
    json_schema, json_to_lines, load_import_headers, read_json_schema, read_jsonl_schema,
    record_file_type, project_batch, resolve_import_path, FileColumn, FileType,
    ImportHeader,
};
use fakeset::message::{Part, Problem};
use fakeset::models::{
    DatasetEntry, Field, FieldType, Format, ImportSpec, Num, RingBounds, SyntheticDataset,
};

fn num(x: f64) -> Num {
    Num::from_bits(x.to_bits())
}

fn text_of(p: &Problem) -> String {
    match &p.parts[0] {
        Part::Text(s) => s.clone(),
        other => panic!("unexpected part {other:?}"),
    }
}

/// The place of a row on the ring, between zero and one.
fn place(seed: u64, row: usize) -> f64 {
    hash_row(seed, row) as f64 * (1.0f64 / (1u64 << 53) as f64)
}

fn kept(index: &(RecordBatch, Vec<f64>), ring: &RingBounds) -> RecordBatch {
    let places: Vec<Num> = index.1.iter().map(|h| num(*h)).collect();
    let mask = BooleanArray::from(filter_ring(&places, ring));
    filter_record_batch(&index.0, &mask).unwrap()
}

// ── hash_row ─────────────────────────────────────────────────────────────

#[test]
fn hash_row_is_deterministic() {
    // Same (seed, index) must always produce the same value.
    let h = place(0, 0);
    assert_eq!(h, place(0, 0));
    assert_eq!(place(42, 100), place(42, 100));
    assert_eq!(place(u64::MAX, 9999), place(u64::MAX, 9999));
}

#[test]
fn hash_row_is_in_unit_interval() {
    for i in 0..1000_usize {
        let h = place(12345, i);
        assert!(h >= 0.0 && h < 1.0, "hash_row({i}) = {h} outside [0, 1)");
    }
}

#[test]
fn hash_row_different_seeds_produce_different_values() {
    // Two different seeds should almost never produce the same hash for the same index.
    let h1 = place(1, 0);
    let h2 = place(2, 0);
    assert_ne!(h1, h2, "different seeds should produce different hashes");
}

#[test]
fn hash_row_different_indices_produce_different_values() {
    let h0 = place(42, 0);
    let h1 = place(42, 1);
    assert_ne!(h0, h1, "consecutive indices should produce different hashes");
}

#[test]
fn hash_row_is_near_uniform() {
    // χ² bucket test: 10,000 rows, 10 equal-width buckets over [0, 1).
    // A perfect uniform distribution gives 1,000 per bucket.
    // We pass if every bucket has between 800 and 1,200 (80–120% of expected).
    const N: usize = 10_000;
    const BUCKETS: usize = 10;
    let mut counts = [0usize; BUCKETS];
    for i in 0..N {
        let h = place(99, i);
        let bucket = (h * BUCKETS as f64) as usize;
        counts[bucket.min(BUCKETS - 1)] += 1;
    }
    for (b, &c) in counts.iter().enumerate() {
        assert!(
            c >= 800 && c <= 1200,
            "bucket {b} has {c} entries — too far from the expected 1000 (seed 99)"
        );
    }
}

// ── filter_ring ───────────────────────────────────────────────────────────

fn make_index(symbols: &[&str], hashes: Vec<f64>) -> (RecordBatch, Vec<f64>) {
    assert_eq!(symbols.len(), hashes.len());
    let arr: StringArray = symbols.iter().map(|&s| Some(s)).collect();
    let schema = Arc::new(ArrowSchema::new(vec![ArrowField::new(
        "symbol",
        DataType::Utf8,
        true,
    )]));
    let batch =
        RecordBatch::try_new(schema, vec![Arc::new(arr) as ArrayRef]).expect("batch");
    (batch, hashes)
}

#[test]
fn filter_ring_returns_matching_rows() {
    // Three rows with known hashes.
    let index = make_index(
        &["AAPL", "MSFT", "GOOG"],
        vec![0.1, 0.5, 0.9],
    );
    let ring = RingBounds { start: num(0.4), end: num(0.8) };
    let result = kept(&index, &ring);

    assert_eq!(result.num_rows(), 1, "only MSFT (hash=0.5) falls in [0.4, 0.8)");
    let col = result
        .column(0)
        .as_any()
        .downcast_ref::<StringArray>()
        .expect("string array");
    assert_eq!(col.value(0), "MSFT");
}

#[test]
fn filter_ring_excludes_exact_end_boundary() {
    // Hash at exactly end=0.5 must be excluded (half-open [start, end)).
    let index = make_index(&["A", "B"], vec![0.3, 0.5]);
    let ring = RingBounds { start: num(0.0), end: num(0.5) };
    let result = kept(&index, &ring);
    assert_eq!(result.num_rows(), 1, "only A (hash=0.3) falls in [0.0, 0.5)");
}

#[test]
fn filter_ring_full_range_returns_all_rows() {
    let index = make_index(&["A", "B", "C"], vec![0.1, 0.5, 0.9]);
    let ring = RingBounds { start: num(0.0), end: num(1.0) };
    let result = kept(&index, &ring);
    assert_eq!(result.num_rows(), 3, "full [0.0, 1.0) should include all rows");
}

#[test]
fn filter_ring_empty_range_returns_no_rows() {
    let index = make_index(&["A", "B"], vec![0.2, 0.8]);
    // [0.4, 0.6) contains neither 0.2 nor 0.8.
    let ring = RingBounds { start: num(0.4), end: num(0.6) };
    let result = kept(&index, &ring);
    assert_eq!(result.num_rows(), 0);
}

#[test]
fn filter_ring_preserves_column_values() {
    // Two columns — verify both are projected correctly after filtering.
    let symbols: StringArray = ["X", "Y", "Z"].iter().map(|&s| Some(s)).collect();
    let scores: Float64Array = [1.0f64, 2.0, 3.0].into_iter().map(Some).collect();
    let schema = Arc::new(ArrowSchema::new(vec![
        ArrowField::new("symbol", DataType::Utf8, true),
        ArrowField::new("score", DataType::Float64, true),
    ]));
    let batch = RecordBatch::try_new(
        schema,
        vec![
            Arc::new(symbols) as ArrayRef,
            Arc::new(scores) as ArrayRef,
        ],
    )
    .expect("batch");
    let index = (batch, vec![0.1, 0.5, 0.9]);
    // Keep only X (0.1) and Z (0.9), skipping Y (0.5 is outside [0.7, 1.0) too).
    let ring = RingBounds { start: num(0.0), end: num(0.3) };
    let result = kept(&index, &ring);
    assert_eq!(result.num_rows(), 1);
    let sym = result
        .column(0)
        .as_any()
        .downcast_ref::<StringArray>()
        .unwrap();
    let sc = result
        .column(1)
        .as_any()
        .downcast_ref::<Float64Array>()
        .unwrap();
    assert_eq!(sym.value(0), "X");
    assert!((sc.value(0) - 1.0).abs() < 1e-9);
}

// ── own cases ──

#[test]
fn hash_row_has_its_known_values() {
    // The splitmix64 stream from zero starts with this number.
    assert_eq!(hash_row(0, 0), 0xE220_A839_7B1D_CDAF >> 11);
    assert_eq!(hash_rows(7, 3), vec![hash_row(7, 0), hash_row(7, 1), hash_row(7, 2)]);
}

#[test]
fn formats_follow_extensions() {
    assert_eq!(detect_format("/a/x.parquet").unwrap(), Format::Parquet);
    assert_eq!(detect_format("/a/x.ndjson").unwrap(), Format::Jsonl);
    assert_eq!(
        text_of(&detect_format("/a/x.txt").unwrap_err()),
        "unsupported import file format 'txt' (/a/x.txt); expected parquet, csv, json, or jsonl"
    );
    assert!(text_of(&detect_format("/a/x").unwrap_err()).contains("'(no extension)'"));
}

#[test]
fn files_lie_beside_their_dataset() {
    assert_eq!(resolve_import_path("/a/b/c.yaml", "../x.csv"), "/a/b/../x.csv");
    assert_eq!(resolve_import_path("c.yaml", "x.csv"), "x.csv");
    assert_eq!(resolve_import_path("/a/b/c.yaml", "/x.csv"), "/x.csv");
}

fn lines(s: &[&str]) -> Vec<String> {
    s.iter().map(|l| l.to_string()).collect()
}

#[test]
fn blank_lines_are_no_rows() {
    assert_eq!(count_csv_rows(&lines(&["a,b", "1,2", "  ", "3,4"])), 2);
    assert_eq!(count_csv_rows(&lines(&[])), 0);
    assert_eq!(count_jsonl_rows(&lines(&["{}", "", "{}"]), "f").unwrap(), 2);
    assert_eq!(
        text_of(&count_jsonl_rows(&lines(&[" "]), "f").unwrap_err()),
        "JSONL import file 'f' is empty"
    );
}

fn number(signed: bool, unsigned: bool, text: &str) -> JsonValue {
    JsonValue::Number { signed, unsigned, text: text.into() }
}

#[test]
fn json_texts_become_values() {
    match parse_json("{\"a\": [1, -2, 2.5, null], \"b\": {\"c\": true}, \"d\": \"x\"}").unwrap() {
        JsonValue::Object(entries) => {
            let keys: Vec<&str> = entries.iter().map(|e| e.key.as_str()).collect();
            assert_eq!(keys, vec!["a", "b", "d"]);
            let shown = format!("{:?}", entries[0].value);
            let items = vec![
                number(true, true, "1"),
                number(true, false, "-2"),
                number(false, false, "2.5"),
                JsonValue::Null,
            ];
            assert_eq!(shown, format!("{:?}", JsonValue::Array(items)));
            assert!(matches!(&entries[2].value, JsonValue::Text(s) if s == "x"));
        }
        other => panic!("unexpected value {other:?}"),
    }
    assert!(parse_json("{").is_err());
    assert_eq!(parse_json_list("[1, [], {}]").unwrap().len(), 3);
    assert!(parse_json_list("{}").is_err());
}

#[test]
fn json_files_show_their_columns() {
    let text = "[{\"n\": 1, \"x\": 0.5, \"t\": [\"a\"], \"o\": {\"b\": false}}, {}]";
    let (columns, rows) = read_json_schema(text, "f").unwrap();
    assert_eq!(rows, 2);
    let kinds: Vec<(&str, FileType)> =
        columns.iter().map(|c| (c.name.as_str(), record_file_type(&c.kind))).collect();
    assert_eq!(
        kinds,
        vec![
            ("n", FileType::Integer),
            ("o", FileType::Struct),
            ("t", FileType::List),
            ("x", FileType::Float),
        ]
    );
    assert_eq!(text_of(&read_json_schema("[]", "f").unwrap_err()), "JSON import file 'f' is empty");
    assert_eq!(
        text_of(&read_json_schema("[1]", "f").unwrap_err()),
        "import file 'f': expected a JSON object at the top level of each record"
    );
    assert_eq!(
        text_of(&read_json_schema("[", "f").unwrap_err()),
        "could not parse JSON import file 'f': EOF while parsing a list at line 1 column 1"
    );
}

#[test]
fn json_lines_show_their_columns() {
    let (columns, rows) =
        read_jsonl_schema(&lines(&[" {\"a\": true} ", "", "{}", "  "]), "f").unwrap();
    assert_eq!(rows, 2);
    assert_eq!(columns.len(), 1);
    assert_eq!(record_file_type(&columns[0].kind), FileType::Boolean);
    let empty = read_jsonl_schema(&lines(&["  "]), "f").unwrap_err();
    assert_eq!(text_of(&empty), "JSONL import file 'f' is empty");
    assert_eq!(
        text_of(&read_jsonl_schema(&lines(&["x"]), "f").unwrap_err()),
        "could not parse first line of JSONL 'f': expected value at line 1 column 1"
    );
    assert_eq!(
        text_of(&read_jsonl_schema(&lines(&["3"]), "f").unwrap_err()),
        "import file 'f': expected a JSON object at the top level of each record"
    );
}

#[test]
fn json_lists_become_lines() {
    let bytes = json_to_lines("[ {\"a\" : 1}, {\"b\" : \"x\"} ]", "f").unwrap();
    assert_eq!(bytes, b"{\"a\":1}\n{\"b\":\"x\"}\n".to_vec());
    assert_eq!(text_of(&json_to_lines("[]", "f").unwrap_err()), "JSON import file 'f' is empty");
    assert_eq!(
        text_of(&json_to_lines("?", "f").unwrap_err()),
        "JSON parse 'f': expected value at line 1 column 1"
    );
}

#[test]
fn records_show_their_types() {
    let record = JsonValue::Object(vec![
        JsonEntry { key: "n".into(), value: number(true, true, "5") },
        JsonEntry { key: "tags".into(), value: JsonValue::Array(vec![JsonValue::Text("x".into())]) },
    ]);
    let (columns, rows) = json_schema(&vec![record, JsonValue::Null], "f").unwrap();
    assert_eq!(rows, 2);
    assert_eq!(
        format!("{columns:?}"),
        "[ColumnField { name: \"n\", kind: Plain(Int64) }, ColumnField { name: \"tags\", kind: List(Plain(Utf8)) }]"
    );
    assert!(json_schema(&vec![], "f").is_err());
    assert!(json_schema(&vec![JsonValue::Null], "f").is_err());
}

fn importing(fields: &[&str], exclude: Option<&[&str]>, data: Vec<Field>) -> DatasetEntry {
    DatasetEntry {
        path: "/s/d.yaml".into(),
        dataset: SyntheticDataset {
            name: "d".into(),
            format: Format::Csv,
            rows: None,
            output: None,
            outputs: vec![],
            locale: None,
            include_spec: None,
            import: Some(ImportSpec {
                file: "d.csv".into(),
                reference: "d".into(),
                fields: lines(fields),
                exclude: exclude.map(lines),
                ring: None,
                total_rows: 0,
            }),
            links: vec![],
            data,
            variants: vec![],
        },
    }
}

fn header() -> Vec<ImportHeader> {
    vec![ImportHeader {
        columns: vec![
            FileColumn { name: "symbol".into(), kind: FileType::Other },
            FileColumn { name: "price".into(), kind: FileType::Float },
        ],
        total_rows: 12,
    }]
}

#[test]
fn imported_columns_come_first() {
    let own = Field {
        name: "note".into(),
        field_type: Some(FieldType::String),
        ..Default::default()
    };
    let d = vec![importing(&["*"], Some(&["symbol"]), vec![own])];
    let out = load_import_headers(&d, &header()).unwrap();
    let data = &out[0].dataset.data;
    assert_eq!(data.len(), 2);
    assert_eq!(data[0].name, "price");
    assert_eq!(data[0].field_type, Some(FieldType::Number));
    assert!(data[0].imported_taint && !data[1].imported_taint);
    assert_eq!(out[0].dataset.import.as_ref().unwrap().total_rows, 12);
}

#[test]
fn unknown_and_colliding_columns_are_refused() {
    let d = vec![importing(&["volume"], None, vec![])];
    assert_eq!(
        text_of(&load_import_headers(&d, &header()).unwrap_err()),
        "import column 'volume' not found in file schema (available: symbol, price)"
    );
    let own = Field { name: "price".into(), ..Default::default() };
    let d = vec![importing(&[], None, vec![own])];
    assert!(text_of(&load_import_headers(&d, &header()).unwrap_err())
        .starts_with("dataset 'd': `data.fields` entry 'price' collides"));
}

#[test]
fn projection_keeps_file_order() {
    let spec = importing(&["b", "a"], None, vec![]).dataset.import.unwrap();
    assert_eq!(project_batch(&lines(&["a", "b", "c"]), &spec), vec![0, 1]);
}

#[test]
fn white_space_is_what_unicode_lists() {
    let white = [
        '\u{9}', '\u{A}', '\u{B}', '\u{C}', '\u{D}', '\u{20}', '\u{85}', '\u{A0}', '\u{1680}',
        '\u{2000}', '\u{2005}', '\u{200A}', '\u{2028}', '\u{2029}', '\u{202F}', '\u{205F}',
        '\u{3000}',
    ];
    for c in white {
        assert_eq!(count_csv_rows(&vec!["a".to_string(), c.to_string()]), 0, "{c:?}");
        let first = format!("{c}{{\"a\":1}}{c}{c}");
        assert!(read_jsonl_schema(&vec![first], "f").is_ok(), "{c:?}");
    }
    for c in ['\u{8}', '\u{E}', '\u{1F}', '\u{180E}', '\u{200B}', '\u{2060}', '\u{FEFF}', 'x'] {
        assert_eq!(count_csv_rows(&vec!["a".to_string(), c.to_string()]), 1, "{c:?}");
    }
}
