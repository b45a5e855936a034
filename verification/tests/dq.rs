//! Degradation of finished rows.
use std::sync::Arc;

use arrow::array::{Array, ArrayRef, BooleanArray, RecordBatch, StringArray, UInt32Array};
use arrow::compute::{filter_record_batch, take};
use arrow::datatypes::{DataType, Field as ArrowField, Schema as ArrowSchema};
use fake::Fake;
use fakeset::corrupt::{corrupt_text, corrupt_texts, shift_days, shift_times};
use fakeset::dq::{
    build_default_set, cell_passes, choose_replacements, column_quality, corrupt_char_deletion,
    corrupt_char_insertion, draw_replacements,
    corrupt_encoding, corrupt_truncation, duplicated_rows, in_ascending_order,
    draw_shift, replace_with_defaults, row_passes, shift_day, shift_time, spared, CellPass, Cells,
    CorruptionStep, DefaultValue, RowPass, MICROS_PER_DAY,
};
use fakeset::models::{
    Corruptions, DataQuality, DefaultsMode, Field, FieldType, Num, YamlValue,
};

fn num(x: f64) -> Num {
    Num::from_bits(x.to_bits())
}

fn draw() -> Num {
    num((0.0..1.0).fake::<f64>())
}

fn quality() -> DataQuality {
    DataQuality {
        duplication: None,
        missing: None,
        nulls: None,
        default_rate: None,
        corruptions: None,
        default_values: None,
        defaults_mode: None,
    }
}

fn corruptions() -> Corruptions {
    Corruptions {
        character_deletion: None,
        character_insertion: None,
        truncation: None,
        encoding: None,
        noise: None,
        noise_scale: num(1.0),
        day_shift: None,
        day_shift_max: 30,
    }
}

fn string_batch(vals: Vec<&str>) -> RecordBatch {
    let schema = Arc::new(ArrowSchema::new(vec![ArrowField::new(
        "name",
        DataType::Utf8,
        true,
    )]));
    let col: ArrayRef = Arc::new(StringArray::from(vals));
    RecordBatch::try_new(schema, vec![col]).unwrap()
}

fn typed(name: &str, t: FieldType) -> Field {
    Field { name: name.to_string(), field_type: Some(t), ..Default::default() }
}

#[test]
fn duplication_increases_row_count() {
    let batch = string_batch(vec!["a", "b", "c", "d", "e", "f", "g", "h", "i", "j"]);
    let n = batch.num_rows();
    let rows = duplicated_rows(n, (0.5 * n as f64).round() as usize);
    let more = take(batch.column(0), &UInt32Array::from(rows), None).unwrap();
    let col = arrow::compute::concat(&[batch.column(0).as_ref(), more.as_ref()]).unwrap();
    let result = RecordBatch::try_new(batch.schema(), vec![col]).unwrap();
    assert!(result.num_rows() > batch.num_rows());
}

#[test]
fn missing_reduces_row_count() {
    // Use a large batch so the Bernoulli rate reliably removes rows.
    let vals: Vec<&str> = (0..1000).map(|_| "x").collect();
    let batch = string_batch(vals);
    let draws: Vec<Num> = (0..batch.num_rows()).map(|_| draw()).collect();
    let mask = BooleanArray::from(spared(&draws, num(0.5)));
    let result = filter_record_batch(&batch, &mask).unwrap();
    assert!(result.num_rows() < batch.num_rows());
}

#[test]
fn null_rate_introduces_nulls() {
    let vals: Vec<&str> = (0..1000).map(|_| "hello").collect();
    let q = DataQuality { nulls: Some(num(0.5)), ..quality() };
    let passes = cell_passes(&column_quality("name", &q, &vec![]));
    assert_eq!(passes, vec![CellPass::Nulls(num(0.5))]);
    let draws: Vec<Num> = (0..vals.len()).map(|_| draw()).collect();
    let keep = spared(&draws, num(0.5));
    let col: StringArray =
        vals.iter().zip(&keep).map(|(s, k)| if *k { Some(*s) } else { None }).collect();
    let null_count = (0..col.len()).filter(|&i| col.is_null(i)).count();
    assert!(null_count > 0, "expected nulls to be introduced");
}

#[test]
fn truncation_shortens_strings() {
    let q = DataQuality {
        corruptions: Some(Corruptions {
            truncation: Some(num(1.0)), // fire on every cell
            ..corruptions()
        }),
        ..quality()
    };
    let schema = vec![typed("name", FieldType::String)];
    let passes = cell_passes(&column_quality("name", &q, &schema));
    assert_eq!(passes, vec![CellPass::Corrupt(CorruptionStep::Truncation(num(1.0)))]);
    let shortened = (0..100)
        .map(|_| {
            let s = "hello_world";
            corrupt_truncation(s, draw(), num(1.0), (0..s.len()).fake::<usize>())
        })
        .filter(|s| s.len() < "hello_world".len())
        .count();
    assert!(shortened > 0);
}

#[test]
fn rows_are_repeated_before_rows_are_left_out() {
    let q = DataQuality { duplication: Some(num(0.1)), missing: Some(num(0.2)), ..quality() };
    assert_eq!(row_passes(&q), vec![RowPass::Duplicate(num(0.1)), RowPass::Drop(num(0.2))]);
    let q = DataQuality { duplication: Some(num(0.0)), ..quality() };
    assert_eq!(row_passes(&q), vec![]);
}

#[test]
fn repeated_rows_are_sorted() {
    assert_eq!(in_ascending_order(&vec![5, 1, 4, 1]), vec![1, 1, 4, 5]);
    let rows = duplicated_rows(10, 6);
    assert_eq!(rows.len(), 6);
    assert!(rows.windows(2).all(|w| w[0] <= w[1]) && rows.iter().all(|r| *r < 10));
}

#[test]
fn a_field_overrides_its_dataset_slot_by_slot() {
    let q = DataQuality { nulls: Some(num(0.1)), default_rate: Some(num(0.2)), ..quality() };
    let mut f = typed("n", FieldType::Number);
    f.quality = Some(DataQuality { nulls: Some(num(0.9)), ..quality() });
    let c = column_quality("n", &q, &vec![f]);
    assert_eq!((c.nulls, c.default_rate), (Some(num(0.9)), Some(num(0.2))));
    assert_eq!(c.field_type, FieldType::Number);
    assert_eq!(column_quality("x", &q, &vec![]).field_type, FieldType::String);
}

#[test]
fn defaults_replace_cells_of_their_kind() {
    let declared = Some(vec![YamlValue::Text("?".into())]);
    let shown = vec!["String(\"?\")".to_string()];
    let all = build_default_set(FieldType::String, &declared, &shown, None);
    assert_eq!(all.len(), 7);
    let own =
        build_default_set(FieldType::String, &declared, &shown, Some(DefaultsMode::Override));
    assert!(matches!(&own[..], [DefaultValue::Text(s)] if s == "?"));
    let cells = Cells::Texts(vec![Some("a".into()), None, Some("b".into())]);
    match replace_with_defaults(&cells, &own, &vec![Some(0), Some(0), None]) {
        Cells::Texts(v) => {
            assert_eq!(v, vec![Some("?".to_string()), Some("?".to_string()), Some("b".to_string())])
        }
        other => panic!("unexpected cells {other:?}"),
    }
    let numbers = Cells::Numbers(vec![Some(num(1.0))]);
    match replace_with_defaults(&numbers, &own, &vec![Some(0)]) {
        Cells::Numbers(v) => assert_eq!(v, vec![Some(num(1.0))]),
        other => panic!("unexpected cells {other:?}"),
    }
    assert_eq!(build_default_set(FieldType::Date, &None, &vec![], None).len(), 3);
}

#[test]
fn texts_lose_gain_and_mangle_characters() {
    let (hit, miss, rate) = (num(0.1), num(0.9), num(0.5));
    assert_eq!(corrupt_char_deletion("abc", hit, rate, 1), "ac");
    assert_eq!(corrupt_char_deletion("abc", miss, rate, 1), "abc");
    assert_eq!(corrupt_char_deletion("", hit, rate, 0), "");
    assert_eq!(corrupt_char_insertion("abc", hit, rate, 3, 1), "abc!");
    assert_eq!(corrupt_char_insertion("", hit, rate, 0, 94), "~");
    assert_eq!(corrupt_truncation("abc", hit, rate, 2), "ab");
    // Both bytes of the letter become the lead byte of another, which is no text on its own.
    let s = "é";
    let mangled = corrupt_encoding(s, hit, rate, 0, s.len());
    assert_ne!(mangled, s);
    assert!(mangled.contains('\u{FFFD}'));
    assert_eq!(corrupt_encoding("plain", hit, rate, 0, 5), "plain");
}

#[test]
fn dates_are_shifted() {
    let (hit, rate) = (num(0.1), num(0.5));
    assert_eq!(shift_day(100, hit, rate, 30, -7), 93);
    assert_eq!(shift_day(100, hit, rate, 0, 0), 100);
    assert!((0..50).all(|_| (-3..=3).contains(&draw_shift(3))));
    assert!((0..200).any(|_| draw_shift(3) < 0) && (0..200).any(|_| draw_shift(3) > 0));
    assert_eq!(draw_shift(0), 0);
    assert_eq!(shift_time(5, hit, rate, 30, 2, MICROS_PER_DAY), 172_800_000_005);
}

#[test]
fn cells_below_the_rate_get_a_default() {
    let draws = vec![num(0.1), num(0.5), num(0.49), num(0.9)];
    assert_eq!(
        choose_replacements(&draws, num(0.5), &vec![2, 1, 0, 1]),
        vec![Some(2), None, Some(0), None]
    );
    let rolls: Vec<Num> = (0..500).map(|_| draw()).collect();
    let chosen = draw_replacements(&rolls, num(0.5), 3);
    assert_eq!(chosen.len(), 500);
    for (c, d) in chosen.iter().zip(&rolls) {
        assert_eq!(c.is_some(), d.lt(num(0.5)));
        assert!(c.map_or(true, |k| k < 3));
    }
    for k in 0..3 {
        assert!(chosen.contains(&Some(k)));
    }
    assert_eq!(draw_replacements(&rolls, num(0.0), 1), vec![None; 500]);
    assert_eq!(draw_replacements(&rolls, num(1.0), 1), vec![Some(0); 500]);
}

fn words(cells: &[Option<&str>]) -> Vec<Option<String>> {
    cells.iter().map(|c| c.map(String::from)).collect()
}

#[test]
fn columns_of_texts_are_corrupted_cell_by_cell() {
    let cells = words(&[Some("abc"), None, Some(""), Some("déjà")]);
    let (low, high) = (num(0.1), num(0.9));
    let rate = num(0.5);
    let missed = vec![high; 4];
    for step in [
        CorruptionStep::Deletion(rate),
        CorruptionStep::Insertion(rate),
        CorruptionStep::Truncation(rate),
        CorruptionStep::Encoding(rate),
    ] {
        assert_eq!(corrupt_texts(&step, &missed, &cells), cells);
    }
    let draws = vec![low, low, low, high];
    for _ in 0..50 {
        let cut = corrupt_texts(&CorruptionStep::Deletion(rate), &draws, &cells);
        assert!(["bc", "ac", "ab"].contains(&cut[0].as_deref().unwrap()));
        assert_eq!(cut[1..], cells[1..]);
        let grown = corrupt_texts(&CorruptionStep::Insertion(rate), &draws, &cells);
        assert_eq!(grown[0].as_ref().unwrap().chars().count(), 4);
        assert_eq!(grown[1], None);
        assert_eq!(grown[2].as_ref().unwrap().chars().count(), 1);
        let short = corrupt_texts(&CorruptionStep::Truncation(rate), &draws, &cells);
        assert!(["", "a", "ab"].contains(&short[0].as_deref().unwrap()));
        let plain = corrupt_text(&CorruptionStep::Encoding(rate), low, "plain");
        assert_eq!(plain, "plain");
    }
    let mangled: Vec<String> = (0..200)
        .map(|_| corrupt_text(&CorruptionStep::Encoding(rate), low, "é"))
        .collect();
    assert!(mangled.iter().any(|s| s.contains('\u{FFFD}')));
}

#[test]
fn columns_of_dates_are_shifted_cell_by_cell() {
    let (hit, miss, rate) = (num(0.0), num(0.9), num(0.5));
    let days = vec![Some(100), None, Some(200)];
    let mut moved = false;
    for _ in 0..100 {
        let out = shift_days(&days, &vec![hit, hit, miss], rate, 3).unwrap();
        let first = out[0].unwrap();
        assert!((97..=103).contains(&first));
        assert_eq!(out[1..], days[1..]);
        moved = moved || first != 100;
    }
    assert!(moved);
    assert_eq!(shift_days(&days, &vec![hit; 3], rate, 0), Some(days));
    let edge = vec![Some(i32::MAX)];
    let results: Vec<_> = (0..100).map(|_| shift_days(&edge, &vec![hit], rate, 2)).collect();
    assert!(results.iter().any(|r| r.is_none()));
    let times = vec![Some(5i64), None];
    for _ in 0..100 {
        let out = shift_times(&times, &vec![hit; 2], rate, 2, MICROS_PER_DAY).unwrap();
        let by = out[0].unwrap() - 5;
        assert!(by % MICROS_PER_DAY == 0 && by.abs() <= 2 * MICROS_PER_DAY);
        assert_eq!(out[1], None);
    }
    assert_eq!(shift_times(&times, &vec![miss; 2], rate, 2, MICROS_PER_DAY), Some(times));
}
