//! Tables that imported files hold.
use arrow::array::{Array, Int64Array, StringArray};
use fakeset::import::{hash_row, json_to_lines};
use fakeset::message::{Part, Problem};
use fakeset::models::ImportSpec;
use fakeset::table::{index_table, load_json_full, load_jsonl_bytes, load_jsonl_full, ImportTable};

fn spec(fields: &[&str], exclude: Option<&[&str]>) -> ImportSpec {
    ImportSpec {
        file: "people.json".into(),
        reference: "people".into(),
        fields: fields.iter().map(|s| s.to_string()).collect(),
        exclude: exclude.map(|e| e.iter().map(|s| s.to_string()).collect()),
        ring: None,
        total_rows: 0,
    }
}

fn text_of(p: &Problem) -> String {
    match &p.parts[0] {
        Part::Text(s) => s.clone(),
        other => panic!("unexpected part {other:?}"),
    }
}

fn names(t: &ImportTable) -> Vec<String> {
    t.table.rows.schema().fields().iter().map(|f| f.name().clone()).collect()
}

fn ages(t: &ImportTable) -> Vec<i64> {
    let c = t.table.rows.column_by_name("age").unwrap().clone();
    c.as_any().downcast_ref::<Int64Array>().unwrap().values().to_vec()
}

#[test]
fn lines_become_rows() {
    let content = "{\"name\":\"Ann\",\"age\":30}\n{\"name\":\"Bo\",\"age\":41}\n";
    let t = load_jsonl_full(content, "p.jsonl", &spec(&[], None), 7).unwrap();
    let mut found = names(&t);
    found.sort();
    assert_eq!(found, ["age", "name"]);
    assert_eq!(t.table.rows.num_rows(), 2);
    assert_eq!(ages(&t), [30, 41]);
    assert_eq!(t.taken, [0, 1]);
    assert_eq!(t.places, [hash_row(7, 0), hash_row(7, 1)]);
}

#[test]
fn bytes_and_text_hold_the_same_table() {
    let content = "{\"age\":1}\n{\"age\":2}\n{\"age\":3}";
    let a = load_jsonl_full(content, "p.jsonl", &spec(&[], None), 1).unwrap();
    let b =
        load_jsonl_bytes(&content.as_bytes().to_vec(), "p.jsonl", &spec(&[], None), 1).unwrap();
    assert_eq!(a.table.rows, b.table.rows);
    assert_eq!(a.places, b.places);
}

#[test]
fn lists_of_records_become_rows() {
    let content = "[{\"name\": \"Ann\", \"age\": 30},\n {\"name\": \"Bo\", \"age\": 41}]";
    let t = load_json_full(content, "p.json", &spec(&["age"], None), 3).unwrap();
    assert_eq!(ages(&t), [30, 41]);
    assert_eq!(t.taken.len(), 1);
    assert_eq!(names(&t)[t.taken[0]], "age");
    let lines = json_to_lines(content, "p.json").unwrap();
    let same = load_jsonl_bytes(&lines, "p.json", &spec(&["age"], None), 3).unwrap();
    assert_eq!(t.table.rows, same.table.rows);
}

#[test]
fn excluded_columns_are_not_taken() {
    let content = "{\"name\":\"Ann\",\"age\":30}";
    let t = load_jsonl_full(content, "p.jsonl", &spec(&[], Some(&["name"])), 0).unwrap();
    assert_eq!(t.taken.len(), 1);
    assert_eq!(names(&t)[t.taken[0]], "age");
}

#[test]
fn empty_bytes_hold_no_rows() {
    let t = load_jsonl_full("", "p.jsonl", &spec(&[], None), 0).unwrap();
    assert_eq!(t.table.rows.num_rows(), 0);
    assert!(names(&t).is_empty());
    assert!(t.places.is_empty());
}

#[test]
fn many_rows_are_joined() {
    let content: String = (0..3000).map(|i| format!("{{\"age\":{i}}}\n")).collect();
    let t = load_jsonl_full(&content, "p.jsonl", &spec(&[], None), 5).unwrap();
    assert_eq!(ages(&t), (0..3000).collect::<Vec<i64>>());
    assert_eq!(t.places.len(), 3000);
}

#[test]
fn unreadable_records_are_refused() {
    let broken = load_jsonl_full("{\"age\":", "p.jsonl", &spec(&[], None), 0).unwrap_err();
    assert!(text_of(&broken).starts_with("JSONL schema 'p.jsonl': "));
    let number = load_jsonl_full("17\n", "p.jsonl", &spec(&[], None), 0).unwrap_err();
    assert!(text_of(&number).starts_with("JSONL schema 'p.jsonl': "));
    let list = load_json_full("{\"age\": 1}", "p.json", &spec(&[], None), 0).unwrap_err();
    assert!(text_of(&list).starts_with("JSON parse 'p.json': "));
    let empty = load_json_full("[]", "p.json", &spec(&[], None), 0).unwrap_err();
    assert_eq!(text_of(&empty), "JSON import file 'p.json' is empty");
}

#[test]
fn a_table_can_be_indexed_again() {
    let content = "{\"name\":\"Ann\",\"age\":30}\n{\"name\":\"Bo\",\"age\":41}\n";
    let t = load_jsonl_full(content, "p.jsonl", &spec(&[], None), 7).unwrap();
    let again = index_table(t.table, &spec(&["name"], None), 8);
    assert_eq!(again.taken.len(), 1);
    assert_eq!(names(&again)[again.taken[0]], "name");
    assert_eq!(again.places, [hash_row(8, 0), hash_row(8, 1)]);
    let c = again.table.rows.column_by_name("name").unwrap().clone();
    let c = c.as_any().downcast_ref::<StringArray>().unwrap();
    assert_eq!((c.value(0), c.value(1), c.len()), ("Ann", "Bo", 2));
}
