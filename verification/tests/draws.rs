//! Drawing linked rows, and gathering values back.
use fakeset::accumulate::{
    accumulate_numbers, accumulate_texts, aggregate_rows, default_fill, gather_lists, new_column,
    plan_accumulation, take_positions, ColumnKind, DefaultFill, NewColumn, Piece,
};
use fakeset::draws::{
    build_witness_dedup, draw_exclusive_shards, draw_from_shards, draw_junction, draw_shared_linked,
    draws_exclusively, flatten_refs,
    junction_draw_mode, limit_draws, rows_by_picks, sample_linked_uniform,
    sample_linked_without_replacement, shard_draw_counts, shard_draw_mode, shard_of, shard_size,
    shared_draw_mode, slot_counts, tag_draws, unnest_staging_refs, whole_shards, DrawMode,
    ShardDraw,
};
use fakeset::message::{Part, Problem};
use fakeset::models::{Include, Num, Reducer, YamlValue};

fn num(x: f64) -> Num {
    Num::from_bits(x.to_bits())
}

fn text_of(p: &Problem) -> String {
    let mut out = String::new();
    for part in &p.parts {
        match part {
            Part::Text(s) => out.push_str(s),
            Part::Number(n) => out.push_str(&format!("{}", f64::from_bits(n.to_bits()))),
        }
    }
    out
}

fn link(reinforcement: Option<f64>, overlap: Option<f64>) -> Include {
    Include {
        file: "p.yaml".into(),
        resolved: Some("/a/p.yaml".into()),
        reference: "p".into(),
        ratio: None,
        cardinality: None,
        reinforcement: reinforcement.map(num),
        overlap: overlap.map(num),
        fields: vec![],
        exclude: None,
    }
}

#[test]
fn modes_follow_reinforcement_and_overlap() {
    assert_eq!(shared_draw_mode(&link(Some(0.0), Some(3.0))), DrawMode::Once);
    assert_eq!(
        shared_draw_mode(&link(Some(2.0), Some(3.0))),
        DrawMode::PowerLaw { overlap: num(3.0), reinforcement: num(2.0) }
    );
    assert_eq!(
        shared_draw_mode(&link(None, Some(3.0))),
        DrawMode::PowerLaw { overlap: num(3.0), reinforcement: num(1.0) }
    );
    assert_eq!(
        shared_draw_mode(&link(Some(2.0), None)),
        DrawMode::Reinforced { reinforcement: num(2.0) }
    );
    assert_eq!(shared_draw_mode(&link(Some(1.0), Some(1.0))), DrawMode::Uniform);
    assert_eq!(
        shard_draw_mode(&link(Some(2.0), Some(3.0))),
        DrawMode::Reinforced { reinforcement: num(2.0) }
    );
    assert!(draws_exclusively(&link(None, Some(0.0))));
    assert!(!draws_exclusively(&link(None, Some(0.5))));
    assert_eq!(junction_draw_mode(&link(Some(2.0), Some(0.0))), DrawMode::Once);
    assert_eq!(limit_draws(DrawMode::Once, 5, 3), 3);
    assert_eq!(limit_draws(DrawMode::Uniform, 5, 3), 5);
}

#[test]
fn picks_shuffle_from_the_front() {
    assert_eq!(rows_by_picks(4, &vec![2, 1, 3]), vec![2, 1, 3]);
    assert_eq!(rows_by_picks(4, &vec![3, 3, 3]), vec![3, 0, 1]);
    assert_eq!(rows_by_picks(3, &vec![]), Vec::<u32>::new());
}

#[test]
fn drawing_without_replacement_repeats_nothing() {
    for _ in 0..50 {
        let mut rows = sample_linked_without_replacement(10, 10);
        rows.sort();
        assert_eq!(rows, (0..10).collect::<Vec<u32>>());
    }
    let some = sample_linked_uniform(3, 100);
    assert_eq!(some.len(), 100);
    assert!(some.iter().all(|r| *r < 3));
}

#[test]
fn draws_are_tagged_by_slot() {
    assert_eq!(tag_draws(4, &vec![2, 0, 3]), vec![4, 4, 6, 6, 6]);
}

#[test]
fn shards_do_not_meet() {
    assert_eq!(shard_of(0, 3, 7), (0, 3));
    assert_eq!(shard_of(2, 3, 7), (6, 1));
    assert_eq!(shard_of(3, 3, 7), (9, 0));
    let draws = vec![
        ShardDraw { surviving: vec![0, 2], samples: vec![1, 0] },
        ShardDraw { surviving: vec![1], samples: vec![0, 0] },
    ];
    let (rows, slots) = draw_exclusive_shards(1, 10, 3, &draws);
    assert_eq!(rows, vec![5, 3, 7, 7]);
    assert_eq!(slots, vec![1, 1, 2, 2]);
}

#[test]
fn drawn_rows_are_kept_once_with_all_their_slots() {
    let (rows, refs) = build_witness_dedup(&vec![1, 0, 1, 2], &vec![7, 7, 8, 8], &vec![10, 20, 30]);
    assert_eq!(rows.len(), 3);
    assert_eq!(refs.len(), 3);
    for (row, slots) in rows.iter().zip(&refs) {
        match row {
            10 => assert_eq!(slots, &vec![7]),
            20 => assert_eq!(slots, &vec![7, 8]),
            30 => assert_eq!(slots, &vec![8]),
            _ => panic!("row {} was not drawn", row),
        }
    }
}

#[test]
fn unnested_draws_come_slot_by_slot() {
    let refs = vec![vec![2, 0], vec![], vec![1, 0]];
    let (slots, rows) = flatten_refs(&refs);
    assert_eq!(slots, vec![2, 0, 1, 0]);
    assert_eq!(rows, vec![0, 0, 2, 2]);
    let (slots, rows) = unnest_staging_refs(&refs);
    assert_eq!(slots, vec![0, 0, 1, 2]);
    assert_eq!(rows[2..], [2, 0]);
    let mut first = rows[..2].to_vec();
    first.sort();
    assert_eq!(first, vec![0, 2]);
    assert_eq!(slot_counts(&slots, 4), vec![2, 1, 1, 0]);
}

#[test]
fn rows_find_their_aggregates() {
    let groups = vec![3, 0];
    assert_eq!(aggregate_rows(&groups, 4), vec![Some(1), None, None, Some(0)]);
    assert_eq!(take_positions(&groups, 4), vec![1, 3, 4, 0]);
}

#[test]
fn gathered_lists_join_what_is_there() {
    let (offsets, pieces) = gather_lists(&vec![1, 0], None, &vec![2, 1], 3);
    assert_eq!(offsets, vec![0, 1, 3, 3]);
    assert_eq!(pieces, vec![Piece::Gathered(1), Piece::Gathered(0)]);
    let (offsets, pieces) = gather_lists(&vec![1], Some(&vec![2, 0, 1]), &vec![2], 3);
    assert_eq!(offsets, vec![0, 2, 4, 5]);
    assert_eq!(pieces, vec![Piece::Existing(0), Piece::Existing(1), Piece::Gathered(0), Piece::Existing(2)]);
}

#[test]
fn reducers_build_columns() {
    assert_eq!(new_column(&Reducer::Collect, true), NewColumn::Lists);
    assert_eq!(new_column(&Reducer::Collect, false), NewColumn::Lists);
    assert_eq!(new_column(&Reducer::Sum, true), NewColumn::Take);
    assert_eq!(new_column(&Reducer::TakeOne, false), NewColumn::Keep);
    assert_eq!(new_column(&Reducer::Max, false), NewColumn::Combine);
    let old_values = vec![Some(num(2.0)), None, Some(num(5.0)), None];
    let gathered = vec![Some(num(3.0)), Some(num(-1.0))];
    let sums = vec![num(5.0), num(-1.0), num(5.0), num(0.0)];
    let groups = vec![0, 1];
    let run = |r: Reducer| accumulate_numbers(&r, &old_values, &gathered, &sums, &groups);
    assert_eq!(run(Reducer::Sum), vec![Some(num(5.0)), Some(num(-1.0)), Some(num(5.0)), None]);
    assert_eq!(run(Reducer::Max), vec![Some(num(3.0)), Some(num(0.0)), Some(num(5.0)), None]);
    assert_eq!(run(Reducer::Min), vec![Some(num(2.0)), Some(num(-1.0)), Some(num(5.0)), None]);
    let texts = accumulate_texts(
        &Reducer::Max,
        &vec![Some("b".into()), None, Some("z".into()), None],
        &vec![Some("a".into()), Some("c".into())],
        &vec![0, 1],
    );
    let expected = [Some("b"), Some("c"), Some("z"), None];
    assert_eq!(texts, expected.map(|t| t.map(String::from)).to_vec());
}

#[test]
fn defaults_fill_by_column() {
    let text = YamlValue::Text("x".into());
    assert!(matches!(default_fill(&text, ColumnKind::Text), DefaultFill::Text(s) if s == "x"));
    assert!(matches!(default_fill(&text, ColumnKind::Number), DefaultFill::Number(n) if n == num(0.0)));
    let whole = YamlValue::Int { value: 4, num: num(4.0) };
    assert!(matches!(default_fill(&whole, ColumnKind::Number), DefaultFill::Number(n) if n == num(4.0)));
    assert!(matches!(default_fill(&whole, ColumnKind::Other), DefaultFill::Nulls));
}

#[test]
fn slots_share_linked_rows() {
    let none = vec![vec![], vec![]];
    let (rows, slots) = draw_shared_linked(3, 2, &link(Some(0.0), None), &vec![5, 1], &none);
    assert_eq!(slots, vec![3, 3, 4]);
    assert_ne!(rows[0], rows[1]);
    let (rows, slots) = draw_shared_linked(0, 4, &link(None, None), &vec![2, 3], &none);
    assert_eq!(slots, vec![0, 0, 1, 1, 1]);
    assert!(rows.iter().all(|r| *r < 4));
    let by_weight = vec![vec![1, 1], vec![0]];
    let (rows, slots) = draw_shared_linked(0, 4, &link(Some(2.0), None), &vec![2, 1], &by_weight);
    assert_eq!(rows, vec![1, 1, 0]);
    assert_eq!(slots, vec![0, 0, 1]);
    let (rows, slots) = draw_shared_linked(0, 0, &link(None, None), &vec![2, 3], &none);
    assert!(rows.is_empty() && slots.is_empty());
}

#[test]
fn junctions_draw_one_row_each() {
    let mut rows = draw_junction(&link(None, Some(0.0)), 6, 6, &vec![]);
    rows.sort();
    assert_eq!(rows, vec![0, 1, 2, 3, 4, 5]);
    assert_eq!(draw_junction(&link(Some(3.0), None), 6, 2, &vec![4, 4]), vec![4, 4]);
    assert_eq!(draw_junction(&link(None, None), 1, 3, &vec![]), vec![0, 0, 0]);
}

#[test]
fn gathering_needs_its_column() {
    let source = vec!["_staging_refs".to_string(), "v".to_string()];
    let linked = vec!["id".to_string(), "total".to_string()];
    let plan = |field: &str, r: Reducer, first: bool, kind: ColumnKind| {
        plan_accumulation(&source, &linked, field, &r, first, kind, "Boolean")
    };
    let g = plan("total", Reducer::Sum, true, ColumnKind::Other).unwrap();
    assert!(g.unnest);
    assert_eq!(g.column, 1);
    assert_eq!(g.how, NewColumn::Take);
    assert_eq!(
        text_of(&plan("sum", Reducer::Sum, true, ColumnKind::Number).unwrap_err()),
        "AccumulateToLinked: field 'sum' not found in linked batch"
    );
    assert_eq!(
        text_of(&plan("total", Reducer::Max, false, ColumnKind::Other).unwrap_err()),
        "accumulate_scalar_cumulative: unsupported data type Boolean for reducer"
    );
}

#[test]
fn eligible_rows_are_shared_out_evenly() {
    assert_eq!(shard_size(10, 3), 3);
    assert_eq!(shard_size(2, 3), 0);
    assert_eq!(shard_size(10, 0), 0);
    let shards = whole_shards(0, 3, 3, 10);
    assert_eq!(shards, vec![vec![0, 1, 2]; 3]);
    for (i, s) in shards.iter().enumerate() {
        assert_eq!(s.len(), shard_of(i, 3, 10).1);
    }
}

#[test]
fn slots_draw_from_shards_of_their_own() {
    let own = link(Some(0.0), Some(0.0));
    let q = shard_size(10, 3);
    let surviving = whole_shards(0, 3, q, 10);
    let wanted = vec![2, 5, 0];
    assert_eq!(shard_draw_counts(&own, &wanted, &surviving), vec![2, 3, 0]);
    let none = vec![vec![]; 3];
    let (rows, slots) = draw_from_shards(0, 10, q, &own, &wanted, &surviving, &none);
    assert_eq!(slots, vec![0, 0, 1, 1, 1]);
    for (r, s) in rows.iter().zip(&slots) {
        let (start, len) = shard_of(*s as usize, q, 10);
        assert!((start..start + len).contains(&(*r as usize)));
    }
    let mut distinct = rows.clone();
    distinct.sort();
    distinct.dedup();
    assert_eq!(distinct.len(), rows.len());
}

#[test]
fn slots_draw_only_what_is_left_of_their_shard() {
    let own = link(None, Some(0.0));
    let left = vec![vec![2], vec![], vec![1]];
    assert_eq!(shard_draw_counts(&own, &vec![3, 3, 1], &left), vec![3, 0, 1]);
    let none = vec![vec![]; 3];
    let (rows, slots) = draw_from_shards(0, 9, 3, &own, &vec![3, 3, 1], &left, &none);
    assert_eq!(rows, vec![2, 2, 2, 7]);
    assert_eq!(slots, vec![0, 0, 0, 2]);
}

#[test]
fn repeated_sums_add_up() {
    let first = accumulate_numbers(
        &Reducer::Sum,
        &vec![Some(num(1.0)), None, Some(num(4.0))],
        &vec![Some(num(2.0)), Some(num(8.0))],
        &vec![num(3.0), num(8.0), num(4.0)],
        &vec![0, 1],
    );
    assert_eq!(first, vec![Some(num(3.0)), Some(num(8.0)), Some(num(4.0))]);
    let second = accumulate_numbers(
        &Reducer::Sum,
        &first,
        &vec![Some(num(10.0))],
        &vec![num(13.0), num(8.0), num(4.0)],
        &vec![0],
    );
    assert_eq!(second, vec![Some(num(13.0)), Some(num(8.0)), Some(num(4.0))]);
}
