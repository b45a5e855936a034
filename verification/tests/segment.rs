//! Splitting a parent's rows over combinations of members.
use fakeset::constraints::FieldConstraints;
use fakeset::message::{Part, Problem};
use fakeset::models::{
    Field, FieldType, Format, Num, RefsSpec, RingBounds, SyntheticDataset, YamlValue,
};
use fakeset::segment::{
    assign_ring_slices, enumerate_segments, largest_remainder, plan_segments, Cell,
    ExclusionGroup, LowerCoverMember, Segment, Shares,
};
use fakeset::text_map::TextMap;

fn num(x: f64) -> Num {
    Num::from_bits(x.to_bits())
}

fn double(n: Num) -> f64 {
    f64::from_bits(n.to_bits())
}

fn text_of(p: &Problem) -> String {
    let mut out = String::new();
    for part in &p.parts {
        match part {
            Part::Text(s) => out.push_str(s),
            Part::Number(n) => out.push_str(&format!("{}", double(*n))),
        }
    }
    out
}

/// Whole parts and fractions of the exact shares of `total`.
fn shares_of(weights: &[f64], total: usize) -> Shares {
    let sum: f64 = weights.iter().sum();
    let scaled: Vec<f64> = weights
        .iter()
        .map(|w| if sum > 0.0 { w / sum * total as f64 } else { 0.0 })
        .collect();
    Shares {
        floors: scaled.iter().map(|s| s.floor() as usize).collect(),
        fracs: scaled.iter().map(|s| num(s.fract())).collect(),
        sum: num(sum),
    }
}

fn rounded(weights: &[f64], total: usize) -> Vec<usize> {
    let s = shares_of(weights, total);
    largest_remainder(&s.floors, &s.fracs, s.sum, total)
}

/// What a group leaves for no case.
fn rest(g: &ExclusionGroup) -> f64 {
    (1.0 - g.ratios.iter().map(|r| double(*r)).sum::<f64>()).max(0.0)
}

fn weight(cell: &Cell, members: &[LowerCoverMember], groups: &[ExclusionGroup]) -> f64 {
    let holds = |i: usize| cell.ones.contains(&(i as u64));
    let mut w = 1.0;
    for (i, m) in members.iter().enumerate() {
        if groups.iter().any(|g| g.members.contains(&i)) {
            continue;
        }
        let r = double(m.ratio);
        w *= if holds(i) { r } else { 1.0 - r };
    }
    for g in groups {
        w *= match g.members.iter().position(|&i| holds(i)) {
            Some(k) => double(g.ratios[k]),
            None => rest(g),
        };
    }
    w
}

/// Iterative proportional fitting of the weights to the declared ratios.
fn fit(weights: &mut [f64], cells: &[Cell], members: &[LowerCoverMember]) {
    for _ in 0..200 {
        let mut converged = true;
        for (i, m) in members.iter().enumerate() {
            let target = double(m.ratio);
            let inside: Vec<bool> = cells.iter().map(|c| c.ones.contains(&(i as u64))).collect();
            let mass = |which: bool| -> f64 {
                let mut s = 0.0;
                for (k, w) in weights.iter().enumerate() {
                    if inside[k] == which {
                        s += w;
                    }
                }
                s
            };
            let (mass_in, mass_out) = (mass(true), mass(false));
            if mass_in <= 1e-12 || mass_out <= 1e-12 {
                continue;
            }
            if (mass_in - target).abs() > 1e-9 {
                converged = false;
                for (k, w) in weights.iter_mut().enumerate() {
                    *w *= if inside[k] { target / mass_in } else { (1.0 - target) / mass_out };
                }
            }
        }
        if converged {
            break;
        }
    }
}

fn plan(
    rows: usize,
    members: Vec<LowerCoverMember>,
    groups: Vec<ExclusionGroup>,
) -> Result<Vec<Segment>, Problem> {
    let open: Vec<bool> = groups.iter().map(|g| rest(g) > f64::EPSILON).collect();
    let cells = enumerate_segments(&members, &groups, &open)?;
    let mut weights: Vec<f64> = cells.iter().map(|c| weight(c, &members, &groups)).collect();
    let total: f64 = weights.iter().sum();
    if total > 0.0 && total < 1.0 - 1e-9 {
        for w in weights.iter_mut() {
            *w /= total;
        }
        fit(&mut weights, &cells, &members);
    }
    Ok(plan_segments(rows, &members, &cells, &shares_of(&weights, rows)))
}

#[test]
fn largest_remainder_conserves_total_and_is_unbiased() {
    // Exact proportional split.
    assert_eq!(rounded(&[0.5, 0.5], 10), vec![5, 5]);
    // Weights that sum to less than one are renormalised.
    assert_eq!(rounded(&[0.25, 0.25], 100), vec![50, 50]);
    // The largest fractional remainder wins the leftover unit.
    assert_eq!(rounded(&[0.34, 0.33, 0.33], 10), vec![4, 3, 3]);
    // Total is always conserved exactly, even with awkward fractions.
    for total in [0, 1, 7, 99, 1000] {
        let counts = rounded(&[0.2, 0.3, 0.5], total);
        assert_eq!(
            counts.iter().sum::<usize>(),
            total,
            "total {total} conserved"
        );
    }
    // Degenerate inputs.
    assert_eq!(rounded(&[], 5), Vec::<usize>::new());
    assert_eq!(rounded(&[1.0, 1.0], 0), vec![0, 0]);
    assert_eq!(rounded(&[0.0, 0.0], 4), vec![0, 0]);
}

#[test]
fn equal_fractions_are_served_in_order() {
    let floors = vec![1, 1, 1];
    let fracs = vec![num(0.5), num(0.75), num(0.5)];
    assert_eq!(largest_remainder(&floors, &fracs, num(1.0), 5), vec![2, 2, 1]);
}

fn make_member(
    path: &str,
    ratio: f64,
    ref_constraints: Vec<(&str, FieldConstraints)>,
) -> LowerCoverMember {
    let fields = ref_constraints
        .into_iter()
        .map(|(fname, fc)| {
            let range = fc.to_range();
            Field {
                name: fname.to_string(),
                field_type: Some(FieldType::String),
                refs: Some(RefsSpec::Single(format!("parent_ref.{fname}"))),
                generator: fc.generator,
                range,
                value: fc.value,
                ..Default::default()
            }
        })
        .collect();

    LowerCoverMember {
        path: path.to_string(),
        dataset: SyntheticDataset {
            name: path.to_string(),
            format: Format::Parquet,
            rows: None,
            output: None,
            outputs: vec![],
            locale: None,
            include_spec: None,
            import: None,
            links: vec![],
            data: fields,
            variants: vec![],
        },
        ratio: num(ratio),
        cardinality: None,
        reference: "parent_ref".to_string(),
        is_witness_source: false,
    }
}

fn value_str(s: &str) -> FieldConstraints {
    FieldConstraints {
        value: Some(YamlValue::Text(s.to_string())),
        ..Default::default()
    }
}

fn bounds(min: f64, max: f64) -> FieldConstraints {
    FieldConstraints {
        min: Some(num(min)),
        max: Some(num(max)),
        ..Default::default()
    }
}

// --- single lower cover member ---

#[test]
fn single_lower_cover_member_two_segments() {
    // One lower cover member at 60%: segment {A}=60 rows, remainder=40 rows.
    let members = vec![make_member("a", 0.6, vec![])];
    let segs = plan(100, members, vec![]).unwrap();
    assert_eq!(segs.len(), 2);
    let total: usize = segs.iter().map(|s| s.rows).sum();
    assert_eq!(total, 100);
    let a_seg = segs.iter().find(|s| !s.members.is_empty()).unwrap();
    assert_eq!(a_seg.rows, 60);
}

// --- two lower cover members, compatible constraints ---

#[test]
fn two_lower_cover_members_four_segments() {
    let members = vec![make_member("a", 0.5, vec![]), make_member("b", 0.4, vec![])];
    let segs = plan(100, members, vec![]).unwrap();
    // All four subsets survive (no conflicts).
    assert_eq!(segs.len(), 4);
    let total: usize = segs.iter().map(|s| s.rows).sum();
    assert_eq!(total, 100);
}

#[test]
fn two_lower_cover_members_rows_sum_to_parent() {
    let members = vec![
        make_member("a", 0.95, vec![("status", value_str("micro"))]),
        make_member("b", 0.04, vec![("status", value_str("small"))]),
    ];
    let segs = plan(1000, members, vec![]).unwrap();
    let total: usize = segs.iter().map(|s| s.rows).sum();
    assert_eq!(total, 1000);
}

// --- conflict: incompatible constants ---

#[test]
fn conflicting_constants_zeroed_and_redistributed() {
    // A says status="micro", B says status="small": joint segment {A,B} conflicts.
    // Both d=0.5 → Σd=1.0. IPF converges to the categorical distribution:
    // w({A})=0.5, w({B})=0.5, w({})→0. Parent-only segment drops out.
    let members = vec![
        make_member("a", 0.5, vec![("status", value_str("micro"))]),
        make_member("b", 0.5, vec![("status", value_str("small"))]),
    ];
    let segs = plan(100, members, vec![]).unwrap();
    let joint = segs.iter().find(|s| s.members.len() == 2);
    assert!(
        joint.is_none(),
        "conflicting joint segment should be absent"
    );
    let total: usize = segs.iter().map(|s| s.rows).sum();
    assert!(
        (99..=101).contains(&total),
        "total should be ~100, got {total}"
    );
    // Marginals should match the declared distributions.
    let a_rows = segs
        .iter()
        .find(|s| s.members == vec!["a".to_string()])
        .map_or(0, |s| s.rows);
    let b_rows = segs
        .iter()
        .find(|s| s.members == vec!["b".to_string()])
        .map_or(0, |s| s.rows);
    assert_eq!(a_rows, 50);
    assert_eq!(b_rows, 50);
}

// --- compatible bounds ---

#[test]
fn overlapping_bounds_merge_into_joint_segment() {
    let members = vec![
        make_member("a", 0.5, vec![("n", bounds(0.0, 100.0))]),
        make_member("b", 0.5, vec![("n", bounds(50.0, 200.0))]),
    ];
    let segs = plan(100, members, vec![]).unwrap();
    // All four subsets survive; joint segment should have min=50, max=100.
    let joint = segs.iter().find(|s| s.members.len() == 2).unwrap();
    let fc = joint.field_constraints.get("n").unwrap();
    assert_eq!(fc.min, Some(num(50.0)));
    assert_eq!(fc.max, Some(num(100.0)));
    let total: usize = segs.iter().map(|s| s.rows).sum();
    assert_eq!(total, 100);
}

// --- non-overlapping bounds conflict ---

#[test]
fn non_overlapping_bounds_zeroed() {
    let members = vec![
        make_member("a", 0.5, vec![("n", bounds(0.0, 30.0))]),
        make_member("b", 0.5, vec![("n", bounds(60.0, 100.0))]),
    ];
    let segs = plan(100, members, vec![]).unwrap();
    // The joint {a,b} segment is infeasible and must be absent.
    let joint = segs.iter().find(|s| s.members.len() == 2);
    assert!(joint.is_none());
    // IPF drives the parent-only {} segment toward 0 but never reaches it in
    // finite rounds, so Bernoulli rounding may produce ±1 on the total.
    let total: usize = segs.iter().map(|s| s.rows).sum();
    assert!(
        (99..=101).contains(&total),
        "total should be ~100, got {total}"
    );
}

// --- no lower cover members ---

#[test]
fn no_lower_cover_members_single_remainder_segment() {
    let segs = plan(50, vec![], vec![]).unwrap();
    assert_eq!(segs.len(), 1);
    assert_eq!(segs[0].rows, 50);
    assert!(segs[0].members.is_empty());
}

// --- large mutually exclusive group (N=20) ---

#[test]
fn dfs_n20_mutually_exclusive() {
    // 20 members each with a distinct status constant — all pairs conflict.
    // DFS should produce exactly 21 feasible segments: 20 singletons + empty remainder.
    let members: Vec<LowerCoverMember> = (0..20)
        .map(|i| {
            make_member(
                &format!("m{i}"),
                0.04,
                vec![("status", value_str(&format!("tier{i}")))],
            )
        })
        .collect();
    let segs = plan(1000, members, vec![]).unwrap();
    // 21 segments: 20 singletons + empty (which may round to 0 and be dropped when Σd=0.8)
    // At least the 20 singletons must be present.
    let singleton_count = segs.iter().filter(|s| s.members.len() == 1).count();
    assert_eq!(
        singleton_count, 20,
        "expected 20 singleton segments, got {singleton_count}"
    );
    let total: usize = segs.iter().map(|s| s.rows).sum();
    assert_eq!(total, 1000);
    // Each singleton should have approximately 40 rows (4% of 1000).
    for seg in segs.iter().filter(|s| s.members.len() == 1) {
        assert!(
            seg.rows >= 30 && seg.rows <= 50,
            "singleton segment has {} rows, expected ~40",
            seg.rows
        );
    }
}

// --- K-cap fires for fully-compatible large group ---

#[test]
fn dfs_n20_fully_compatible_hits_cap() {
    // 20 members with no constraints and equal ratios — K = 2^20 > MAX_FEASIBLE_SEGMENTS.
    let members: Vec<LowerCoverMember> = (0..20)
        .map(|i| make_member(&format!("m{i}"), 0.5, vec![]))
        .collect();
    let result = plan(1000, members, vec![]);
    assert!(
        result.is_err(),
        "expected cap error for fully-compatible N=20 group"
    );
    let msg = text_of(&result.unwrap_err());
    assert!(
        msg.contains("feasible segments"),
        "error should mention 'feasible segments', got: {msg}"
    );
}

// --- incremental constraint merge: partial compatibility ---

#[test]
fn dfs_incremental_constraint_merge() {
    // A: n in [0, 50]; B: n in [30, 100]; C: n in [60, 100]
    // {A,B}: n in [30,50] — compatible
    // {A,C}: n in [60,50] — infeasible (min > max)
    // {A,B,C}: infeasible (A and C conflict)
    // {B,C}: n in [60,100] — compatible
    let members = vec![
        make_member("a", 0.5, vec![("n", bounds(0.0, 50.0))]),
        make_member("b", 0.5, vec![("n", bounds(30.0, 100.0))]),
        make_member("c", 0.5, vec![("n", bounds(60.0, 100.0))]),
    ];
    let segs = plan(100, members, vec![]).unwrap();
    let has = |ms: &[&str]| {
        let paths: Vec<String> = ms.iter().map(|&s| s.to_string()).collect();
        segs.iter().any(|s| {
            let mut sp = s.members.clone();
            sp.sort();
            let mut pp = paths.clone();
            pp.sort();
            sp == pp
        })
    };
    assert!(has(&["a", "b"]), "{{a,b}} should be present");
    assert!(has(&["b", "c"]), "{{b,c}} should be present");
    assert!(
        !has(&["a", "c"]),
        "{{a,c}} should be absent (infeasible bounds)"
    );
    assert!(!has(&["a", "b", "c"]), "{{a,b,c}} should be absent");
}

// --- exclusion groups ---

/// Rows in segments whose member set contains `path`.
fn rows_for(segs: &[Segment], path: &str) -> usize {
    let p = path.to_string();
    segs.iter()
        .filter(|s| s.members.contains(&p))
        .map(|s| s.rows)
        .sum()
}

#[test]
fn exclusion_group_mandatory_union_is_exclusive_and_exact() {
    // A mandatory union (Σ ratios == 1): cases c0 (0.6) and c1 (0.4).
    let members = vec![
        make_member("c0", 0.6, vec![]),
        make_member("c1", 0.4, vec![]),
    ];
    let group = ExclusionGroup {
        members: vec![0, 1],
        ratios: vec![num(0.6), num(0.4)],
        mandatory: true,
    };
    let segs = plan(1000, members, vec![group]).unwrap();

    // No segment carries both cases (structural mutual exclusion).
    let c0 = "c0".to_string();
    let c1 = "c1".to_string();
    assert!(
        !segs
            .iter()
            .any(|s| s.members.contains(&c0) && s.members.contains(&c1)),
        "no segment may contain two cases of one union"
    );
    // Mandatory ⇒ no "member absent" (empty) segment survives.
    assert!(
        !segs.iter().any(|s| s.members.is_empty()),
        "a mandatory union leaves no holder-less rows"
    );
    // Marginals restored ~600 / ~400 (Bernoulli rounding ± a few).
    assert!((rows_for(&segs, "c0") as i64 - 600).abs() <= 25, "c0 ≈ 600");
    assert!((rows_for(&segs, "c1") as i64 - 400).abs() <= 25, "c1 ≈ 400");
}

#[test]
fn exclusion_group_optional_union_keeps_member_absent_cell() {
    // An optional member (r_M = 0.5) with a union split 0.6/0.4 within it ⇒ absolute
    // case ratios 0.3 / 0.2, and a legitimate "member absent" mass of 0.5.
    let members = vec![
        make_member("c0", 0.3, vec![]),
        make_member("c1", 0.2, vec![]),
    ];
    let group = ExclusionGroup {
        members: vec![0, 1],
        ratios: vec![num(0.3), num(0.2)],
        mandatory: false,
    };
    let segs = plan(1000, members, vec![group]).unwrap();

    // The "no case" (member absent) segment exists and carries ~500 rows.
    let absent: usize = segs
        .iter()
        .filter(|s| s.members.is_empty())
        .map(|s| s.rows)
        .sum();
    assert!(
        (absent as i64 - 500).abs() <= 30,
        "member-absent ≈ 500, got {absent}"
    );
    assert!((rows_for(&segs, "c0") as i64 - 300).abs() <= 25, "c0 ≈ 300");
    assert!((rows_for(&segs, "c1") as i64 - 200).abs() <= 25, "c1 ≈ 200");
}

#[test]
fn exclusion_group_with_plain_member_factors_jointly() {
    // Mandatory union {c0 0.6, c1 0.4} alongside an independent plain member s (0.5).
    let members = vec![
        make_member("c0", 0.6, vec![]),
        make_member("c1", 0.4, vec![]),
        make_member("s", 0.5, vec![]),
    ];
    let group = ExclusionGroup {
        members: vec![0, 1],
        ratios: vec![num(0.6), num(0.4)],
        mandatory: true,
    };
    let segs = plan(1000, members, vec![group]).unwrap();

    let c0 = "c0".to_string();
    let c1 = "c1".to_string();
    assert!(
        !segs
            .iter()
            .any(|s| s.members.contains(&c0) && s.members.contains(&c1)),
        "union cases stay mutually exclusive even with a plain member present"
    );
    // Every segment picks exactly one case (mandatory union, no empty segments).
    assert!(
        segs.iter()
            .all(|s| s.members.contains(&c0) || s.members.contains(&c1))
    );
    // Marginals: each case ~ its ratio; the plain member ~ 0.5.
    assert!((rows_for(&segs, "c0") as i64 - 600).abs() <= 30, "c0 ≈ 600");
    assert!((rows_for(&segs, "c1") as i64 - 400).abs() <= 30, "c1 ≈ 400");
    assert!((rows_for(&segs, "s") as i64 - 500).abs() <= 40, "s ≈ 500");
}

fn seg(rows: usize) -> Segment {
    Segment {
        members: vec![],
        rows,
        field_constraints: TextMap::new(),
        ring: None,
    }
}

struct Slice {
    start: f64,
    end: f64,
}

fn ring_of(s: &Segment) -> Slice {
    let r = s.ring.unwrap();
    Slice { start: double(r.start), end: double(r.end) }
}

/// Tiles a ring in proportion to the rows.
fn tile(segs: &mut Vec<Segment>, ring: (f64, f64)) {
    let total: usize = segs.iter().map(|s| s.rows).sum();
    let mut cursor = ring.0;
    let mut ends = Vec::new();
    for s in segs.iter() {
        cursor += (ring.1 - ring.0) * (s.rows as f64 / total as f64);
        ends.push(num(cursor));
    }
    let parent = RingBounds { start: num(ring.0), end: num(ring.1) };
    assign_ring_slices(segs, &parent, &ends);
}

#[test]
fn single_segment_gets_full_parent_ring() {
    let mut segs = vec![seg(100)];
    tile(&mut segs, (0.0, 1.0));
    let r = ring_of(&segs[0]);
    assert!((r.start - 0.0).abs() < 1e-9);
    assert!((r.end - 1.0).abs() < 1e-9);
}

#[test]
fn two_equal_segments_split_evenly() {
    let mut segs = vec![seg(50), seg(50)];
    tile(&mut segs, (0.0, 1.0));
    let r0 = ring_of(&segs[0]);
    let r1 = ring_of(&segs[1]);
    assert!((r0.start - 0.0).abs() < 1e-9);
    assert!((r0.end - 0.5).abs() < 1e-9);
    assert!((r1.start - 0.5).abs() < 1e-9);
    assert!((r1.end - 1.0).abs() < 1e-9);
}

#[test]
fn proportional_split_three_segments() {
    // rows 30 / 20 / 50 → fractions 0.3 / 0.2 / 0.5
    let mut segs = vec![seg(30), seg(20), seg(50)];
    tile(&mut segs, (0.0, 1.0));
    let r = |i: usize| ring_of(&segs[i]);
    assert!((r(0).start - 0.0).abs() < 1e-9);
    assert!((r(0).end - 0.3).abs() < 1e-9);
    assert!((r(1).start - 0.3).abs() < 1e-9);
    assert!((r(1).end - 0.5).abs() < 1e-9);
    assert!((r(2).start - 0.5).abs() < 1e-9);
    assert!(
        (r(2).end - 1.0).abs() < 1e-9,
        "last slice must clamp to parent end"
    );
}

#[test]
fn tiling_within_sub_range() {
    // Parent ring is [0.4, 0.8) — two equal segments each get 0.2 of the full range.
    let mut segs = vec![seg(1), seg(1)];
    tile(&mut segs, (0.4, 0.8));
    let r0 = ring_of(&segs[0]);
    let r1 = ring_of(&segs[1]);
    assert!((r0.start - 0.4).abs() < 1e-9);
    assert!((r0.end - 0.6).abs() < 1e-9);
    assert!((r1.start - 0.6).abs() < 1e-9);
    assert!((r1.end - 0.8).abs() < 1e-9);
}

#[test]
fn slices_tile_without_gap_or_overlap() {
    let mut segs = vec![seg(17), seg(33), seg(50)];
    tile(&mut segs, (0.0, 1.0));
    // Each slice's end must equal the next slice's start.
    for i in 0..segs.len() - 1 {
        let end = ring_of(&segs[i]).end;
        let next_start = ring_of(&segs[i + 1]).start;
        assert!(
            (end - next_start).abs() < 1e-9,
            "gap/overlap at boundary {i}"
        );
    }
    // Last slice ends exactly at 1.0.
    assert!((ring_of(segs.last().unwrap()).end - 1.0).abs() < 1e-9);
}

#[test]
fn empty_segment_list_is_noop() {
    let mut segs: Vec<Segment> = vec![];
    tile(&mut segs, (0.0, 1.0)); // must not panic
}

#[test]
fn combinations_are_named_once() {
    let members = vec![
        make_member("c0", 0.3, vec![]),
        make_member("c1", 0.2, vec![]),
        make_member("s", 0.5, vec![]),
    ];
    let groups = vec![ExclusionGroup {
        members: vec![0, 1],
        ratios: vec![num(0.3), num(0.2)],
        mandatory: false,
    }];
    let cells = enumerate_segments(&members, &groups, &vec![true]).unwrap();
    let ones: Vec<Vec<u64>> = cells.iter().map(|c| c.ones.clone()).collect();
    assert_eq!(ones, vec![vec![], vec![0], vec![0, 2], vec![1], vec![1, 2], vec![2]]);
}

#[test]
fn without_weight_the_parent_keeps_its_rows() {
    let members = vec![make_member("a", 0.0, vec![])];
    let cells = enumerate_segments(&members, &vec![], &vec![]).unwrap();
    let none = shares_of(&vec![0.0; cells.len()], 7);
    let segs = plan_segments(7, &members, &cells, &none);
    assert_eq!((segs.len(), segs[0].rows, segs[0].members.len()), (1, 7, 0));
}
