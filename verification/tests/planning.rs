//! From datasets to an execution plan, and through its steps.
use fakeset::assembly::{
    atom_source, build_segment_atom_schema, effective_field, generate_batch, member_own_fields,
    project_member_columns, project_parent_columns_from_atom, AtomSource, ColumnPlan,
};
use fakeset::columns::{
    expression_query, filter_batch_by_constraints, find_column, find_junction, list_elements,
    plan_outer_columns, plan_witness_columns, resolve_inherited_fields,
    row_satisfies_field_constraints, strip_sentinel, Cell, KnownBatch, ListElements,
    WitnessColumn,
};
use fakeset::constraints::FieldConstraints;
use fakeset::cover::{
    build_lower_cover_groups, internal_path, linked_lower_cover_path, lower_cover_set,
    variant_key, witness_key,
};
use fakeset::graph::build_dag;
use fakeset::group::{expand_slots, plan_segment, MemberRows};
use fakeset::lists::assemble_list;
use fakeset::message::{Part, Problem};
use fakeset::models::{
    CountSpec, DatasetEntry, Field, FieldType, Format, Generator, Include, ListContent, Locale,
    Num, OutputSpec, Range, RefBinding, RefEntry, Reducer, RefsSpec, SyntheticDataset,
    VariantSchema, YamlValue,
};
use fakeset::plan::{
    build_plan, check_reinforcement_zero_feasibility, compute_prefills, distribute_rows,
    expand_variant_dataset, linked_field_default, max_cardinality_bound, scan_collect_targets,
    ExecutionStep, InheritedField, PlanTables,
};
use fakeset::rewrite::{
    apply_global_locales, expand_include_fields, resolve_refs, stamp_locale,
};
use fakeset::run::{
    member_finish, segment_role, MemberFinish, ParentOrder, RunState, SegmentRun, StepAction,
};
use fakeset::segment::{ConstraintMap, LowerCoverMember, Segment};

fn num(x: f64) -> Num {
    Num::from_bits(x.to_bits())
}

fn text_of(p: &Problem) -> String {
    let mut out = String::new();
    for part in &p.parts {
        match part {
            Part::Text(s) => out.push_str(s),
            Part::Number(n) => out.push_str(&format!("{}", f64::from_bits(n.to_bits()))),
        }
    }
    out
}

fn dataset(name: &str, data: Vec<Field>) -> SyntheticDataset {
    SyntheticDataset {
        name: name.into(),
        format: Format::Csv,
        locale: None,
        rows: Some(10),
        output: Some(OutputSpec::Shorthand(format!("{}.csv", name))),
        outputs: vec![],
        include_spec: None,
        import: None,
        links: vec![],
        data,
        variants: vec![],
    }
}

fn at(path: &str, dataset: SyntheticDataset) -> DatasetEntry {
    DatasetEntry { path: path.into(), dataset }
}

fn to(file: &str, reference: &str) -> Include {
    Include {
        file: file.into(),
        resolved: Some(file.into()),
        reference: reference.into(),
        ratio: None,
        cardinality: None,
        reinforcement: None,
        overlap: None,
        fields: vec![],
        exclude: None,
    }
}

fn typed(name: &str, t: FieldType) -> Field {
    Field { name: name.into(), field_type: Some(t), ..Default::default() }
}

fn refers(name: &str, target: &str) -> Field {
    Field { name: name.into(), refs: Some(RefsSpec::Single(target.into())), ..Default::default() }
}

fn member(path: &str, reference: &str, data: Vec<Field>, witness: bool) -> LowerCoverMember {
    let mut ds = dataset("m", data);
    ds.include_spec = Some(to("/a/p.yaml", "p"));
    LowerCoverMember {
        path: path.into(),
        dataset: ds,
        ratio: num(0.5),
        cardinality: None,
        reference: reference.into(),
        is_witness_source: witness,
    }
}

fn no_tables(datasets: &Vec<DatasetEntry>) -> PlanTables {
    PlanTables {
        row_counts: datasets.iter().map(|e| e.dataset.rows.unwrap_or(10)).collect(),
        variant_rows: datasets.iter().map(|e| vec![5; e.dataset.variants.len()]).collect(),
        segments: datasets
            .iter()
            .map(|e| (0..e.dataset.variants.len().max(1)).map(|_| vec![]).collect())
            .collect(),
        scaled: datasets.iter().map(|e| vec![0; e.dataset.links.len()]).collect(),
    }
}

/// A list field whose items are drawn from a link.
fn list_from(name: &str, from: &str, items: Vec<Field>) -> Field {
    Field {
        name: name.into(),
        field_type: Some(FieldType::List),
        content: Some(Box::new(ListContent {
            from: Some(from.into()),
            project: None,
            item: Field { field_type: Some(FieldType::Object), fields: items, ..Default::default() },
        })),
        count: Some(CountSpec::Fixed(2)),
        ..Default::default()
    }
}

// ---------------------------------------------------------------------------
// Rewriting
// ---------------------------------------------------------------------------

#[test]
fn own_locale_wins_over_the_global_one() {
    let mut a = typed("a", FieldType::String);
    a.generator = Some(Generator::FirstName);
    let mut b = a.clone();
    b.locale = Some(Locale::FrFr);
    let mut c = typed("c", FieldType::String);
    c.generator = Some(Generator::Uuid);
    for f in [&mut a, &mut b, &mut c] {
        stamp_locale(f, &Locale::DeDe);
        stamp_locale(f, &Locale::ItIt);
    }
    assert_eq!(a.locale, Some(Locale::DeDe));
    assert_eq!(b.locale, Some(Locale::FrFr));
    assert_eq!(c.locale, None);
    let mut ds = dataset("d", vec![typed("x", FieldType::String)]);
    ds.data[0].generator = Some(Generator::LastName);
    ds.locale = Some(Locale::JaJp);
    let out = apply_global_locales(&vec![at("/a/d.yaml", ds)]);
    assert_eq!(out[0].dataset.data[0].locale, Some(Locale::JaJp));
}

#[test]
fn a_star_copies_the_fields_that_are_not_there() {
    let parent = dataset("p", vec![typed("id", FieldType::Number), typed("n", FieldType::String)]);
    let mut child = dataset("c", vec![typed("n", FieldType::Boolean)]);
    let mut inc = to("/a/p.yaml", "p");
    inc.fields = vec!["*".into()];
    child.include_spec = Some(inc);
    let out = expand_include_fields(&vec![at("/a/p.yaml", parent), at("/a/c.yaml", child)]);
    let names: Vec<&str> = out[1].dataset.data.iter().map(|f| f.name.as_str()).collect();
    assert_eq!(names, vec!["id", "n"]);
    assert!(matches!(out[1].dataset.data[1].field_type, Some(FieldType::Boolean)));
    assert!(matches!(&out[1].dataset.data[0].refs, Some(RefsSpec::Single(s)) if s == "p.id"));
}

#[test]
fn references_take_over_what_they_point_to() {
    let mut id = typed("id", FieldType::Number);
    id.range = Some(Range { min: Some(num(0.0)), max: Some(num(10.0)) });
    let parent = dataset("p", vec![id]);
    let mut own = refers("pid", "p.id");
    own.range = Some(Range { min: Some(num(2.0)), max: None });
    let mut child = dataset("c", vec![own]);
    child.include_spec = Some(to("/a/p.yaml", "p"));
    let out = resolve_refs(&vec![at("/a/p.yaml", parent), at("/a/c.yaml", child)]).unwrap();
    let f = &out[1].dataset.data[0];
    assert!(matches!(f.field_type, Some(FieldType::Number)));
    let range = f.range.unwrap();
    assert_eq!((range.min, range.max), (Some(num(2.0)), Some(num(10.0))));
}

#[test]
fn references_that_lead_nowhere_are_refused() {
    let tell = |f: Field, target: Vec<Field>| {
        let mut child = dataset("c", vec![f]);
        child.include_spec = Some(to("/a/p.yaml", "p"));
        let all = vec![at("/a/p.yaml", dataset("p", target)), at("/a/c.yaml", child)];
        text_of(&resolve_refs(&all).unwrap_err())
    };
    assert_eq!(
        tell(refers("x", "plain"), vec![]),
        "field 'c.x': malformed ref 'plain' — expected 'include_ref.field_name'"
    );
    assert_eq!(
        tell(refers("x", "q.id"), vec![]),
        "field 'c.x': ref 'q.id' — no include or link with ref 'q'"
    );
    assert_eq!(tell(refers("x", "p.id"), vec![]), "field 'c.x': ref 'p.id' — target field not found");
    let mut computed = typed("id", FieldType::Number);
    computed.expression = Some("1".into());
    assert!(tell(refers("x", "p.id"), vec![computed]).contains("points to an expression field"));
    let mut fixed = typed("id", FieldType::Number);
    fixed.value = Some(YamlValue::Text("a".into()));
    let mut other = refers("x", "p.id");
    other.value = Some(YamlValue::Text("b".into()));
    assert_eq!(
        tell(other, vec![fixed]),
        "field 'c.x': ref 'p.id' — local constraints conflict with target field 'id'"
    );
}

// ---------------------------------------------------------------------------
// The graph and the lower covers
// ---------------------------------------------------------------------------

#[test]
fn a_circle_of_references_is_refused() {
    let mut a = dataset("a", vec![]);
    a.include_spec = Some(to("/a/b.yaml", "b"));
    let mut b = dataset("b", vec![]);
    b.include_spec = Some(to("/a/a.yaml", "a"));
    let told = text_of(&build_dag(&vec![at("/a/a.yaml", a), at("/a/b.yaml", b)]).unwrap_err());
    assert!(told.starts_with("circular include detected involving: /a/"));
}

#[test]
fn a_reference_to_a_missing_dataset_is_refused() {
    let mut a = dataset("a", vec![]);
    a.include_spec = Some(to("/a/b.yaml", "b"));
    assert!(build_dag(&vec![at("/a/a.yaml", a)]).is_err());
}

#[test]
fn derived_keys_lie_beside_their_dataset() {
    assert_eq!(internal_path("/a/x.yaml", "l"), "/a/x___l.internal");
    assert_eq!(variant_key("/a/x.yaml", 12), "/a/x___variant_12.internal");
    assert_eq!(witness_key("/a/x.yaml", "f"), "/a/x___f___witness.internal");
    assert_eq!(linked_lower_cover_path("/a/x.yaml", "f"), "/a/x___f___linked.internal");
}

#[test]
fn lower_covers_hold_children_and_lists() {
    let parent = dataset("p", vec![typed("id", FieldType::Number)]);
    let mut child = dataset("c", vec![refers("pid", "p.id")]);
    let mut inc = to("/a/p.yaml", "p");
    inc.ratio = Some(num(0.25));
    child.include_spec = Some(inc);
    let mut linked = to("/a/p.yaml", "l");
    linked.ratio = Some(num(0.5));
    let mut lister = dataset("s", vec![list_from("items", "l", vec![refers("pid", "l.id")])]);
    lister.links = vec![linked];
    let all = vec![at("/a/p.yaml", parent), at("/a/c.yaml", child), at("/a/s.yaml", lister)];
    let groups = build_lower_cover_groups(&all);
    let paths: Vec<&str> = groups[0].iter().map(|m| m.path.as_str()).collect();
    assert_eq!(paths, vec!["/a/c.yaml", "/a/s___items___linked.internal"]);
    assert!(groups[0][1].is_witness_source);
    assert_eq!(groups[0][0].ratio, num(0.25));
    assert!(groups[1].is_empty() && groups[2].is_empty());
    assert_eq!(lower_cover_set(&all), vec!["/a/c.yaml", "/a/s___items___linked.internal"]);
}

// ---------------------------------------------------------------------------
// The plan
// ---------------------------------------------------------------------------

#[test]
fn rows_are_shared_out_whole() {
    assert_eq!(distribute_rows(10, &vec![3, 3, 3], &vec![num(0.2), num(0.5), num(0.3)]), vec![3, 4, 3]);
    assert_eq!(distribute_rows(4, &vec![2, 2], &vec![num(0.0), num(0.0)]), vec![2, 2]);
}

#[test]
fn a_variant_is_a_dataset_of_its_own() {
    let mut base = dataset("v", vec![typed("id", FieldType::Number)]);
    base.locale = Some(Locale::En);
    let variant = VariantSchema {
        data: vec![typed("extra", FieldType::String)],
        locale: Some(Locale::FrFr),
        ratio: Some(num(0.5)),
    };
    let one = expand_variant_dataset(&base, &variant, 1, 7);
    assert_eq!(one.rows, Some(7));
    let names: Vec<&str> = one.data.iter().map(|f| f.name.as_str()).collect();
    assert_eq!(names, vec!["id", "extra"]);
    assert!(one.variants.is_empty());
}

#[test]
fn counts_have_bounds() {
    assert_eq!(max_cardinality_bound(&CountSpec::Fixed(3)), Some(3));
    assert_eq!(max_cardinality_bound(&CountSpec::Uniform { min: 1, max: 9 }), Some(9));
    assert_eq!(
        max_cardinality_bound(&CountSpec::Normal { mean: num(2.0), std_dev: num(1.0) }),
        None
    );
}

#[test]
fn draws_without_replacement_need_enough_rows() {
    let linked = dataset("l", vec![typed("id", FieldType::Number)]);
    let mut junction = dataset("j", vec![refers("lid", "l.id")]);
    let mut link = to("/a/l.yaml", "l");
    link.reinforcement = Some(num(0.0));
    junction.links = vec![link];
    let all = vec![at("/a/l.yaml", linked), at("/a/j.yaml", junction)];
    let scaled = vec![vec![], vec![0]];
    assert!(check_reinforcement_zero_feasibility(&all, &vec![10, 10], &scaled).is_ok());
    let told = check_reinforcement_zero_feasibility(&all, &vec![10, 11], &scaled).unwrap_err();
    assert_eq!(
        text_of(&told),
        "dataset 'j': `reinforcement: 0` on link 'l' requires junction rows (11) ≤ eligible pool rows (10)"
    );
}

#[test]
fn plain_datasets_are_generated_and_written() {
    let all = vec![
        at("/a/x.yaml", dataset("x", vec![typed("id", FieldType::Number)])),
        at("/a/y.yaml", dataset("y", vec![typed("id", FieldType::Number)])),
    ];
    let dag = build_dag(&all).unwrap();
    let plan = build_plan(&dag, &all, &no_tables(&all)).unwrap();
    assert_eq!(plan.steps.len(), 4);
    assert!(matches!(&plan.steps[0], ExecutionStep::GenerateDataset { rows: 10, defer_emit: false, .. }));
    assert!(matches!(&plan.steps[1], ExecutionStep::GenerateDataset { .. }));
    let mut files: Vec<String> = vec![];
    for s in &plan.steps[2..] {
        match s {
            ExecutionStep::WriteSharedOutput { output_file, .. } => files.push(output_file.clone()),
            other => panic!("{:?}", other),
        }
    }
    files.sort();
    assert_eq!(files, vec!["x.csv", "y.csv"]);
}

#[test]
fn lists_are_drawn_before_they_are_assembled() {
    let linked = dataset("l", vec![typed("id", FieldType::Number)]);
    let mut lister = dataset("s", vec![list_from("items", "l", vec![refers("lid", "l.id")])]);
    lister.links = vec![to("/a/l.yaml", "l")];
    let all = vec![at("/a/s.yaml", lister), at("/a/l.yaml", linked)];
    let dag = build_dag(&all).unwrap();
    let plan = build_plan(&dag, &all, &no_tables(&all)).unwrap();
    let place = |f: &dyn Fn(&ExecutionStep) -> bool| plan.steps.iter().position(|s| f(s)).unwrap();
    let staging = place(&|s| matches!(s, ExecutionStep::GenerateStagingNode { .. }));
    let drawn = place(&|s| matches!(s, ExecutionStep::GenerateWitness { .. }));
    let assembled = place(&|s| matches!(s, ExecutionStep::AssembleFromWitness { .. }));
    let written = place(&|s| matches!(s, ExecutionStep::WriteSharedOutput { .. }));
    assert!(staging < drawn && drawn < assembled && assembled < written);
}

#[test]
fn inherited_fields_are_prefilled() {
    let linked = dataset("l", vec![typed("id", FieldType::Number)]);
    let mut junction = dataset("j", vec![refers("lid", "l.id")]);
    junction.links = vec![to("/a/l.yaml", "l")];
    let all = vec![at("/a/l.yaml", linked), at("/a/j.yaml", junction)];
    assert!(compute_prefills("/a/l.yaml", &all, &vec![]).is_empty());
}

#[test]
fn gathering_targets_and_defaults() {
    let mut total = typed("total", FieldType::Number);
    total.default = Some(YamlValue::Int { value: 3, num: num(3.0) });
    let linked = dataset("l", vec![typed("id", FieldType::Number), total]);
    let mut amount = typed("amount", FieldType::Number);
    amount.refs = Some(RefsSpec::Multi(vec![RefEntry::Rich(RefBinding {
        target: None,
        bind: Some("l.total".into()),
        reducer: Some(Reducer::Sum),
    })]));
    let mut junction = dataset("j", vec![refers("lid", "l.id"), amount]);
    junction.links = vec![to("/a/l.yaml", "l")];
    let all = vec![at("/a/l.yaml", linked), at("/a/j.yaml", junction)];
    assert_eq!(scan_collect_targets(&all), vec![true, false]);
    let d = linked_field_default("/a/l.yaml", "total", &all);
    assert!(matches!(d, YamlValue::Int { value: 3, .. }));
    assert!(matches!(linked_field_default("/a/l.yaml", "id", &all), YamlValue::Null));
}

// ---------------------------------------------------------------------------
// Assembly
// ---------------------------------------------------------------------------

fn names_of(plan: &[ColumnPlan]) -> Vec<String> {
    plan.iter()
        .map(|c| match c {
            ColumnPlan::Shared { name, column } => format!("{}={}", name, column),
            ColumnPlan::Imported { name } => format!("import {}", name),
            ColumnPlan::Generated { field } => format!("new {}", field.name),
        })
        .collect()
}

#[test]
fn atom_columns_are_the_ones_members_share() {
    let parent = vec![typed("id", FieldType::Number), typed("other", FieldType::String)];
    let m = member("/a/c.yaml", "p", vec![refers("pid", "p.id"), typed("own", FieldType::String)], false);
    let members = vec![m];
    let columns = build_segment_atom_schema(&parent, &members, &ConstraintMap::new());
    assert_eq!(columns.len(), 1);
    assert_eq!(columns[0].field.name, "id");
    assert_eq!(columns[0].providers, vec![0]);
    let ready = vec![Some(vec!["pid".to_string()])];
    assert!(matches!(
        atom_source(&columns[0], &members, &ready, None),
        AtomSource::Member { member: 0, column } if column == "pid"
    ));
    assert!(matches!(atom_source(&columns[0], &members, &vec![None], None), AtomSource::Fresh));
    let mut imported = parent[0].clone();
    imported.imported_taint = true;
    let from_file = build_segment_atom_schema(&vec![imported], &members, &ConstraintMap::new());
    assert!(matches!(
        atom_source(&from_file[0], &members, &ready, Some(&vec!["id".to_string()])),
        AtomSource::Import
    ));
    let own: Vec<String> = member_own_fields(&members[0]).into_iter().map(|f| f.name).collect();
    assert_eq!(own, vec!["own"]);
    let shared = vec!["id".to_string()];
    assert_eq!(
        names_of(&project_member_columns(&members[0], &shared).unwrap()),
        vec!["pid=id", "new own"]
    );
    assert_eq!(
        names_of(&project_parent_columns_from_atom(&parent, &shared, &ConstraintMap::new(), None)),
        vec!["id=id", "new other"]
    );
}

#[test]
fn a_batch_follows_the_schema_but_for_computed_fields() {
    let mut sum = typed("sum", FieldType::Number);
    sum.expression = Some("a + b".into());
    let mut b = typed("b", FieldType::Number);
    b.imported_taint = true;
    let schema = vec![typed("a", FieldType::Number), b, sum];
    let plan = generate_batch(&schema, &ConstraintMap::new(), Some(&vec!["b".to_string()])).unwrap();
    assert_eq!(names_of(&plan), vec!["new a", "import b"]);
    let told = generate_batch(&schema, &ConstraintMap::new(), Some(&vec!["c".to_string()])).unwrap_err();
    assert_eq!(text_of(&told), "imported column 'b' not found in import batch");
}

#[test]
fn constraints_of_a_segment_narrow_its_fields() {
    let mut only = ConstraintMap::new();
    only.insert(
        "id".into(),
        FieldConstraints { min: Some(num(1.0)), max: Some(num(2.0)), ..Default::default() },
    );
    let f = effective_field(&typed("id", FieldType::Number), &only);
    let range = f.range.unwrap();
    assert_eq!((range.min, range.max), (Some(num(1.0)), Some(num(2.0))));
    assert!(effective_field(&typed("x", FieldType::Number), &only).range.is_none());
}

// ---------------------------------------------------------------------------
// Columns
// ---------------------------------------------------------------------------

fn texts(list: &[&str]) -> Vec<String> {
    list.iter().map(|s| s.to_string()).collect()
}

#[test]
fn the_sentinel_is_stripped() {
    let names = texts(&["a", "_slot", "b"]);
    assert_eq!(find_column(&names, "b"), Some(2));
    assert_eq!(find_column(&names, "c"), None);
    assert_eq!(strip_sentinel(&names, "_slot"), vec![0, 2]);
    assert_eq!(strip_sentinel(&names, "none"), vec![0, 1, 2]);
}

#[test]
fn inherited_columns_must_exist() {
    let f = |path: &str, column: &str| InheritedField {
        from_path: path.into(),
        from_column: column.into(),
        into_column: "x".into(),
    };
    let known = vec![KnownBatch { path: "/a".into(), columns: texts(&["c"]) }];
    let inherited = vec![f("/a", "c"), f("/a", "d"), f("/b", "c"), f("/a", "c")];
    assert_eq!(resolve_inherited_fields(&inherited, &known, "x"), vec![0, 3]);
    assert!(resolve_inherited_fields(&inherited, &known, "y").is_empty());
}

#[test]
fn cells_meet_constraints() {
    let only = |v: YamlValue| FieldConstraints { value: Some(v), ..Default::default() };
    let text = Cell::Text { text: "a".into(), null: false };
    assert!(row_satisfies_field_constraints(&text, &only(YamlValue::Text("a".into()))));
    assert!(!row_satisfies_field_constraints(&text, &only(YamlValue::Text("b".into()))));
    let flag = Cell::Flag { flag: true, null: false };
    assert!(!row_satisfies_field_constraints(&flag, &only(YamlValue::Bool(false))));
    let n = Cell::Number { number: num(3.0), null: false, near: true };
    let within = FieldConstraints { min: Some(num(1.0)), max: Some(num(3.0)), ..Default::default() };
    assert!(row_satisfies_field_constraints(&n, &within));
    let above = FieldConstraints { min: Some(num(4.0)), ..Default::default() };
    assert!(!row_satisfies_field_constraints(&n, &above));
    assert!(row_satisfies_field_constraints(&Cell::Other, &above));
    let masks = vec![vec![true, true, false], vec![true, false, true]];
    assert_eq!(filter_batch_by_constraints(&masks, 3), vec![0]);
    assert_eq!(filter_batch_by_constraints(&vec![], 2), vec![0, 1]);
}

#[test]
fn a_junction_is_the_first_computed_link_without_list() {
    let mut ds = dataset("j", vec![list_from("items", "l", vec![])]);
    ds.links = vec![to("/a/l.yaml", "l"), to("/a/m.yaml", "m"), to("/a/n.yaml", "n")];
    assert_eq!(find_junction(&ds, &texts(&["/a/l.yaml", "/a/n.yaml"])), Some(2));
    assert_eq!(find_junction(&ds, &texts(&["/a/l.yaml"])), None);
}

#[test]
fn item_fields_come_from_three_places() {
    let items = vec![refers("a", "l.id"), refers("b", "p.id"), typed("c", FieldType::Number)];
    let drawn = plan_witness_columns(&items, "l", &texts(&["id"])).unwrap();
    assert_eq!(drawn.len(), 2);
    assert!(matches!(&drawn[0], WitnessColumn::Linked { name, column } if name == "a" && column == "id"));
    assert!(matches!(&drawn[1], WitnessColumn::Generated { field } if field.name == "c"));
    assert!(plan_witness_columns(&items, "l", &texts(&["x"])).is_err());
    let outer = plan_outer_columns(&items, &texts(&["a", "c"]), &texts(&["id"])).unwrap();
    assert_eq!(outer.len(), 1);
    assert_eq!((outer[0].name.as_str(), outer[0].column.as_str()), ("b", "id"));
    assert!(plan_outer_columns(&items, &texts(&["a", "c"]), &texts(&[])).is_err());
}

#[test]
fn list_elements_are_a_column_or_a_record() {
    let mut hidden = typed("b", FieldType::Number);
    hidden.hidden = true;
    let items = vec![typed("a", FieldType::Number), hidden];
    let names = texts(&["a", "b"]);
    assert!(matches!(list_elements("f", &names, &items, Some("b")), Ok(ListElements::Column(1))));
    assert!(matches!(list_elements("f", &names, &items, None), Ok(ListElements::Record(v)) if v == vec![0]));
    assert_eq!(
        text_of(&list_elements("f", &names, &items, Some("z")).unwrap_err()),
        "project: column 'z' not found in witness for 'f'"
    );
}

#[test]
fn computed_columns_build_on_each_other() {
    let mut x = typed("x", FieldType::Number);
    x.expression = Some("a + 1".into());
    let mut y = typed("y", FieldType::Number);
    y.expression = Some("x * 2".into());
    let query = expression_query(&vec![typed("a", FieldType::Number), x, y]).unwrap();
    assert_eq!(
        query,
        "WITH step0 AS (SELECT *, a + 1 AS \"x\" FROM src), step1 AS (SELECT *, x * 2 AS \"y\" FROM step0) SELECT * FROM step1"
    );
    assert!(expression_query(&vec![typed("a", FieldType::Number)]).is_none());
}

// ---------------------------------------------------------------------------
// Running
// ---------------------------------------------------------------------------

#[test]
fn segments_know_their_members() {
    let members = vec![member("/a/c.yaml", "p", vec![], false), member("/a/w", "p", vec![], true)];
    let seg = Segment {
        members: texts(&["/a/w", "/a/c.yaml"]),
        rows: 3,
        field_constraints: ConstraintMap::new(),
        ring: None,
    };
    let role = segment_role(&seg, &members);
    assert!(role.has_witness);
    assert_eq!(role.real_members, vec![0]);
    assert_eq!(member_finish(&members[1], true, true), MemberFinish::Skip);
    assert_eq!(member_finish(&members[0], true, true), MemberFinish::Keep);
    assert_eq!(member_finish(&members[0], false, true), MemberFinish::Write);
    let mut many = member("/a/d.yaml", "p", vec![], false);
    many.cardinality = Some(CountSpec::Fixed(2));
    assert_eq!(member_finish(&many, true, true), MemberFinish::Replace);
}

#[test]
fn witness_batches_lead() {
    let mut run = SegmentRun::new();
    run.push_parent_batch(0, false, false);
    run.push_parent_batch(1, false, true);
    run.advance_slot_offset(4);
    assert_eq!(run.slot_offset, 4);
    assert!(matches!(
        run.finalise(false, true),
        ParentOrder::WitnessFirst { first, rest } if first == vec![1] && rest == vec![0]
    ));
    let mut run = SegmentRun::new();
    run.push_parent_batch(0, true, true);
    run.push_parent_batch(1, true, false);
    assert!(matches!(run.finalise(true, true), ParentOrder::InOrder(v) if v == vec![0, 1]));
    let mut run = SegmentRun::new();
    run.push_parent_batch(0, false, false);
    run.push_parent_batch(1, false, true);
    assert!(matches!(run.finalise(false, false), ParentOrder::Shuffled(v) if v == vec![1, 0]));
}

#[test]
fn steps_wait_for_what_they_need() {
    let mut state = RunState::new();
    let emit = ExecutionStep::EmitDataset { path: "/a/x.yaml".into(), dataset: dataset("x", vec![]) };
    assert_eq!(
        text_of(&state.begin(&emit).unwrap_err()),
        "EmitDataset: batch at '/a/x.yaml' not computed"
    );
    state.mark_computed("/a/x.yaml");
    assert!(state.is_computed("/a/x.yaml"));
    assert!(matches!(state.begin(&emit), Ok(StepAction::Emit)));
    let gather = ExecutionStep::AccumulateToLinked {
        source_path: "/a/x.yaml".into(),
        source_field: "v".into(),
        linked_path: "/a/y.yaml".into(),
        linked_field: "t".into(),
        group_by: "k".into(),
        reducer: Reducer::Sum,
        default_val: YamlValue::Null,
    };
    assert_eq!(
        text_of(&state.begin(&gather).unwrap_err()),
        "AccumulateToLinked: linked batch '/a/y.yaml' not computed"
    );
    state.mark_computed("/a/y.yaml");
    assert!(matches!(state.begin(&gather), Ok(StepAction::Gather { first: true })));
    assert!(state.mark_gathered("/a/y.yaml", "t"));
    assert!(!state.mark_gathered("/a/y.yaml", "t"));
    assert!(matches!(state.begin(&gather), Ok(StepAction::Gather { first: false })));
    assert!(!state.was_parent("/a/x.yaml"));
    state.mark_parent("/a/x.yaml");
    assert!(state.was_parent("/a/x.yaml"));
}

#[test]
fn emitted_batches_are_written_together() {
    let mut state = RunState::new();
    let write = ExecutionStep::WriteSharedOutput {
        output_file: "x.csv".into(),
        format: Format::Csv,
        quality: None,
        schema: vec![],
    };
    assert!(matches!(state.begin(&write), Ok(StepAction::Skip)));
    state.emit_batch(&dataset("x", vec![]), 3, 0);
    assert!(matches!(state.begin(&write), Ok(StepAction::Skip)));
    state.emit_batch(&dataset("x", vec![]), 5, 2);
    state.emit_batch(&dataset("y", vec![]), 6, 2);
    match state.begin(&write) {
        Ok(StepAction::Write(batches)) => {
            let ids: Vec<usize> = batches.iter().map(|b| b.batch).collect();
            assert_eq!(ids, vec![3, 5]);
        }
        other => panic!("{:?}", other),
    }
}

#[test]
fn segments_are_entered_with_the_rows_of_their_import() {
    let mut run = SegmentRun::new();
    assert_eq!(run.enter_segment(0, None), None);
    assert_eq!(run.enter_segment(4, None), Some(4));
    assert_eq!(run.enter_segment(4, Some(3)), Some(3));
    assert_eq!(run.slot_offset, 0);
    assert_eq!(run.enter_segment(4, Some(0)), None);
    assert_eq!(run.slot_offset, 4);
}

#[test]
fn every_slot_is_expanded() {
    let (rows, slots) = expand_slots(5, &vec![2, 0, 1]);
    assert_eq!(rows, vec![0, 0, 1, 2]);
    assert_eq!(slots, vec![5, 5, 6, 7]);
}

#[test]
fn parent_and_members_share_columns() {
    let parent = vec![typed("id", FieldType::Number), typed("other", FieldType::String)];
    let one = member("/a/c.yaml", "p", vec![refers("pid", "p.id")], false);
    let mut two = member("/a/d.yaml", "p", vec![refers("key", "p.id"), typed("own", FieldType::String)], false);
    two.cardinality = Some(CountSpec::Fixed(3));
    let members = vec![one, two];
    let seg = |paths: &[&str]| Segment {
        members: texts(paths),
        rows: 3,
        field_constraints: ConstraintMap::new(),
        ring: None,
    };
    let both = seg(&["/a/c.yaml", "/a/d.yaml"]);
    let p = plan_segment(&parent, &members, &vec![None, None], None, &both).unwrap();
    assert_eq!(p.shared.len(), 1);
    assert!(matches!(p.sources[0], AtomSource::Fresh));
    assert_eq!(p.members[0].rows, MemberRows::Plain);
    assert_eq!(p.members[1].rows, MemberRows::Expanded(CountSpec::Fixed(3)));
    assert_eq!(names_of(&p.members[1].columns), vec!["key=id", "new own"]);
    assert_eq!(names_of(&p.parent), vec!["id=id", "new other"]);
    let ready = vec![Some(texts(&["pid"])), None];
    let p = plan_segment(&parent, &members, &ready, None, &both).unwrap();
    assert_eq!(p.members[0].rows, MemberRows::Reused);
    assert!(matches!(&p.sources[0], AtomSource::Member { member: 0, column } if column == "pid"));
    let alone = plan_segment(&parent, &members, &ready, None, &seg(&[])).unwrap();
    assert!(alone.members.is_empty() && alone.shared.is_empty());
    assert_eq!(names_of(&alone.parent), vec!["new id", "new other"]);
    let lost = vec![member("/a/c.yaml", "p", vec![refers("x", "p.none")], false)];
    assert_eq!(
        text_of(&plan_segment(&parent, &lost, &vec![None], None, &seg(&["/a/c.yaml"])).unwrap_err()),
        "atom batch missing shared ref column 'none' for member 'm'"
    );
}

#[test]
fn drawn_rows_become_lists() {
    let items = vec![refers("lid", "l.id"), refers("sid", "s.id"), typed("n", FieldType::Number)];
    let ds = dataset("s", vec![typed("id", FieldType::Number), list_from("items", "l", items)]);
    let witness = texts(&["_linked_idx", "_staging_refs", "lid", "n"]);
    let staging = texts(&["id"]);
    let refs = vec![vec![1, 0], vec![1]];
    let a = assemble_list(&ds, "items", None, &witness, &staging, &refs, 3).unwrap();
    assert_eq!(a.slots, vec![0, 1, 1]);
    assert_eq!(a.lengths, vec![1, 2, 0]);
    assert_eq!(a.rows[0], 0);
    assert_eq!(a.outer.len(), 1);
    assert!(matches!(&a.elements, ListElements::Record(v) if *v == vec![0, 1, 2]));
    let a = assemble_list(&ds, "items", Some("sid"), &witness, &staging, &refs, 3).unwrap();
    assert!(matches!(a.elements, ListElements::Column(2)));
    assert_eq!(
        text_of(&assemble_list(&ds, "items", None, &witness, &texts(&[]), &refs, 3).unwrap_err()),
        "outer-scoped column 'id' not found in staging batch"
    );
    assert_eq!(
        text_of(&assemble_list(&ds, "items", Some("z"), &witness, &staging, &refs, 3).unwrap_err()),
        "project: column 'z' not found in witness for 'items'"
    );
}
