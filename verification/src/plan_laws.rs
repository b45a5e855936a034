//! What every plan promises: which rows are drawn, gathered and written, and how many.
use vstd::prelude::*;

use crate::generator::count_fits;
use crate::models::{
    dataset_position, field_position, link_position, ref_parts, CountSpec, DatasetEntryModel,
    FieldModel, IncludeModel, Reducer, RefBindingModel, SyntheticDatasetModel, YamlModel,
};
use crate::plan::{
    collect_problem, collect_steps, concrete, count_bound, default_of, draw_problem, emit_steps,
    emits, handed_up, has_file, has_lists, inherited_at, item_steps, items_steps,
    junction_field_paths, junction_field_steps, junction_paths, junction_problem, junction_problems,
    junction_steps, junction_target, list_draw_problem, list_draw_problems, member_steps, noted,
    noted_all, noted_members, plain_steps, plan_problem, pool_size, witness_link, witness_part,
    witness_parts, witness_specs, witness_steps, writes, writing_members, InheritedModel, Planning,
    SharedModel, StepModel, WitnessSpecModel,
};

verus! {

// ---------------------------------------------------------------------------
// Where things stand
// ---------------------------------------------------------------------------

/// Link `l` is the first one that a dataset calls `reference`.
pub open spec fn first_link(links: Seq<IncludeModel>, reference: Seq<char>, l: int) -> bool {
    &&& 0 <= l < links.len()
    &&& links[l].reference == reference
    &&& forall|j: int| 0 <= j < l ==> (#[trigger] links[j]).reference != reference
}

/// Field `i` of a dataset is a list whose items come from link `l`, which leads to a dataset.
pub open spec fn draws_from(ds: SyntheticDatasetModel, i: int, l: int) -> bool {
    &&& 0 <= i < ds.data.len()
    &&& ds.data[i].content is Some
    &&& ds.data[i].content->0.from is Some
    &&& first_link(ds.links, ds.data[i].content->0.from->0, l)
    &&& ds.links[l].resolved is Some
}

/// Dataset `d` is planned on its own, under its own path: its parent does not generate it, and it
/// has no variants.
pub open spec fn planned_alone(p: Planning, order: Seq<usize>, k: int, d: int) -> bool {
    &&& 0 <= k < order.len()
    &&& order[k] == d
    &&& !p.is_pure_member(d)
    &&& p.all[d].dataset.variants.len() == 0
}

proof fn lemma_link_found(links: Seq<IncludeModel>, reference: Seq<char>, l: int, from: int)
    requires
        first_link(links, reference, l),
        0 <= from <= l,
    ensures
        link_position(links, reference, from) == Some(l),
    decreases l - from,
{
    if from < l {
        lemma_link_found(links, reference, l, from + 1);
    }
}

proof fn lemma_in_steps(p: Planning, order: Seq<usize>, n: int, k: int, s: StepModel)
    requires
        0 <= k < n <= order.len(),
        p.node_steps(order[k] as int).contains(s),
    ensures
        p.steps(order, n).contains(s),
    decreases n,
{
    let before = p.steps(order, n - 1);
    let node = p.node_steps(order[n - 1] as int);
    let now = p.steps(order, n);
    if k < n - 1 {
        lemma_in_steps(p, order, n - 1, k, s);
        let a = choose|a: int| 0 <= a < before.len() && before[a] == s;
        assert(now[a] == s);
    } else {
        let a = choose|a: int| 0 <= a < node.len() && node[a] == s;
        assert(now[before.len() + a] == s);
    }
}

proof fn lemma_in_plan(p: Planning, order: Seq<usize>, k: int, s: StepModel)
    requires
        0 <= k < order.len(),
        p.node_steps(order[k] as int).contains(s),
    ensures
        p.plan(order).contains(s),
{
    let n = order.len() as int;
    lemma_in_steps(p, order, n, k, s);
    let steps = p.steps(order, n);
    let a = choose|a: int| 0 <= a < steps.len() && steps[a] == s;
    assert(p.plan(order)[a] == s);
}

proof fn lemma_left<A>(a: Seq<A>, b: Seq<A>, x: A)
    requires
        a.contains(x),
    ensures
        (a + b).contains(x),
{
    let i = choose|i: int| 0 <= i < a.len() && a[i] == x;
    assert((a + b)[i] == x);
}

proof fn lemma_right<A>(a: Seq<A>, b: Seq<A>, x: A)
    requires
        b.contains(x),
    ensures
        (a + b).contains(x),
{
    let i = choose|i: int| 0 <= i < b.len() && b[i] == x;
    assert((a + b)[a.len() + i] == x);
}

proof fn lemma_either<A>(a: Seq<A>, b: Seq<A>, x: A)
    requires
        (a + b).contains(x),
    ensures
        a.contains(x) || b.contains(x),
{
    let i = choose|i: int| 0 <= i < (a + b).len() && (a + b)[i] == x;
    if i < a.len() {
        assert(a[i] == x);
    } else {
        assert(b[i - a.len()] == x);
    }
}

// ---------------------------------------------------------------------------
// List fields
// ---------------------------------------------------------------------------

/// The step that draws the items of list field `i` from link `l`, so many as `c` says, and keeps
/// them under `key`.
pub open spec fn draw_step(
    ds: SyntheticDatasetModel,
    path: Seq<char>,
    i: int,
    l: int,
    c: CountSpec,
    key: Seq<char>,
) -> StepModel {
    StepModel::GenerateWitness {
        key,
        staging_path: path,
        list_field: ds.data[i].name,
        inner_fields: ds.data[i].content->0.item.fields,
        link: ds.links[l],
        cardinality: c,
        linked_path: ds.links[l].resolved->0,
    }
}

/// The plan draws the items of list field `i`, and puts what it drew in the rows of the dataset.
pub open spec fn draws_and_assembles(
    steps: Seq<StepModel>,
    ds: SyntheticDatasetModel,
    path: Seq<char>,
    i: int,
    l: int,
    c: CountSpec,
    key: Seq<char>,
    specs: Seq<WitnessSpecModel>,
) -> bool {
    &&& steps.contains(draw_step(ds, path, i, l, c, key))
    &&& steps.contains(
        StepModel::AssembleFromWitness { staging_path: path, dataset: ds, specs },
    )
    &&& exists|a: int|
        0 <= a < specs.len() && (#[trigger] specs[a]).field == ds.data[i].name && specs[a].key == key
}

proof fn lemma_witness_parts_draw(
    all: Seq<DatasetEntryModel>,
    ds: SyntheticDatasetModel,
    path: Seq<char>,
    n: int,
    i: int,
    l: int,
    c: CountSpec,
) -> (key: Seq<char>)
    requires
        draws_from(ds, i, l),
        0 <= i < n <= ds.data.len(),
        ds.links[l].cardinality is Some ==> ds.links[l].cardinality == Some(c),
        ds.links[l].cardinality is None ==> c == CountSpec::Fixed(1),
    ensures
        witness_parts(all, ds, path, n).contains(draw_step(ds, path, i, l, c, key)),
        exists|a: int|
            0 <= a < witness_specs(ds, path, n).len() && (
            #[trigger] witness_specs(ds, path, n)[a]).field == ds.data[i].name && witness_specs(
                ds,
                path,
                n,
            )[a].key == key,
    decreases n,
{
    let f = ds.data[n - 1];
    let before = witness_parts(all, ds, path, n - 1);
    let part = witness_part(all, ds, path, f);
    let specs = witness_specs(ds, path, n);
    let old_specs = witness_specs(ds, path, n - 1);
    if i < n - 1 {
        let key = lemma_witness_parts_draw(all, ds, path, n - 1, i, l, c);
        lemma_left(before, part, draw_step(ds, path, i, l, c, key));
        let a = choose|a: int|
            0 <= a < old_specs.len() && (#[trigger] old_specs[a]).field == ds.data[i].name
                && old_specs[a].key == key;
        assert(specs[a] == old_specs[a]);
        key
    } else {
        lemma_link_found(ds.links, f.content->0.from->0, l, 0);
        let key = crate::cover::witness_key_of(path, f.name);
        assert(part[0] == draw_step(ds, path, i, l, c, key));
        assert(part.contains(draw_step(ds, path, i, l, c, key)));
        lemma_right(before, part, draw_step(ds, path, i, l, c, key));
        assert(specs[old_specs.len() as int].field == ds.data[i].name);
        key
    }
}

proof fn lemma_lists_are_drawn(
    all: Seq<DatasetEntryModel>,
    ds: SyntheticDatasetModel,
    path: Seq<char>,
    i: int,
    l: int,
    c: CountSpec,
) -> (r: (Seq<char>, Seq<WitnessSpecModel>))
    requires
        draws_from(ds, i, l),
        ds.links[l].cardinality is Some ==> ds.links[l].cardinality == Some(c),
        ds.links[l].cardinality is None ==> c == CountSpec::Fixed(1),
    ensures
        has_lists(ds),
        draws_and_assembles(witness_steps(all, ds, path), ds, path, i, l, c, r.0, r.1),
{
    assert(ds.data[i].list_link());
    let n = ds.data.len() as int;
    let key = lemma_witness_parts_draw(all, ds, path, n, i, l, c);
    let specs = witness_specs(ds, path, n);
    let parts = witness_parts(all, ds, path, n);
    let last = StepModel::AssembleFromWitness { staging_path: path, dataset: ds, specs };
    assert(specs.len() > 0);
    assert(witness_steps(all, ds, path) == parts + seq![last]);
    lemma_left(parts, seq![last], draw_step(ds, path, i, l, c, key));
    assert(seq![last][0] == last);
    assert(seq![last].contains(last));
    lemma_right(parts, seq![last], last);
    (key, specs)
}

/// The items of every list field are drawn from its link, as many for each row as the link
/// declares, one where it declares nothing, and are put in the rows of the dataset.
pub proof fn law_lists_are_drawn_as_their_links_declare(
    p: Planning,
    order: Seq<usize>,
    k: int,
    d: int,
    i: int,
    l: int,
    c: CountSpec,
)
    requires
        planned_alone(p, order, k, d),
        draws_from(p.all[d].dataset, i, l),
        p.all[d].dataset.links[l].cardinality is Some ==> p.all[d].dataset.links[l].cardinality
            == Some(c),
        p.all[d].dataset.links[l].cardinality is None ==> c == CountSpec::Fixed(1),
    ensures
        exists|key: Seq<char>, specs: Seq<WitnessSpecModel>|
            #[trigger] draws_and_assembles(
                p.plan(order),
                p.all[d].dataset,
                p.all[d].path,
                i,
                l,
                c,
                key,
                specs,
            ),
{
    let e = p.all[d];
    let ds = e.dataset;
    let (key, specs) = lemma_lists_are_drawn(p.all, ds, e.path, i, l, c);
    let draw = draw_step(ds, e.path, i, l, c, key);
    let last = StepModel::AssembleFromWitness { staging_path: e.path, dataset: ds, specs };
    let w = witness_steps(p.all, ds, e.path);
    let node = p.node_steps(d);
    let members = p.group(d);
    assert(node.contains(draw) && node.contains(last)) by {
        if members.len() > 0 {
            let first = seq![
                StepModel::GenerateStagingLowerCoverGroup {
                    path: e.path,
                    dataset: ds,
                    segments: p.segments[d][0],
                    members,
                },
            ];
            lemma_right(first, w, draw);
            lemma_right(first, w, last);
            let rest = member_steps(p.all, members, members.len() as int);
            lemma_left(first + w, rest, draw);
            lemma_left(first + w, rest, last);
        } else {
            let inherited = inherited_at(p.all, p.covered(), e.path, p.all.len() as int);
            let first = seq![
                StepModel::GenerateStagingNode {
                    path: e.path,
                    dataset: ds,
                    rows: p.rows[d],
                    inherited,
                },
            ];
            lemma_right(first, w, draw);
            lemma_right(first, w, last);
            let rest = collect_steps(p.all, ds, e.path);
            lemma_left(first + w, rest, draw);
            lemma_left(first + w, rest, last);
        }
    }
    lemma_in_plan(p, order, k, draw);
    lemma_in_plan(p, order, k, last);
    assert(draws_and_assembles(p.plan(order), ds, e.path, i, l, c, key, specs));
}

/// A step that draws list items draws as many as its link declares.
pub open spec fn draws_as_declared(s: StepModel) -> bool {
    s matches StepModel::GenerateWitness { link, cardinality, linked_path, .. } ==> {
        &&& link.cardinality is Some ==> cardinality == link.cardinality->0
        &&& link.cardinality is None ==> cardinality == CountSpec::Fixed(1)
        &&& link.resolved == Some(linked_path)
    }
}

/// Every step of the list that draws list items draws as many as its link declares.
pub open spec fn all_draw_as_declared(s: Seq<StepModel>) -> bool {
    forall|i: int| 0 <= i < s.len() ==> draws_as_declared(#[trigger] s[i])
}

proof fn lemma_item_steps_draw(
    all: Seq<DatasetEntryModel>,
    key: Seq<char>,
    linked: Seq<char>,
    items: Seq<FieldModel>,
    n: int,
)
    ensures
        all_draw_as_declared(items_steps(all, key, linked, items, n)),
    decreases n,
{
    if n > 0 {
        lemma_item_steps_draw(all, key, linked, items, n - 1);
        let f = items[n - 1];
        lemma_bindings_draw(all, key, linked, f.name, f.collects(), f.collects().len() as int);
    }
}

proof fn lemma_bindings_draw(
    all: Seq<DatasetEntryModel>,
    key: Seq<char>,
    linked: Seq<char>,
    column: Seq<char>,
    bindings: Seq<RefBindingModel>,
    n: int,
)
    ensures
        all_draw_as_declared(item_steps(all, key, linked, column, bindings, n)),
    decreases n,
{
    if n > 0 {
        lemma_bindings_draw(all, key, linked, column, bindings, n - 1);
    }
}

proof fn lemma_witness_draws(
    all: Seq<DatasetEntryModel>,
    ds: SyntheticDatasetModel,
    path: Seq<char>,
    n: int,
)
    ensures
        all_draw_as_declared(witness_parts(all, ds, path, n)),
    decreases n,
{
    if n > 0 {
        lemma_witness_draws(all, ds, path, n - 1);
        let f = ds.data[n - 1];
        let part = witness_part(all, ds, path, f);
        assert(all_draw_as_declared(part)) by {
            if let Some((l, linked)) = witness_link(ds, f) {
                let key = crate::cover::witness_key_of(path, f.name);
                let items = f.content->0.item.fields;
                let gathered = items_steps(all, key, linked, items, items.len() as int);
                lemma_item_steps_draw(all, key, linked, items, items.len() as int);
                assert forall|i: int| 0 <= i < part.len() implies draws_as_declared(
                    #[trigger] part[i],
                ) by {
                    if 1 <= i < 1 + gathered.len() {
                        assert(part[i] == gathered[i - 1]);
                    }
                }
            }
        }
    }
}

proof fn lemma_junction_draws(
    all: Seq<DatasetEntryModel>,
    ds: SyntheticDatasetModel,
    path: Seq<char>,
)
    ensures
        all_draw_as_declared(collect_steps(all, ds, path)),
{
    lemma_junction_steps_draw(all, ds, path, ds.data.len() as int);
    let paths = junction_paths(ds, ds.data.len() as int);
    lemma_emits_draw(all, paths, paths.len() as int);
}

proof fn lemma_junction_steps_draw(
    all: Seq<DatasetEntryModel>,
    ds: SyntheticDatasetModel,
    path: Seq<char>,
    n: int,
)
    ensures
        all_draw_as_declared(junction_steps(all, ds, path, n)),
    decreases n,
{
    if n > 0 {
        lemma_junction_steps_draw(all, ds, path, n - 1);
        let f = ds.data[n - 1];
        lemma_junction_field_draws(all, ds, path, f, f.collects().len() as int);
    }
}

proof fn lemma_junction_field_draws(
    all: Seq<DatasetEntryModel>,
    ds: SyntheticDatasetModel,
    path: Seq<char>,
    f: FieldModel,
    n: int,
)
    ensures
        all_draw_as_declared(junction_field_steps(all, ds, path, f, n)),
    decreases n,
{
    if n > 0 {
        lemma_junction_field_draws(all, ds, path, f, n - 1);
    }
}

proof fn lemma_emits_draw(all: Seq<DatasetEntryModel>, paths: Seq<Seq<char>>, n: int)
    ensures
        all_draw_as_declared(emits(all, paths, n)),
    decreases n,
{
    if n > 0 {
        lemma_emits_draw(all, paths, n - 1);
    }
}

proof fn lemma_members_draw(
    all: Seq<DatasetEntryModel>,
    members: Seq<crate::cover::MemberModel>,
    n: int,
)
    ensures
        all_draw_as_declared(member_steps(all, members, n)),
    decreases n,
{
    if n > 0 {
        lemma_members_draw(all, members, n - 1);
        lemma_junction_draws(all, members[n - 1].dataset, members[n - 1].path);
    }
}

proof fn lemma_variants_draw(p: Planning, i: int, v: int)
    ensures
        all_draw_as_declared(p.variant_steps(i, v)),
    decreases v,
{
    if v > 0 {
        lemma_variants_draw(p, i, v - 1);
        let ds = p.variant(i, v - 1);
        let key = crate::cover::variant_key_of(p.all[i].path, v - 1);
        lemma_witness_draws(p.all, ds, key, ds.data.len() as int);
    }
}

proof fn lemma_steps_draw(p: Planning, order: Seq<usize>, n: int)
    ensures
        all_draw_as_declared(p.steps(order, n)),
    decreases n,
{
    if n > 0 {
        lemma_steps_draw(p, order, n - 1);
        let d = order[n - 1] as int;
        let e = p.all[d];
        lemma_variants_draw(p, d, e.dataset.variants.len() as int);
        lemma_witness_draws(p.all, e.dataset, e.path, e.dataset.data.len() as int);
        lemma_members_draw(p.all, p.group(d), p.group(d).len() as int);
        lemma_junction_draws(p.all, e.dataset, e.path);
    }
}

/// Whatever a plan draws for list fields, of datasets and their variants alike, it draws as often
/// as the link declares, from the dataset that the link leads to.
pub proof fn law_every_draw_follows_its_link(p: Planning, order: Seq<usize>, s: StepModel)
    requires
        p.plan(order).contains(s),
        s is GenerateWitness,
    ensures
        s->link.cardinality is Some ==> s->cardinality == s->link.cardinality->0,
        s->link.cardinality is None ==> s->cardinality == CountSpec::Fixed(1),
        s->link.resolved == Some(s->GenerateWitness_linked_path),
{
    let n = order.len() as int;
    lemma_steps_draw(p, order, n);
    let i = choose|i: int| 0 <= i < p.plan(order).len() && p.plan(order)[i] == s;
    if i < p.steps(order, n).len() {
        assert(draws_as_declared(p.steps(order, n)[i]));
    }
}

// ---------------------------------------------------------------------------
// Rows
// ---------------------------------------------------------------------------

/// A step generates the rows of the dataset at `path`, as the dataset declares them: so many rows
/// where it has no lower cover, by the given segments where it has one.
pub open spec fn generates_rows(
    s: StepModel,
    path: Seq<char>,
    ds: SyntheticDatasetModel,
    rows: usize,
    segments: Seq<crate::segment::SegmentModel>,
    members: Seq<crate::cover::MemberModel>,
) -> bool {
    match s {
        StepModel::GenerateDataset { path: at, dataset, rows: n, .. } => at == path && dataset == ds
            && n == rows && members.len() == 0 && !has_lists(ds),
        StepModel::GenerateStagingNode { path: at, dataset, rows: n, .. } => at == path && dataset
            == ds && n == rows && members.len() == 0 && has_lists(ds),
        StepModel::GenerateLowerCoverGroup { path: at, dataset, segments: parts, members: who, .. } => at
            == path && dataset == ds && parts == segments && who == members && members.len() > 0
            && !has_lists(ds),
        StepModel::GenerateStagingLowerCoverGroup { path: at, dataset, segments: parts, members: who } => at
            == path && dataset == ds && parts == segments && who == members && members.len() > 0
            && has_lists(ds),
        _ => false,
    }
}

/// Every dataset gets the rows that were counted for it, or the segments that were planned for its
/// lower cover.
pub proof fn law_datasets_get_their_rows(p: Planning, order: Seq<usize>, k: int, d: int)
    requires
        planned_alone(p, order, k, d),
    ensures
        exists|s: StepModel|
            p.plan(order).contains(s) && #[trigger] generates_rows(
                s,
                p.all[d].path,
                p.all[d].dataset,
                p.rows[d],
                p.segments[d][0],
                p.group(d),
            ),
{
    let node = p.node_steps(d);
    let s = node[0];
    assert(node.contains(s));
    assert(generates_rows(
        s,
        p.all[d].path,
        p.all[d].dataset,
        p.rows[d],
        p.segments[d][0],
        p.group(d),
    ));
    lemma_in_plan(p, order, k, s);
}

proof fn lemma_variant_step(p: Planning, d: int, v: int, n: int) -> (s: StepModel)
    requires
        0 <= v < n,
    ensures
        p.variant_steps(d, n).contains(s),
        generates_rows(
            s,
            crate::cover::variant_key_of(p.all[d].path, v),
            p.variant(d, v),
            p.variant_rows[d][v],
            p.segments[d][v],
            writing_members(p.group(d)),
        ),
    decreases n,
{
    let before = p.variant_steps(d, n - 1);
    let now = p.variant_steps(d, n);
    if v < n - 1 {
        let s = lemma_variant_step(p, d, v, n - 1);
        let a = choose|a: int| 0 <= a < before.len() && before[a] == s;
        assert(now[a] == s);
        s
    } else {
        let s = now[before.len() as int];
        assert(writing_members(p.group(d)).len() == p.group(d).len());
        s
    }
}

/// Every variant of a dataset gets the rows that were split off for it, under a key of its own.
pub proof fn law_variants_get_their_rows(p: Planning, order: Seq<usize>, k: int, d: int, v: int)
    requires
        0 <= k < order.len(),
        order[k] == d,
        !p.is_pure_member(d),
        0 <= v < p.all[d].dataset.variants.len(),
    ensures
        exists|s: StepModel|
            p.plan(order).contains(s) && #[trigger] generates_rows(
                s,
                crate::cover::variant_key_of(p.all[d].path, v),
                p.variant(d, v),
                p.variant_rows[d][v],
                p.segments[d][v],
                writing_members(p.group(d)),
            ),
{
    let s = lemma_variant_step(p, d, v, p.all[d].dataset.variants.len() as int);
    lemma_in_plan(p, order, k, s);
}

/// A variant stands for its dataset: it has as many rows as are asked for, no variants of its own,
/// the dataset's include, links and format, and its own locale before the dataset's. It writes
/// what the dataset writes, or under the dataset's name where that has no output.
pub proof fn law_variants_stand_for_their_dataset(
    ds: SyntheticDatasetModel,
    v: crate::models::VariantSchemaModel,
    i: int,
    rows: usize,
)
    ensures
        concrete(ds, v, i, rows).rows == Some(rows),
        concrete(ds, v, i, rows).variants.len() == 0,
        concrete(ds, v, i, rows).include_spec == ds.include_spec,
        concrete(ds, v, i, rows).links == ds.links,
        concrete(ds, v, i, rows).format == ds.format,
        concrete(ds, v, i, rows).import == ds.import,
        v.locale is Some ==> concrete(ds, v, i, rows).locale == v.locale,
        v.locale is None ==> concrete(ds, v, i, rows).locale == ds.locale,
        concrete(ds, v, i, rows).all_outputs().len() > 0,
        ds.all_outputs().len() > 0 ==> concrete(ds, v, i, rows).all_outputs() == ds.all_outputs(),
        ds.all_outputs().len() == 0 ==> concrete(ds, v, i, rows).all_outputs().len() == 1
            && concrete(ds, v, i, rows).all_outputs()[0].file == ds.name,
{
    let r = concrete(ds, v, i, rows);
    if ds.outputs.len() > 0 {
        assert(ds.all_outputs().len() == ds.outputs.len());
    }
    assert(r.outputs == ds.outputs);
}

// ---------------------------------------------------------------------------
// Outputs
// ---------------------------------------------------------------------------

/// Two lists of outputs: `b` begins with `a`.
pub open spec fn goes_on(a: Seq<SharedModel>, b: Seq<SharedModel>) -> bool {
    a.len() <= b.len() && forall|i: int| 0 <= i < a.len() ==> #[trigger] b[i] == a[i]
}

proof fn lemma_noted_goes_on(s: Seq<SharedModel>, ds: SyntheticDatasetModel, n: int)
    requires
        0 <= n <= ds.all_outputs().len(),
    ensures
        goes_on(s, noted(s, ds, n)),
        forall|o: int|
            0 <= o < n ==> has_file(noted(s, ds, n), (#[trigger] ds.all_outputs()[o]).file),
        forall|i: int|
            s.len() <= i < noted(s, ds, n).len() ==> exists|o: int|
                0 <= o < n && (#[trigger] ds.all_outputs()[o]).file == noted(s, ds, n)[i].file
                    && ds.all_outputs()[o].quality == (#[trigger] noted(s, ds, n)[i]).quality
                    && noted(s, ds, n)[i].format == ds.format && noted(s, ds, n)[i].schema
                    == ds.data,
    decreases n,
{
    if n > 0 {
        lemma_noted_goes_on(s, ds, n - 1);
        let before = noted(s, ds, n - 1);
        let now = noted(s, ds, n);
        let file = ds.all_outputs()[n - 1].file;
        assert forall|o: int| 0 <= o < n implies has_file(
            now,
            (#[trigger] ds.all_outputs()[o]).file,
        ) by {
            let f = ds.all_outputs()[o].file;
            if o < n - 1 {
                assert(has_file(before, f));
                let i = choose|i: int| 0 <= i < before.len() && (#[trigger] before[i]).file == f;
                assert(now[i].file == f);
            } else if has_file(before, file) {
            } else {
                assert(now[before.len() as int].file == file);
            }
        }
        assert forall|i: int| s.len() <= i < now.len() implies exists|o: int|
            0 <= o < n && (#[trigger] ds.all_outputs()[o]).file == now[i].file
                && ds.all_outputs()[o].quality == (#[trigger] now[i]).quality && now[i].format
                == ds.format && now[i].schema == ds.data by {
            if i < before.len() {
                assert(now[i] == before[i]);
                let o = choose|o: int|
                    0 <= o < n - 1 && (#[trigger] ds.all_outputs()[o]).file == before[i].file
                        && ds.all_outputs()[o].quality == before[i].quality && before[i].format
                        == ds.format && before[i].schema == ds.data;
                assert(ds.all_outputs()[o].file == now[i].file);
            } else {
                assert(ds.all_outputs()[n - 1].file == now[i].file);
            }
        }
    }
}

proof fn lemma_members_go_on(
    s: Seq<SharedModel>,
    members: Seq<crate::cover::MemberModel>,
    n: int,
)
    requires
        0 <= n <= members.len(),
    ensures
        goes_on(s, noted_members(s, members, n)),
        forall|m: int, o: int|
            0 <= m < n && 0 <= o < members[m].dataset.all_outputs().len() ==> has_file(
                noted_members(s, members, n),
                (#[trigger] members[m].dataset.all_outputs()[o]).file,
            ),
    decreases n,
{
    if n > 0 {
        lemma_members_go_on(s, members, n - 1);
        let before = noted_members(s, members, n - 1);
        let ds = members[n - 1].dataset;
        lemma_noted_goes_on(before, ds, ds.all_outputs().len() as int);
        let now = noted_members(s, members, n);
        assert forall|m: int, o: int|
            0 <= m < n && 0 <= o < members[m].dataset.all_outputs().len() implies has_file(
            now,
            (#[trigger] members[m].dataset.all_outputs()[o]).file,
        ) by {
            if m < n - 1 {
                lemma_file_stays(before, now, members[m].dataset.all_outputs()[o].file);
            }
        }
    }
}

proof fn lemma_file_stays(a: Seq<SharedModel>, b: Seq<SharedModel>, file: Seq<char>)
    requires
        goes_on(a, b),
        has_file(a, file),
    ensures
        has_file(b, file),
{
    let i = choose|i: int| 0 <= i < a.len() && (#[trigger] a[i]).file == file;
    assert(b[i].file == file);
}

proof fn lemma_variant_outputs_go_on(p: Planning, i: int, s: Seq<SharedModel>, v: int)
    requires
        0 <= v,
    ensures
        goes_on(s, p.variant_outputs(i, s, v)),
        forall|w: int, o: int|
            0 <= w < v && 0 <= o < p.variant(i, w).all_outputs().len() ==> has_file(
                p.variant_outputs(i, s, v),
                (#[trigger] p.variant(i, w).all_outputs()[o]).file,
            ),
    decreases v,
{
    if v > 0 {
        lemma_variant_outputs_go_on(p, i, s, v - 1);
        let before = p.variant_outputs(i, s, v - 1);
        let members = writing_members(p.group(i));
        lemma_members_go_on(before, members, members.len() as int);
        let middle = noted_members(before, members, members.len() as int);
        let ds = p.variant(i, v - 1);
        lemma_noted_goes_on(middle, ds, ds.all_outputs().len() as int);
        let now = p.variant_outputs(i, s, v);
        assert forall|w: int, o: int|
            0 <= w < v && 0 <= o < p.variant(i, w).all_outputs().len() implies has_file(
            now,
            (#[trigger] p.variant(i, w).all_outputs()[o]).file,
        ) by {
            if w < v - 1 {
                lemma_file_stays(before, now, p.variant(i, w).all_outputs()[o].file);
            }
        }
    }
}

proof fn lemma_outputs_go_on(p: Planning, order: Seq<usize>, n: int, k: int, file: Seq<char>)
    requires
        0 <= k < n <= order.len(),
        has_file(
            p.node_outputs(order[k] as int, p.outputs(order, k)),
            file,
        ),
    ensures
        has_file(p.outputs(order, n), file),
    decreases n,
{
    if k < n - 1 {
        lemma_outputs_go_on(p, order, n - 1, k, file);
        let d = order[n - 1] as int;
        let before = p.outputs(order, n - 1);
        let e = p.all[d];
        let members = p.group(d);
        lemma_variant_outputs_go_on(p, d, before, e.dataset.variants.len() as int);
        lemma_members_go_on(before, members, members.len() as int);
        lemma_noted_goes_on(before, e.dataset, e.dataset.all_outputs().len() as int);
        lemma_noted_goes_on(
            noted_members(before, members, members.len() as int),
            e.dataset,
            e.dataset.all_outputs().len() as int,
        );
        lemma_file_stays(before, p.outputs(order, n), file);
    }
}

/// Some step writes the file.
pub open spec fn written(steps: Seq<StepModel>, file: Seq<char>) -> bool {
    exists|i: int|
        0 <= i < steps.len() && (#[trigger] steps[i]) is WriteSharedOutput && steps[i]->output_file
            == file
}

/// Every output of every dataset is written; one with variants writes the outputs of each.
pub proof fn law_every_output_is_written(p: Planning, order: Seq<usize>, k: int, d: int, o: int)
    requires
        0 <= k < order.len(),
        order[k] == d,
        0 <= o < p.all[d].dataset.all_outputs().len(),
    ensures
        written(p.plan(order), p.all[d].dataset.all_outputs()[o].file),
{
    let ds = p.all[d].dataset;
    let file = ds.all_outputs()[o].file;
    let before = p.outputs(order, k);
    let members = p.group(d);
    lemma_members_go_on(before, members, members.len() as int);
    lemma_noted_goes_on(before, ds, ds.all_outputs().len() as int);
    lemma_noted_goes_on(
        noted_members(before, members, members.len() as int),
        ds,
        ds.all_outputs().len() as int,
    );
    if !p.is_pure_member(d) && ds.variants.len() > 0 {
        lemma_variant_outputs_go_on(p, d, before, ds.variants.len() as int);
        law_variants_stand_for_their_dataset(ds, ds.variants[0], 0, p.variant_rows[d][0]);
        assert(p.variant(d, 0).all_outputs()[o].file == file);
    }
    assert(has_file(p.node_outputs(d, before), file));
    lemma_outputs_go_on(p, order, order.len() as int, k, file);
    let n = order.len() as int;
    let outs = p.outputs(order, n);
    let i = choose|i: int| 0 <= i < outs.len() && (#[trigger] outs[i]).file == file;
    let at = p.steps(order, n).len() + i;
    assert(p.plan(order)[at] == writes(outs)[i]);
}

/// What is written to a file has the format, the columns and the quality of a dataset that names
/// the file: of the first dataset that is added with it.
pub proof fn law_outputs_are_written_as_declared(
    s: Seq<SharedModel>,
    ds: SyntheticDatasetModel,
    o: int,
)
    requires
        0 <= o < ds.all_outputs().len(),
        !has_file(s, ds.all_outputs()[o].file),
        forall|q: int|
            0 <= q < ds.all_outputs().len() && q != o ==> (#[trigger] ds.all_outputs()[q]).file
                != ds.all_outputs()[o].file,
    ensures
        writes(noted_all(s, ds)).contains(
            StepModel::WriteSharedOutput {
                output_file: ds.all_outputs()[o].file,
                format: ds.format,
                quality: ds.all_outputs()[o].quality,
                schema: ds.data,
            },
        ),
{
    let n = ds.all_outputs().len() as int;
    lemma_noted_goes_on(s, ds, n);
    let all = noted_all(s, ds);
    let file = ds.all_outputs()[o].file;
    assert(has_file(all, file));
    let i = choose|i: int| 0 <= i < all.len() && (#[trigger] all[i]).file == file;
    if i < s.len() {
        assert(s[i].file == file);
    }
    let q = choose|q: int|
        0 <= q < n && (#[trigger] ds.all_outputs()[q]).file == all[i].file
            && ds.all_outputs()[q].quality == all[i].quality && all[i].format == ds.format
            && all[i].schema == ds.data;
    assert(q == o);
    assert(writes(all)[i] == (StepModel::WriteSharedOutput {
        output_file: file,
        format: ds.format,
        quality: ds.all_outputs()[o].quality,
        schema: ds.data,
    }));
}

// ---------------------------------------------------------------------------
// Gathering
// ---------------------------------------------------------------------------

/// A step gathers the values of a column, row by row of the linked dataset, in a column of that
/// dataset, by the declared reducer, as lists where none is declared.
pub open spec fn gathers(
    s: StepModel,
    source: Seq<char>,
    column: Seq<char>,
    linked: Seq<char>,
    linked_column: Seq<char>,
    reducer: Option<Reducer>,
) -> bool {
    match s {
        StepModel::AccumulateToLinked {
            source_path,
            source_field,
            linked_path,
            linked_field,
            group_by,
            reducer: by,
            ..
        } => {
            &&& source_path == source
            &&& source_field == column
            &&& linked_path == linked
            &&& linked_field == linked_column
            &&& group_by == "_linked_idx"@
            &&& reducer is Some ==> by == reducer->0
            &&& reducer is None ==> by == Reducer::Collect
        },
        _ => false,
    }
}

/// Field `i` gathers its values in column `column` of link `l`, which is no list source.
pub open spec fn gathers_through(
    ds: SyntheticDatasetModel,
    i: int,
    b: int,
    l: int,
    column: Seq<char>,
) -> bool {
    &&& 0 <= i < ds.data.len()
    &&& 0 <= b < ds.data[i].collects().len()
    &&& ds.data[i].collects()[b].bind is Some
    &&& ref_parts(ds.data[i].collects()[b].bind->0) == Some((ds.links[l].reference, column))
    &&& first_link(ds.links, ds.links[l].reference, l)
    &&& ds.links[l].resolved is Some
    &&& !crate::models::feeds_list(ds.data, ds.links[l].reference)
}

proof fn lemma_junction_field_gathers(
    all: Seq<DatasetEntryModel>,
    ds: SyntheticDatasetModel,
    path: Seq<char>,
    i: int,
    b: int,
    l: int,
    column: Seq<char>,
    n: int,
) -> (s: StepModel)
    requires
        gathers_through(ds, i, b, l, column),
        b < n <= ds.data[i].collects().len(),
    ensures
        junction_field_steps(all, ds, path, ds.data[i], n).contains(s),
        gathers(
            s,
            path,
            ds.data[i].name,
            ds.links[l].resolved->0,
            column,
            ds.data[i].collects()[b].reducer,
        ),
        s->default_val == default_of(all, ds.links[l].resolved->0, column),
    decreases n,
{
    let f = ds.data[i];
    let before = junction_field_steps(all, ds, path, f, n - 1);
    let now = junction_field_steps(all, ds, path, f, n);
    if b < n - 1 {
        let s = lemma_junction_field_gathers(all, ds, path, i, b, l, column, n - 1);
        let a = choose|a: int| 0 <= a < before.len() && before[a] == s;
        assert(now[a] == s);
        s
    } else {
        lemma_link_found(ds.links, ds.links[l].reference, l, 0);
        now[before.len() as int]
    }
}

proof fn lemma_junction_gathers(
    all: Seq<DatasetEntryModel>,
    ds: SyntheticDatasetModel,
    path: Seq<char>,
    i: int,
    b: int,
    l: int,
    column: Seq<char>,
    n: int,
) -> (s: StepModel)
    requires
        gathers_through(ds, i, b, l, column),
        i < n <= ds.data.len(),
    ensures
        junction_steps(all, ds, path, n).contains(s),
        gathers(
            s,
            path,
            ds.data[i].name,
            ds.links[l].resolved->0,
            column,
            ds.data[i].collects()[b].reducer,
        ),
        s->default_val == default_of(all, ds.links[l].resolved->0, column),
    decreases n,
{
    let f = ds.data[n - 1];
    let before = junction_steps(all, ds, path, n - 1);
    let here = junction_field_steps(all, ds, path, f, f.collects().len() as int);
    if i < n - 1 {
        let s = lemma_junction_gathers(all, ds, path, i, b, l, column, n - 1);
        lemma_left(before, here, s);
        s
    } else {
        let s = lemma_junction_field_gathers(
            all,
            ds,
            path,
            i,
            b,
            l,
            column,
            f.collects().len() as int,
        );
        lemma_right(before, here, s);
        s
    }
}

/// Every binding of a dataset without lower cover that names a column of a link is gathered there,
/// by its reducer, with the default that the column declares.
pub proof fn law_every_binding_is_gathered(
    p: Planning,
    order: Seq<usize>,
    k: int,
    d: int,
    i: int,
    b: int,
    l: int,
    column: Seq<char>,
)
    requires
        planned_alone(p, order, k, d),
        p.group(d).len() == 0,
        gathers_through(p.all[d].dataset, i, b, l, column),
    ensures
        exists|s: StepModel|
            p.plan(order).contains(s) && #[trigger] gathers(
                s,
                p.all[d].path,
                p.all[d].dataset.data[i].name,
                p.all[d].dataset.links[l].resolved->0,
                column,
                p.all[d].dataset.data[i].collects()[b].reducer,
            ) && s->default_val == default_of(
                p.all,
                p.all[d].dataset.links[l].resolved->0,
                column,
            ),
{
    let e = p.all[d];
    let ds = e.dataset;
    let n = ds.data.len() as int;
    let s = lemma_junction_gathers(p.all, ds, e.path, i, b, l, column, n);
    let steps = junction_steps(p.all, ds, e.path, n);
    let paths = junction_paths(ds, n);
    lemma_left(steps, emits(p.all, paths, paths.len() as int), s);
    let first = plain_steps(
        p.all,
        e.path,
        ds,
        p.rows[d],
        inherited_at(p.all, p.covered(), e.path, p.all.len() as int),
        crate::plan::collect_target(p.all, e.path),
    );
    lemma_right(first, collect_steps(p.all, ds, e.path), s);
    lemma_in_plan(p, order, k, s);
}

/// The column of the linked dataset starts from its declared default, from null where it declares
/// none.
pub proof fn law_gathering_starts_from_the_default(
    all: Seq<DatasetEntryModel>,
    t: int,
    c: int,
)
    requires
        0 <= t < all.len(),
        forall|j: int| 0 <= j < t ==> (#[trigger] all[j]).path != all[t].path,
        0 <= c < all[t].dataset.data.len(),
        forall|j: int|
            0 <= j < c ==> (#[trigger] all[t].dataset.data[j]).name != all[t].dataset.data[c].name,
    ensures
        all[t].dataset.data[c].default is Some ==> default_of(
            all,
            all[t].path,
            all[t].dataset.data[c].name,
        ) == all[t].dataset.data[c].default->0,
        all[t].dataset.data[c].default is None ==> default_of(
            all,
            all[t].path,
            all[t].dataset.data[c].name,
        ) == YamlModel::Null,
{
    lemma_dataset_found(all, t, 0);
    lemma_field_found(all[t].dataset.data, c, 0);
}

proof fn lemma_dataset_found(all: Seq<DatasetEntryModel>, t: int, from: int)
    requires
        0 <= from <= t < all.len(),
        forall|j: int| 0 <= j < t ==> (#[trigger] all[j]).path != all[t].path,
    ensures
        dataset_position(all, all[t].path, from) == Some(t),
    decreases t - from,
{
    if from < t {
        lemma_dataset_found(all, t, from + 1);
    }
}

proof fn lemma_field_found(data: Seq<FieldModel>, c: int, from: int)
    requires
        0 <= from <= c < data.len(),
        forall|j: int| 0 <= j < c ==> (#[trigger] data[j]).name != data[c].name,
    ensures
        field_position(data, data[c].name, from) == Some(c),
    decreases c - from,
{
    if from < c {
        lemma_field_found(data, c, from + 1);
    }
}

proof fn lemma_binding_gathers(
    all: Seq<DatasetEntryModel>,
    key: Seq<char>,
    linked: Seq<char>,
    column: Seq<char>,
    bindings: Seq<RefBindingModel>,
    b: int,
    n: int,
) -> (s: StepModel)
    requires
        0 <= b < n <= bindings.len(),
        bindings[b].bind is Some,
        ref_parts(bindings[b].bind->0) is Some,
    ensures
        item_steps(all, key, linked, column, bindings, n).contains(s),
        gathers(
            s,
            key,
            column,
            linked,
            (ref_parts(bindings[b].bind->0)->0).1,
            bindings[b].reducer,
        ),
    decreases n,
{
    let before = item_steps(all, key, linked, column, bindings, n - 1);
    let now = item_steps(all, key, linked, column, bindings, n);
    if b < n - 1 {
        let s = lemma_binding_gathers(all, key, linked, column, bindings, b, n - 1);
        let a = choose|a: int| 0 <= a < before.len() && before[a] == s;
        assert(now[a] == s);
        s
    } else {
        now[before.len() as int]
    }
}

/// Every binding of an item field of a list is gathered in the linked dataset, from the rows that
/// were drawn for the list, and the linked dataset is written behind that.
pub proof fn law_item_bindings_are_gathered(
    all: Seq<DatasetEntryModel>,
    key: Seq<char>,
    linked: Seq<char>,
    items: Seq<FieldModel>,
    c: int,
    b: int,
    n: int,
)
    requires
        0 <= c < n <= items.len(),
        0 <= b < items[c].collects().len(),
        items[c].collects()[b].bind is Some,
        ref_parts(items[c].collects()[b].bind->0) is Some,
    ensures
        exists|s: StepModel|
            items_steps(all, key, linked, items, n).contains(s) && #[trigger] gathers(
                s,
                key,
                items[c].name,
                linked,
                (ref_parts(items[c].collects()[b].bind->0)->0).1,
                items[c].collects()[b].reducer,
            ),
    decreases n,
{
    let f = items[n - 1];
    let before = items_steps(all, key, linked, items, n - 1);
    let here = item_steps(all, key, linked, f.name, f.collects(), f.collects().len() as int);
    let column = (ref_parts(items[c].collects()[b].bind->0)->0).1;
    if c < n - 1 {
        law_item_bindings_are_gathered(all, key, linked, items, c, b, n - 1);
        let s = choose|s: StepModel|
            before.contains(s) && #[trigger] gathers(
                s,
                key,
                items[c].name,
                linked,
                column,
                items[c].collects()[b].reducer,
            );
        lemma_left(before, here, s);
    } else {
        let s = lemma_binding_gathers(
            all,
            key,
            linked,
            f.name,
            f.collects(),
            b,
            f.collects().len() as int,
        );
        lemma_right(before, here, s);
    }
}

proof fn lemma_junction_path_kept(
    ds: SyntheticDatasetModel,
    s: Seq<Seq<char>>,
    f: FieldModel,
    n: int,
    path: Seq<char>,
)
    requires
        s.contains(path),
    ensures
        junction_field_paths(ds, s, f, n).contains(path),
    decreases n,
{
    if n > 0 {
        lemma_junction_path_kept(ds, s, f, n - 1, path);
        let before = junction_field_paths(ds, s, f, n - 1);
        let now = junction_field_paths(ds, s, f, n);
        let a = choose|a: int| 0 <= a < before.len() && before[a] == path;
        assert(now[a] == path);
    }
}

proof fn lemma_junction_field_path(
    ds: SyntheticDatasetModel,
    s: Seq<Seq<char>>,
    f: FieldModel,
    b: int,
    n: int,
)
    requires
        0 <= b < n <= f.collects().len(),
        junction_target(ds, f.collects()[b]) is Some,
    ensures
        junction_field_paths(ds, s, f, n).contains((junction_target(ds, f.collects()[b])->0).0),
    decreases n,
{
    let path = (junction_target(ds, f.collects()[b])->0).0;
    let before = junction_field_paths(ds, s, f, n - 1);
    let now = junction_field_paths(ds, s, f, n);
    if b < n - 1 {
        lemma_junction_field_path(ds, s, f, b, n - 1);
        let a = choose|a: int| 0 <= a < before.len() && before[a] == path;
        assert(now[a] == path);
    } else if before.contains(path) {
    } else {
        assert(now[before.len() as int] == path);
    }
}

proof fn lemma_junction_path(ds: SyntheticDatasetModel, i: int, b: int, n: int)
    requires
        0 <= i < n <= ds.data.len(),
        0 <= b < ds.data[i].collects().len(),
        junction_target(ds, ds.data[i].collects()[b]) is Some,
    ensures
        junction_paths(ds, n).contains((junction_target(ds, ds.data[i].collects()[b])->0).0),
    decreases n,
{
    let f = ds.data[n - 1];
    let before = junction_paths(ds, n - 1);
    if i < n - 1 {
        lemma_junction_path(ds, i, b, n - 1);
        lemma_junction_path_kept(
            ds,
            before,
            f,
            f.collects().len() as int,
            (junction_target(ds, ds.data[i].collects()[b])->0).0,
        );
    } else {
        lemma_junction_field_path(ds, before, f, b, f.collects().len() as int);
    }
}

proof fn lemma_emitted(all: Seq<DatasetEntryModel>, paths: Seq<Seq<char>>, n: int, a: int, t: int)
    requires
        0 <= a < n <= paths.len(),
        dataset_position(all, paths[a], 0) == Some(t),
    ensures
        emits(all, paths, n).contains(
            StepModel::EmitDataset { path: paths[a], dataset: all[t].dataset },
        ),
    decreases n,
{
    let s = StepModel::EmitDataset { path: paths[a], dataset: all[t].dataset };
    let before = emits(all, paths, n - 1);
    let here = emit_steps(all, paths[n - 1]);
    if a < n - 1 {
        lemma_emitted(all, paths, n - 1, a, t);
        lemma_left(before, here, s);
    } else {
        assert(here[0] == s);
        assert(here.contains(s));
        lemma_right(before, here, s);
    }
}

/// A dataset whose writing is put off because another one gathers values in it is written behind
/// that gathering.
pub proof fn law_gathered_datasets_are_written(
    all: Seq<DatasetEntryModel>,
    ds: SyntheticDatasetModel,
    path: Seq<char>,
    i: int,
    b: int,
    l: int,
    column: Seq<char>,
    t: int,
)
    requires
        gathers_through(ds, i, b, l, column),
        0 <= t < all.len(),
        ds.links[l].resolved == Some(all[t].path),
        forall|j: int| 0 <= j < t ==> (#[trigger] all[j]).path != all[t].path,
    ensures
        collect_steps(all, ds, path).contains(
            StepModel::EmitDataset { path: all[t].path, dataset: all[t].dataset },
        ),
{
    let n = ds.data.len() as int;
    let paths = junction_paths(ds, n);
    lemma_link_found(ds.links, ds.links[l].reference, l, 0);
    lemma_junction_path(ds, i, b, n);
    let a = choose|a: int| 0 <= a < paths.len() && paths[a] == all[t].path;
    lemma_dataset_found(all, t, 0);
    lemma_emitted(all, paths, paths.len() as int, a, t);
    lemma_right(
        junction_steps(all, ds, path, n),
        emits(all, paths, paths.len() as int),
        StepModel::EmitDataset { path: all[t].path, dataset: all[t].dataset },
    );
}

// ---------------------------------------------------------------------------
// Columns that children hand up
// ---------------------------------------------------------------------------

proof fn lemma_handed_up(e: DatasetEntryModel, reference: Seq<char>, n: int, x: InheritedModel)
    requires
        0 <= n <= e.dataset.data.len(),
    ensures
        handed_up(e, reference, n).contains(x) <==> x.from_path == e.path && exists|f: int|
            0 <= f < n && (#[trigger] e.dataset.data[f]).name == x.from_column
                && e.dataset.data[f].type_ref() is Some && ref_parts(
                e.dataset.data[f].type_ref()->0,
            ) == Some((reference, x.into_column)),
    decreases n,
{
    if n > 0 {
        lemma_handed_up(e, reference, n - 1, x);
        let before = handed_up(e, reference, n - 1);
        let now = handed_up(e, reference, n);
        let f = e.dataset.data[n - 1];
        if before.contains(x) {
            let a = choose|a: int| 0 <= a < before.len() && before[a] == x;
            assert(now[a] == x);
        }
        if now.len() > before.len() {
            assert(now.last() == now[before.len() as int]);
            if x == now.last() {
                assert(now.contains(x));
                assert(e.dataset.data[n - 1].name == x.from_column);
            } else if now.contains(x) {
                let a = choose|a: int| 0 <= a < now.len() && now[a] == x;
                assert(before[a] == x);
            }
        }
    } else {
        assert(handed_up(e, reference, n).len() == 0);
    }
}

/// A dataset takes over exactly the columns that children outside its lower cover narrow: those of
/// their fields that refer to it by the name that their include gives it.
pub proof fn law_children_hand_up_what_they_narrow(
    all: Seq<DatasetEntryModel>,
    covered: Seq<Seq<char>>,
    path: Seq<char>,
    n: int,
    x: InheritedModel,
)
    requires
        0 <= n <= all.len(),
    ensures
        inherited_at(all, covered, path, n).contains(x) <==> exists|c: int|
            {
                &&& 0 <= c < n
                &&& (#[trigger] all[c]).path == x.from_path
                &&& all[c].dataset.include_spec is Some
                &&& all[c].dataset.include_spec->0.resolved == Some(path)
                &&& !covered.contains(all[c].path)
                &&& exists|f: int|
                    0 <= f < all[c].dataset.data.len() && (#[trigger] all[c].dataset.data[f]).name
                        == x.from_column && all[c].dataset.data[f].type_ref() is Some && ref_parts(
                        all[c].dataset.data[f].type_ref()->0,
                    ) == Some((all[c].dataset.include_spec->0.reference, x.into_column))
            },
    decreases n,
{
    if n > 0 {
        law_children_hand_up_what_they_narrow(all, covered, path, n - 1, x);
        let before = inherited_at(all, covered, path, n - 1);
        let e = all[n - 1];
        if let Some(inc) = e.dataset.include_spec {
            if !covered.contains(e.path) && inc.resolved == Some(path) {
                let here = handed_up(e, inc.reference, e.dataset.data.len() as int);
                lemma_handed_up(e, inc.reference, e.dataset.data.len() as int, x);
                if before.contains(x) {
                    lemma_left(before, here, x);
                }
                if here.contains(x) {
                    lemma_right(before, here, x);
                    assert(all[n - 1].path == x.from_path);
                }
                if (before + here).contains(x) {
                    lemma_either(before, here, x);
                }
            }
        }
    } else {
        assert(inherited_at(all, covered, path, n).len() == 0);
    }
}

// ---------------------------------------------------------------------------
// Draws without replacement
// ---------------------------------------------------------------------------

/// The bound of a count is the most that it can give; only a normal count has none.
pub proof fn law_counts_keep_their_bound(c: CountSpec, rounded: i64, count: usize)
    requires
        count_fits(c, rounded, count),
    ensures
        count_bound(c) is Some ==> count <= count_bound(c)->0,
        count_bound(c) is None <==> c is Normal,
{
}

/// A link never draws from more rows than its dataset has, from all of them where it has no ratio,
/// and from one at least where there is one.
pub proof fn law_pools_lie_in_the_linked_dataset(
    all: Seq<DatasetEntryModel>,
    rows: Seq<usize>,
    link: IncludeModel,
    scaled: usize,
    t: int,
)
    requires
        0 <= t < all.len(),
        forall|j: int| 0 <= j < t ==> (#[trigger] all[j]).path != all[t].path,
        link.resolved == Some(all[t].path),
    ensures
        pool_size(all, rows, link, scaled) <= rows[t],
        link.ratio is None ==> pool_size(all, rows, link, scaled) == rows[t],
        rows[t] > 0 ==> pool_size(all, rows, link, scaled) > 0,
        link.ratio is Some && 0 < scaled <= rows[t] ==> pool_size(all, rows, link, scaled) == scaled,
{
    lemma_dataset_found(all, t, 0);
}

proof fn lemma_no_list_problem(
    all: Seq<DatasetEntryModel>,
    rows: Seq<usize>,
    scaled: Seq<usize>,
    ds: SyntheticDatasetModel,
    from: int,
    i: int,
)
    requires
        0 <= from <= i < ds.data.len(),
        list_draw_problems(all, rows, scaled, ds, from) is None,
    ensures
        list_draw_problem(all, rows, scaled, ds, ds.data[i]) is None,
    decreases i - from,
{
    if from < i {
        lemma_no_list_problem(all, rows, scaled, ds, from + 1, i);
    }
}

proof fn lemma_no_junction_problem(
    all: Seq<DatasetEntryModel>,
    rows: Seq<usize>,
    scaled: Seq<usize>,
    d: int,
    from: int,
    l: int,
)
    requires
        0 <= from <= l < all[d].dataset.links.len(),
        junction_problems(all, rows, scaled, d, from) is None,
    ensures
        junction_problem(all, rows, scaled, d, l) is None,
    decreases l - from,
{
    if from < l {
        lemma_no_junction_problem(all, rows, scaled, d, from + 1, l);
    }
}

proof fn lemma_no_draw_problem(
    all: Seq<DatasetEntryModel>,
    rows: Seq<usize>,
    scaled: Seq<Vec<usize>>,
    from: int,
    d: int,
)
    requires
        0 <= from <= d < all.len(),
        draw_problem(all, rows, scaled, from) is None,
    ensures
        list_draw_problems(all, rows, scaled[d]@, all[d].dataset, 0) is None,
        junction_problems(all, rows, scaled[d]@, d, 0) is None,
    decreases d - from,
{
    if from < d {
        lemma_no_draw_problem(all, rows, scaled, from + 1, d);
    }
}

/// Where a plan can be made, a list that is drawn without replacement never asks for more items
/// than there are rows to draw from: whatever count its link gives fits the pool.
pub proof fn law_planned_lists_fit_their_pool(
    all: Seq<DatasetEntryModel>,
    rows: Seq<usize>,
    scaled: Seq<Vec<usize>>,
    d: int,
    i: int,
    l: int,
    rounded: i64,
    count: usize,
)
    requires
        plan_problem(all, rows, scaled) is None,
        0 <= d < all.len(),
        draws_from(all[d].dataset, i, l),
        all[d].dataset.links[l].reinforcement is Some,
        all[d].dataset.links[l].reinforcement->0.key == 0,
        all[d].dataset.links[l].cardinality is Some ==> count_fits(
            all[d].dataset.links[l].cardinality->0,
            rounded,
            count,
        ),
        all[d].dataset.links[l].cardinality is None ==> count == 1,
    ensures
        count <= pool_size(all, rows, all[d].dataset.links[l], scaled[d]@[l]),
{
    let ds = all[d].dataset;
    lemma_no_draw_problem(all, rows, scaled, 0, d);
    lemma_no_list_problem(all, rows, scaled[d]@, ds, 0, i);
    lemma_link_found(ds.links, ds.data[i].content->0.from->0, l, 0);
}

/// Where a plan can be made, a junction that draws without replacement has no more rows than there
/// are to draw.
pub proof fn law_planned_junctions_fit_their_pool(
    all: Seq<DatasetEntryModel>,
    rows: Seq<usize>,
    scaled: Seq<Vec<usize>>,
    d: int,
    l: int,
)
    requires
        plan_problem(all, rows, scaled) is None,
        0 <= d < all.len(),
        0 <= l < all[d].dataset.links.len(),
        !crate::models::feeds_list(all[d].dataset.data, all[d].dataset.links[l].reference),
        all[d].dataset.links[l].reinforcement is Some,
        all[d].dataset.links[l].reinforcement->0.key == 0,
        all[d].dataset.links[l].resolved is Some,
    ensures
        rows[d] <= pool_size(all, rows, all[d].dataset.links[l], scaled[d]@[l]),
{
    lemma_no_draw_problem(all, rows, scaled, 0, d);
    lemma_no_junction_problem(all, rows, scaled[d]@, d, 0, l);
}

/// A list that is not drawn without replacement is never refused for the size of its pool.
pub proof fn law_other_lists_are_not_refused(
    all: Seq<DatasetEntryModel>,
    rows: Seq<usize>,
    scaled: Seq<usize>,
    ds: SyntheticDatasetModel,
    i: int,
    l: int,
)
    requires
        draws_from(ds, i, l),
        ds.links[l].reinforcement is None || ds.links[l].reinforcement->0.key != 0,
    ensures
        list_draw_problem(all, rows, scaled, ds, ds.data[i]) is None,
{
    lemma_link_found(ds.links, ds.data[i].content->0.from->0, l, 0);
}

// ---------------------------------------------------------------------------
// What a plan refuses
// ---------------------------------------------------------------------------

/// Where no draw is refused, none of any dataset is: neither that of a list nor that of a junction.
pub proof fn law_every_draw_is_feasible(
    all: Seq<DatasetEntryModel>,
    rows: Seq<usize>,
    scaled: Seq<Vec<usize>>,
    from: int,
    d: int,
    i: int,
    l: int,
)
    requires
        0 <= from <= d < all.len(),
        draw_problem(all, rows, scaled, from) is None,
    ensures
        0 <= i < all[d].dataset.data.len() ==> list_draw_problem(
            all,
            rows,
            scaled[d]@,
            all[d].dataset,
            all[d].dataset.data[i],
        ) is None,
        0 <= l < all[d].dataset.links.len() ==> junction_problem(
            all,
            rows,
            scaled[d]@,
            d,
            l,
        ) is None,
    decreases d - from,
{
    if from < d {
        law_every_draw_is_feasible(all, rows, scaled, from + 1, d, i, l);
    } else {
        if 0 <= i < all[d].dataset.data.len() {
            lemma_no_list_problem(all, rows, scaled[d]@, all[d].dataset, 0, i);
        }
        if 0 <= l < all[d].dataset.links.len() {
            lemma_no_junction_problem(all, rows, scaled[d]@, d, 0, l);
        }
    }
}

/// A dataset that writes nowhere writes under its own name, and one that writes somewhere is left
/// alone.
pub proof fn law_datasets_write_under_their_name(ds: SyntheticDatasetModel, name: Seq<char>)
    ensures
        ds.outputs.len() == 0 && ds.output is None ==> {
            let r = crate::plan::with_default_output(ds, name);
            &&& r.all_outputs().len() == 1
            &&& r.all_outputs()[0].file == name
            &&& r.all_outputs()[0].quality is None
            &&& ds == (SyntheticDatasetModel { output: ds.output, ..r })
        },
        ds.outputs.len() > 0 || ds.output is Some ==> crate::plan::with_default_output(ds, name)
            == ds,
{
}

/// A binding gathers in the dataset that its link leads to.
pub proof fn law_bindings_gather_in_the_linked_dataset(
    ds: SyntheticDatasetModel,
    b: RefBindingModel,
    name: Seq<char>,
    column: Seq<char>,
    l: int,
)
    requires
        !name.contains('.'),
        b.bind == Some(name + seq!['.'] + column),
    ensures
        first_link(ds.links, name, l) ==> crate::plan::bind_target(ds, b) == ds.links[l].resolved,
        (forall|j: int| 0 <= j < ds.links.len() ==> (#[trigger] ds.links[j]).reference != name)
            ==> crate::plan::bind_target(ds, b) is None,
{
    crate::models::law_joined_ref_splits(name, column);
    lemma_position_of_link(ds.links, name, 0);
}

proof fn lemma_position_of_link(links: Seq<IncludeModel>, reference: Seq<char>, from: int)
    requires
        0 <= from <= links.len(),
    ensures
        match link_position(links, reference, from) {
            Some(p) => from <= p < links.len() && links[p].reference == reference && forall|j: int|
                from <= j < p ==> (#[trigger] links[j]).reference != reference,
            None => forall|j: int|
                from <= j < links.len() ==> (#[trigger] links[j]).reference != reference,
        },
    decreases links.len() - from,
{
    if from < links.len() {
        lemma_position_of_link(links, reference, from + 1);
    }
}

/// A list whose items gather values in a dataset that others narrow.
pub open spec fn gathers_in_a_parent(
    all: Seq<DatasetEntryModel>,
    ds: SyntheticDatasetModel,
    i: int,
    l: int,
    t: int,
) -> bool {
    &&& draws_from(ds, i, l)
    &&& exists|k: int|
        0 <= k < ds.data[i].content->0.item.fields.len() && (
        #[trigger] ds.data[i].content->0.item.fields[k]).collects().len() > 0
    &&& dataset_position(all, ds.links[l].resolved->0, 0) == Some(t)
    &&& exists|m: int|
        0 <= m < crate::cover::group(all, t).len() && !(#[trigger] crate::cover::group(
            all,
            t,
        )[m]).is_witness_source
}

proof fn lemma_collect_in(
    all: Seq<DatasetEntryModel>,
    ds: SyntheticDatasetModel,
    from: int,
    i: int,
)
    requires
        0 <= from <= i < ds.data.len(),
        crate::plan::collect_problem_in(all, ds, from) is None,
    ensures
        !crate::plan::collect_conflict(all, ds, ds.data[i]),
    decreases i - from,
{
    if from < i {
        lemma_collect_in(all, ds, from + 1, i);
    }
}

/// Values are never gathered from list items in a dataset that another one narrows: such datasets
/// are refused.
pub proof fn law_gathering_in_parents_is_refused(
    all: Seq<DatasetEntryModel>,
    from: int,
    d: int,
    i: int,
    l: int,
    t: int,
)
    requires
        0 <= from <= d < all.len(),
        gathers_in_a_parent(all, all[d].dataset, i, l, t),
    ensures
        collect_problem(all, from) is Some,
    decreases d - from,
{
    if from < d {
        law_gathering_in_parents_is_refused(all, from + 1, d, i, l, t);
    } else {
        let ds = all[d].dataset;
        lemma_position_of_link(ds.links, ds.data[i].content->0.from->0, 0);
        assert(crate::plan::collect_conflict(all, ds, ds.data[i]));
        if crate::plan::collect_problem_in(all, ds, 0) is None {
            lemma_collect_in(all, ds, 0, i);
        }
    }
}

/// A gathering step groups by the drawn row and folds with the declared reducer; without one it
/// collects.
pub proof fn law_gathering_folds_with_the_declared_reducer(
    all: Seq<DatasetEntryModel>,
    source: Seq<char>,
    column: Seq<char>,
    linked: Seq<char>,
    linked_column: Seq<char>,
    reducer: Option<Reducer>,
)
    ensures
        ({
            let s = crate::plan::accumulate(
                all,
                source,
                column,
                linked,
                linked_column,
                reducer,
            );
            &&& s is AccumulateToLinked
            &&& s->source_path == source
            &&& s->source_field == column
            &&& s->AccumulateToLinked_linked_path == linked
            &&& s->linked_field == linked_column
            &&& s->group_by == "_linked_idx"@
            &&& reducer is Some ==> Some(s->reducer) == reducer
            &&& reducer is None ==> s->reducer == Reducer::Collect
        }),
{
}

} // verus!
