//! What the rewriting of datasets promises: locales, copied fields, resolved references, pulled
//! down columns and rescaled lists.
use vstd::prelude::*;

use crate::column_laws::occurs_in;
use crate::constraints::{
    constraints_of, field_allows, law_constraints_are_those_written,
    law_merge_allows_what_both_allow, merged,
};
use crate::expressions::{
    begins_name, continues_name, first_computed, hidden_column, lemma_name_end, name_end,
    names_from, needed_columns, parent_with_field, with_name, with_names, with_needed_columns,
};
use crate::list_norm::{
    desugared, even_part, field_args, normalize_call, precision_argument, signed_text, source_name,
    tail_of, whole_output, ScalarArg,
};
use crate::models::{
    dataset_position, field_position, law_joined_ref_splits, link_position, list_source,
    DatasetEntryModel, FieldModel, IncludeModel, ListContentModel, Locale, NormalizeModel,
    RefsSpecModel, SyntheticDatasetModel, YamlModel,
};
use crate::rewrite::{
    base_field, chain_step, copied_fields, excluded, expanded_by_link, expanded_by_links,
    expanded_data, expanded_items, localised, merged_field, named_reference, resolved_data,
    resolved_datasets, resolved_field, resolved_item, resolved_items, resolved_whole, stamped,
    target_fields, Expansion,
};

verus! {

// ---------------------------------------------------------------------------
// Positions
// ---------------------------------------------------------------------------

/// Some field has the name.
pub open spec fn has_field(s: Seq<FieldModel>, name: Seq<char>) -> bool {
    exists|i: int| 0 <= i < s.len() && (#[trigger] s[i]).name == name
}

/// The first field of its name.
pub open spec fn is_first_field(s: Seq<FieldModel>, i: int) -> bool {
    &&& 0 <= i < s.len()
    &&& forall|j: int| 0 <= j < i ==> (#[trigger] s[j]).name != s[i].name
}

proof fn lemma_position(s: Seq<FieldModel>, name: Seq<char>, from: int)
    requires
        0 <= from <= s.len(),
    ensures
        match field_position(s, name, from) {
            Some(p) => from <= p < s.len() && s[p].name == name && forall|j: int|
                from <= j < p ==> (#[trigger] s[j]).name != name,
            None => forall|j: int| from <= j < s.len() ==> (#[trigger] s[j]).name != name,
        },
    decreases s.len() - from,
{
    if from < s.len() {
        lemma_position(s, name, from + 1);
    }
}

/// The first dataset of its path.
pub open spec fn is_first_dataset(all: Seq<DatasetEntryModel>, t: int) -> bool {
    &&& 0 <= t < all.len()
    &&& forall|j: int| 0 <= j < t ==> (#[trigger] all[j]).path != all[t].path
}

proof fn lemma_dataset(all: Seq<DatasetEntryModel>, path: Seq<char>, from: int)
    requires
        0 <= from <= all.len(),
    ensures
        match dataset_position(all, path, from) {
            Some(p) => from <= p < all.len() && all[p].path == path && forall|j: int|
                from <= j < p ==> (#[trigger] all[j]).path != path,
            None => forall|j: int| from <= j < all.len() ==> (#[trigger] all[j]).path != path,
        },
    decreases all.len() - from,
{
    if from < all.len() {
        lemma_dataset(all, path, from + 1);
    }
}

proof fn lemma_link(links: Seq<IncludeModel>, reference: Seq<char>, from: int)
    requires
        0 <= from <= links.len(),
    ensures
        match link_position(links, reference, from) {
            Some(p) => from <= p < links.len() && links[p].reference == reference && forall|j: int|
                from <= j < p ==> (#[trigger] links[j]).reference != reference,
            None => forall|j: int|
                from <= j < links.len() ==> (#[trigger] links[j]).reference != reference,
        },
    decreases links.len() - from,
{
    if from < links.len() {
        lemma_link(links, reference, from + 1);
    }
}

// ---------------------------------------------------------------------------
// Locales
// ---------------------------------------------------------------------------

/// The locale is stamped on a field exactly where its generator depends on one and none is set, on
/// everything inside it by the same rule, and changes nothing else.
pub proof fn law_locales_are_stamped_where_needed(f: FieldModel, g: Locale, i: int)
    ensures
        f.locale is None && f.generator is Some && f.generator->0.is_localised() ==> stamped(
            f,
            g,
        ).locale == Some(g),
        f.generator is None || !f.generator->0.is_localised() ==> stamped(f, g).locale == f.locale,
        stamped(f, g).fields.len() == f.fields.len(),
        0 <= i < f.fields.len() ==> stamped(f, g).fields[i] == stamped(f.fields[i], g),
        f.content is Some ==> stamped(f, g).content is Some && stamped(f, g).content->0.item
            == stamped(f.content->0.item, g) && stamped(f, g).content->0.from == f.content->0.from
            && stamped(f, g).content->0.project == f.content->0.project,
        f.content is None ==> stamped(f, g).content is None,
        f == (FieldModel {
            locale: f.locale,
            fields: f.fields,
            content: f.content,
            ..stamped(f, g)
        }),
{
    reveal_with_fuel(stamped, 3);
    reveal_with_fuel(crate::rewrite::stamped_all, 3);
}

/// A dataset stamps its own locale on its fields, and one without a locale stays.
pub proof fn law_datasets_stamp_their_locale(e: DatasetEntryModel, i: int)
    ensures
        e.dataset.locale is None ==> localised(e) == e,
        e.dataset.locale is Some ==> localised(e).dataset.data.len() == e.dataset.data.len(),
        e.dataset.locale is Some && 0 <= i < e.dataset.data.len() ==> localised(e).dataset.data[i]
            == stamped(e.dataset.data[i], e.dataset.locale->0),
        localised(e).path == e.path,
        e.dataset == (SyntheticDatasetModel { data: e.dataset.data, ..localised(e).dataset }),
{
}

// ---------------------------------------------------------------------------
// Copied fields
// ---------------------------------------------------------------------------

/// A field that refers to the field of its name in the dataset of the reference.
pub open spec fn refers_by_name(f: FieldModel, reference: Seq<char>) -> bool {
    &&& f.refs == Some(RefsSpecModel::Single(reference + "."@ + f.name))
    &&& f.expression is None
    &&& f.content is None
    &&& f.value is None
    &&& f.one_of is None
    &&& f.range is None
    &&& f.generator is None
    &&& f.variants.len() == 0
    &&& !f.hidden
}

/// What an expansion may copy: references to target fields that are neither excluded nor there
/// already, each once.
pub open spec fn sound_copy(x: Expansion, out: Seq<FieldModel>) -> bool {
    &&& forall|i: int|
        0 <= i < out.len() ==> refers_by_name(#[trigger] out[i], x.reference) && has_field(
            x.target,
            out[i].name,
        ) && !x.exclude.contains(out[i].name) && !has_field(x.existing, out[i].name)
    &&& forall|i: int, j: int|
        0 <= i < j < out.len() ==> (#[trigger] out[i]).name != (#[trigger] out[j]).name
}

proof fn lemma_new(x: Expansion, out: Seq<FieldModel>, name: Seq<char>)
    ensures
        x.is_new(out, name) <==> !x.exclude.contains(name) && !has_field(x.existing, name)
            && !has_field(out, name),
{
    lemma_position(x.existing, name, 0);
    lemma_position(out, name, 0);
}

proof fn lemma_push_copy(x: Expansion, out: Seq<FieldModel>, name: Seq<char>)
    requires
        sound_copy(x, out),
        x.is_new(out, name),
        has_field(x.target, name),
    ensures
        sound_copy(x, out.push(crate::rewrite::ref_field(name, x.reference))),
{
    lemma_new(x, out, name);
    let now = out.push(crate::rewrite::ref_field(name, x.reference));
    assert forall|i: int, j: int| 0 <= i < j < now.len() implies (#[trigger] now[i]).name != (
    #[trigger] now[j]).name by {
        if j == out.len() {
            assert(out[i].name != name);
        }
    }
}

proof fn lemma_star(x: Expansion, out: Seq<FieldModel>, n: int)
    requires
        0 <= n <= x.target.len(),
        sound_copy(x, out),
    ensures
        sound_copy(x, x.star(out, n)),
        forall|name: Seq<char>| has_field(out, name) ==> #[trigger] has_field(x.star(out, n), name),
        forall|t: int|
            0 <= t < n && !(#[trigger] x.target[t]).imported_taint && !x.exclude.contains(
                x.target[t].name,
            ) && !has_field(x.existing, x.target[t].name) ==> has_field(
                x.star(out, n),
                x.target[t].name,
            ),
    decreases n,
{
    if n > 0 {
        lemma_star(x, out, n - 1);
        let before = x.star(out, n - 1);
        let now = x.star(out, n);
        let t = x.target[n - 1];
        lemma_new(x, before, t.name);
        if !t.imported_taint && x.is_new(before, t.name) {
            assert(has_field(x.target, t.name)) by {
                assert(x.target[n - 1].name == t.name);
            }
            lemma_push_copy(x, before, t.name);
            assert(now[before.len() as int].name == t.name);
        }
        assert forall|name: Seq<char>| has_field(before, name) implies #[trigger] has_field(
            now,
            name,
        ) by {
            let i = choose|i: int| 0 <= i < before.len() && (#[trigger] before[i]).name == name;
            assert(now[i].name == name);
        }
    }
}

proof fn lemma_copied(x: Expansion, patterns: Seq<Seq<char>>, n: int)
    requires
        0 <= n <= patterns.len(),
    ensures
        sound_copy(x, x.copied(patterns, n)),
        forall|k: int, t: int|
            0 <= k < n && 0 <= t < x.target.len() && (#[trigger] patterns[k] == (
            #[trigger] x.target[t]).name || (patterns[k] == "*"@ && !x.target[t].imported_taint))
                && patterns[k] != "*"@ && !x.exclude.contains(x.target[t].name) && !has_field(
                x.existing,
                x.target[t].name,
            ) ==> has_field(x.copied(patterns, n), x.target[t].name),
        forall|k: int, t: int|
            0 <= k < n && 0 <= t < x.target.len() && #[trigger] patterns[k] == "*"@ && !(
            #[trigger] x.target[t]).imported_taint && !x.exclude.contains(x.target[t].name)
                && !has_field(x.existing, x.target[t].name) ==> has_field(
                x.copied(patterns, n),
                x.target[t].name,
            ),
    decreases n,
{
    if n > 0 {
        lemma_copied(x, patterns, n - 1);
        let before = x.copied(patterns, n - 1);
        let now = x.copied(patterns, n);
        let p = patterns[n - 1];
        if p == "*"@ {
            lemma_star(x, before, x.target.len() as int);
        } else {
            lemma_new(x, before, p);
            lemma_position(x.target, p, 0);
            if x.is_new(before, p) && field_position(x.target, p, 0) is Some {
                let t = field_position(x.target, p, 0)->0;
                assert(x.target[t].name == p);
                lemma_push_copy(x, before, p);
                assert(now[before.len() as int].name == p);
            }
            assert forall|name: Seq<char>| has_field(before, name) implies #[trigger] has_field(
                now,
                name,
            ) by {
                let i = choose|i: int| 0 <= i < before.len() && (#[trigger] before[i]).name == name;
                assert(now[i].name == name);
            }
        }
        assert forall|k: int, t: int|
            0 <= k < n && 0 <= t < x.target.len() && (#[trigger] patterns[k] == (
            #[trigger] x.target[t]).name || (patterns[k] == "*"@ && !x.target[t].imported_taint))
                && patterns[k] != "*"@ && !x.exclude.contains(x.target[t].name) && !has_field(
                x.existing,
                x.target[t].name,
            ) implies has_field(now, x.target[t].name) by {
            if k < n - 1 {
                assert(has_field(before, x.target[t].name));
            }
        }
    }
}

/// A field of the target is copied where a pattern names it, or all fields and it is not imported,
/// unless it is excluded or declared already.
pub proof fn law_named_fields_are_copied(
    inc: IncludeModel,
    target: Seq<FieldModel>,
    existing: Seq<FieldModel>,
    k: int,
    t: int,
)
    requires
        0 <= k < inc.fields.len(),
        0 <= t < target.len(),
        inc.exclude is Some ==> !inc.exclude->0.contains(target[t].name),
        !has_field(existing, target[t].name),
        (inc.fields[k] != "*"@ && inc.fields[k] == target[t].name) || (inc.fields[k] == "*"@
            && !target[t].imported_taint),
    ensures
        has_field(copied_fields(inc, target, existing), target[t].name),
{
    let x = Expansion { exclude: excluded(inc), target, reference: inc.reference, existing };
    lemma_copied(x, inc.fields, inc.fields.len() as int);
    assert(inc.fields[k] == inc.fields[k] && x.target[t] == target[t]);
    assert(!x.exclude.contains(target[t].name));
}

/// Nothing else is copied: every copied field refers to a field of the target of its name, which
/// is neither excluded nor declared already, and none comes twice.
pub proof fn law_copies_refer_to_their_target(
    inc: IncludeModel,
    target: Seq<FieldModel>,
    existing: Seq<FieldModel>,
    i: int,
    j: int,
)
    requires
        0 <= i < copied_fields(inc, target, existing).len(),
    ensures
        ({
            let r = copied_fields(inc, target, existing);
            &&& refers_by_name(r[i], inc.reference)
            &&& has_field(target, r[i].name)
            &&& inc.exclude is Some ==> !inc.exclude->0.contains(r[i].name)
            &&& !has_field(existing, r[i].name)
            &&& i < j < r.len() ==> r[i].name != r[j].name
        }),
{
    let x = Expansion { exclude: excluded(inc), target, reference: inc.reference, existing };
    lemma_copied(x, inc.fields, inc.fields.len() as int);
}

/// Without fields to copy, neither an include nor a link changes a dataset.
pub proof fn law_plain_includes_copy_nothing(
    all: Seq<DatasetEntryModel>,
    ds: SyntheticDatasetModel,
)
    requires
        ds.include_spec is Some ==> ds.include_spec->0.fields.len() == 0,
        ds.links.len() == 0,
    ensures
        expanded_data(all, ds) == ds.data,
{
}

/// A dataset keeps its declared fields, behind those that its include copies; lists only change
/// their items.
pub proof fn law_declared_fields_stay(
    all: Seq<DatasetEntryModel>,
    ds: SyntheticDatasetModel,
    i: int,
)
    requires
        0 <= i < ds.data.len(),
    ensures
        ({
            let r = expanded_data(all, ds);
            let k = r.len() - ds.data.len();
            &&& k >= 0
            &&& r[k + i].name == ds.data[i].name
            &&& list_source(ds.data[i]) is None ==> r[k + i] == ds.data[i]
        }),
{
    let own = match ds.include_spec {
        Some(inc) => if inc.fields.len() > 0 {
            match target_fields(all, inc) {
                Some(t) => copied_fields(inc, t, ds.data) + ds.data,
                None => ds.data,
            }
        } else {
            ds.data
        },
        None => ds.data,
    };
    let k = own.len() - ds.data.len();
    assert(own[k + i] == ds.data[i]);
    lemma_by_links(all, ds.links, own, ds.links.len() as int, k + i);
}

proof fn lemma_by_links(
    all: Seq<DatasetEntryModel>,
    links: Seq<IncludeModel>,
    fields: Seq<FieldModel>,
    n: int,
    i: int,
)
    requires
        0 <= i < fields.len(),
        0 <= n <= links.len(),
    ensures
        expanded_by_links(all, links, fields, n).len() == fields.len(),
        expanded_by_links(all, links, fields, n)[i].name == fields[i].name,
        list_source(expanded_by_links(all, links, fields, n)[i]) == list_source(fields[i]),
        list_source(fields[i]) is None ==> expanded_by_links(all, links, fields, n)[i] == fields[i],
    decreases n,
{
    if n > 0 {
        lemma_by_links(all, links, fields, n - 1, i);
    }
}

/// A list whose content is a bare projection holds one item field: a reference to the projected
/// column of the link, under its name. Declared item fields stay, behind what the link copies.
pub proof fn law_projections_become_references(
    all: Seq<DatasetEntryModel>,
    link: IncludeModel,
    c: ListContentModel,
    name: Seq<char>,
    column: Seq<char>,
)
    ensures
        !name.contains('.') && c.project == Some(name + seq!['.'] + column) && c.item.fields.len()
            == 0 ==> expanded_items(all, link, c).len() == 1 && expanded_items(all, link, c)[0].name
            == column && refers_by_name(expanded_items(all, link, c)[0], link.reference),
        c.item.fields.len() > 0 ==> {
            let r = expanded_items(all, link, c);
            let k = r.len() - c.item.fields.len();
            k >= 0 && r.subrange(k, r.len() as int) == c.item.fields
        },
{
    if !name.contains('.') {
        law_joined_ref_splits(name, column);
    }
    let r = expanded_items(all, link, c);
    if c.item.fields.len() > 0 {
        let k = r.len() - c.item.fields.len();
        assert(r.subrange(k, r.len() as int) =~= c.item.fields);
    }
}

/// A list is expanded by the link it draws from and by no other.
pub proof fn law_lists_are_expanded_by_their_link(
    all: Seq<DatasetEntryModel>,
    link: IncludeModel,
    f: FieldModel,
)
    ensures
        f.content is Some && f.content->0.from == Some(link.reference) ==> expanded_by_link(
            all,
            link,
            f,
        ).content->0.item.fields == expanded_items(all, link, *f.content->0),
        f.content is None || f.content->0.from != Some(link.reference) ==> expanded_by_link(
            all,
            link,
            f,
        ) == f,
{
}

// ---------------------------------------------------------------------------
// References
// ---------------------------------------------------------------------------

/// The dataset knows the target dataset by this name: as its include, or by the first link of the
/// name where the include has another.
pub open spec fn knows(
    all: Seq<DatasetEntryModel>,
    ds: SyntheticDatasetModel,
    name: Seq<char>,
    t: int,
) -> bool {
    &&& is_first_dataset(all, t)
    &&& ({
        ||| ds.include_spec is Some && ds.include_spec->0.reference == name
            && ds.include_spec->0.resolved == Some(all[t].path)
        ||| (ds.include_spec is Some ==> ds.include_spec->0.reference != name) && exists|l: int|
            0 <= l < ds.links.len() && (#[trigger] ds.links[l]).reference == name
                && ds.links[l].resolved == Some(all[t].path) && forall|j: int|
                0 <= j < l ==> (#[trigger] ds.links[j]).reference != name
    })
}

proof fn lemma_knows(
    all: Seq<DatasetEntryModel>,
    ds: SyntheticDatasetModel,
    name: Seq<char>,
    t: int,
)
    requires
        knows(all, ds, name, t),
    ensures
        named_reference(ds, name) is Some,
        named_reference(ds, name)->0.resolved == Some(all[t].path),
        dataset_position(all, all[t].path, 0) == Some(t),
{
    lemma_dataset(all, all[t].path, 0);
    lemma_link(ds.links, name, 0);
}

/// A reference `name.column` to a field that refers to nothing itself gives the referring field
/// the type and the structure of that field; it keeps its own name, visibility and expression. It
/// may hold exactly the values that both fields allow.
pub proof fn law_references_take_over_their_target(
    all: Seq<DatasetEntryModel>,
    ds: SyntheticDatasetModel,
    f: FieldModel,
    name: Seq<char>,
    t: int,
    c: int,
    v: YamlModel,
)
    requires
        !name.contains('.'),
        knows(all, ds, name, t),
        is_first_field(all[t].dataset.data, c),
        all[t].dataset.data[c].refs is None,
        all[t].dataset.data[c].expression is None,
        constraints_of(f).coherent(),
        constraints_of(all[t].dataset.data[c]).coherent(),
        resolved_field(all, ds, f, name + seq!['.'] + all[t].dataset.data[c].name) is Ok,
    ensures
        ({
            let base = all[t].dataset.data[c];
            let g = resolved_field(all, ds, f, name + seq!['.'] + base.name)->Ok_0;
            &&& g.name == f.name
            &&& g.hidden == f.hidden
            &&& g.expression == f.expression
            &&& g.field_type == base.field_type
            &&& g.fields == base.fields
            &&& g.content == base.content
            &&& f.variants.len() == 0 ==> g.variants == base.variants
            &&& f.variants.len() > 0 ==> g.variants == f.variants
            &&& g.constrain_cases == f.constrain_cases
            &&& g.constraint_bearing == f.constraint_bearing
            &&& field_allows(g, v) <==> field_allows(f, v) && field_allows(base, v)
        }),
{
    let base = all[t].dataset.data[c];
    law_joined_ref_splits(name, base.name);
    lemma_knows(all, ds, name, t);
    lemma_position(all[t].dataset.data, base.name, 0);
    lemma_merged_allows(f, base, v);
}

proof fn lemma_merged_allows(f: FieldModel, base: FieldModel, v: YamlModel)
    requires
        constraints_of(f).coherent(),
        constraints_of(base).coherent(),
    ensures
        merged(constraints_of(f), constraints_of(base)) is Some ==> (field_allows(
            merged_field(f.name, f, base, merged(constraints_of(f), constraints_of(base))->0),
            v,
        ) <==> field_allows(f, v) && field_allows(base, v)),
{
    if merged(constraints_of(f), constraints_of(base)) is Some {
        law_constraints_are_those_written(f, v);
        law_constraints_are_those_written(base, v);
        law_merge_allows_what_both_allow(constraints_of(f), constraints_of(base), v);
    }
}

/// A reference is followed to the end: where the field it leads to refers on, what counts is where
/// that reference leads.
pub proof fn law_references_are_followed(
    all: Seq<DatasetEntryModel>,
    ds: SyntheticDatasetModel,
    f: FieldModel,
    name: Seq<char>,
    t: int,
    c: int,
    depth: int,
)
    requires
        !name.contains('.'),
        knows(all, ds, name, t),
        is_first_field(all[t].dataset.data, c),
        f.refs == Some(RefsSpecModel::Single(name + seq!['.'] + all[t].dataset.data[c].name)),
        0 <= depth <= crate::rewrite::MAX_REF_CHAIN_DEPTH,
    ensures
        base_field(all, ds, f, depth) == base_field(
            all,
            all[t].dataset,
            all[t].dataset.data[c],
            depth + 1,
        ),
{
    let base = all[t].dataset.data[c];
    law_joined_ref_splits(name, base.name);
    lemma_knows(all, ds, name, t);
    lemma_position(all[t].dataset.data, base.name, 0);
}

/// What a chain of references ends at refers to nothing.
pub proof fn law_chains_end_at_a_field_without_reference(
    all: Seq<DatasetEntryModel>,
    ds: SyntheticDatasetModel,
    f: FieldModel,
    depth: int,
)
    requires
        base_field(all, ds, f, depth) is Ok,
    ensures
        base_field(all, ds, f, depth)->Ok_0.type_ref() is None,
        f.refs is None ==> base_field(all, ds, f, depth)->Ok_0 == f,
    decreases crate::rewrite::MAX_REF_CHAIN_DEPTH + 1 - depth,
{
    if depth <= crate::rewrite::MAX_REF_CHAIN_DEPTH {
        if let Some(reference) = f.type_ref() {
            if let Ok((t, c)) = chain_step(all, ds, reference) {
                law_chains_end_at_a_field_without_reference(
                    all,
                    all[t].dataset,
                    all[t].dataset.data[c],
                    depth + 1,
                );
            }
        }
    }
}

/// A reference is refused where its two fields leave no common value, where it leads to a computed
/// field, and where it names what is not there.
pub proof fn law_bad_references_are_refused(
    all: Seq<DatasetEntryModel>,
    ds: SyntheticDatasetModel,
    f: FieldModel,
    name: Seq<char>,
    column: Seq<char>,
    t: int,
)
    requires
        !name.contains('.'),
    ensures
        (ds.include_spec is Some ==> ds.include_spec->0.reference != name) && (forall|l: int|
            0 <= l < ds.links.len() ==> (#[trigger] ds.links[l]).reference != name)
            ==> resolved_field(all, ds, f, name + seq!['.'] + column) is Err,
        knows(all, ds, name, t) && !has_field(all[t].dataset.data, column) ==> resolved_field(
            all,
            ds,
            f,
            name + seq!['.'] + column,
        ) is Err,
        resolved_field(all, ds, f, name) is Err,
{
    law_joined_ref_splits(name, column);
    lemma_link(ds.links, name, 0);
    crate::text::lemma_first_at(name, '.', 0);
    if knows(all, ds, name, t) {
        lemma_knows(all, ds, name, t);
        lemma_position(all[t].dataset.data, column, 0);
    }
}

/// Nothing can be taken over from a computed field.
pub proof fn law_computed_fields_are_not_referred_to(
    all: Seq<DatasetEntryModel>,
    ds: SyntheticDatasetModel,
    f: FieldModel,
    name: Seq<char>,
    t: int,
    c: int,
)
    requires
        !name.contains('.'),
        knows(all, ds, name, t),
        is_first_field(all[t].dataset.data, c),
        all[t].dataset.data[c].refs is None,
        all[t].dataset.data[c].expression is Some,
    ensures
        resolved_field(all, ds, f, name + seq!['.'] + all[t].dataset.data[c].name) is Err,
{
    let base = all[t].dataset.data[c];
    law_joined_ref_splits(name, base.name);
    lemma_knows(all, ds, name, t);
    lemma_position(all[t].dataset.data, base.name, 0);
}

/// An item field that refers to the link takes over the linked field and keeps its reference; any
/// other item field stays.
pub proof fn law_items_take_over_their_target(
    all: Seq<DatasetEntryModel>,
    f: FieldModel,
    link: IncludeModel,
    name: Seq<char>,
    t: int,
    c: int,
    v: YamlModel,
)
    requires
        !name.contains('.'),
        is_first_dataset(all, t),
        link.resolved == Some(all[t].path),
        is_first_field(all[t].dataset.data, c),
        constraints_of(f).coherent(),
        constraints_of(all[t].dataset.data[c]).coherent(),
    ensures
        f.refs is None ==> resolved_item(all, f, link) == Ok::<
            FieldModel,
            Seq<crate::message::PartModel>,
        >(f),
        f.refs == Some(RefsSpecModel::Single(name + seq!['.'] + all[t].dataset.data[c].name))
            && name != link.reference ==> resolved_item(all, f, link) == Ok::<
            FieldModel,
            Seq<crate::message::PartModel>,
        >(f),
        f.refs == Some(RefsSpecModel::Single(name + seq!['.'] + all[t].dataset.data[c].name))
            && name == link.reference && resolved_item(all, f, link) is Ok ==> {
            let base = all[t].dataset.data[c];
            let g = resolved_item(all, f, link)->Ok_0;
            &&& g.name == f.name
            &&& g.refs == f.refs
            &&& g.hidden == f.hidden
            &&& g.field_type == base.field_type
            &&& g.fields == base.fields
            &&& g.content == base.content
            &&& field_allows(g, v) <==> field_allows(f, v) && field_allows(base, v)
        },
{
    let base = all[t].dataset.data[c];
    law_joined_ref_splits(name, base.name);
    lemma_dataset(all, all[t].path, 0);
    lemma_position(all[t].dataset.data, base.name, 0);
    lemma_merged_allows(f, base, v);
}

/// Resolving keeps every dataset and every field at its place, and resolves each on its own.
pub proof fn law_every_field_is_resolved(
    all: Seq<DatasetEntryModel>,
    ds: SyntheticDatasetModel,
    n: int,
    i: int,
)
    requires
        0 <= i < n <= ds.data.len(),
        resolved_data(all, ds, n) is Ok,
    ensures
        resolved_data(all, ds, n)->Ok_0.len() == n,
        resolved_whole(all, ds, ds.data[i]) is Ok,
        resolved_data(all, ds, n)->Ok_0[i] == resolved_whole(all, ds, ds.data[i])->Ok_0,
    decreases n,
{
    if i < n - 1 {
        law_every_field_is_resolved(all, ds, n - 1, i);
    } else if n > 1 {
        law_every_field_is_resolved(all, ds, n - 1, 0);
    } else {
        assert(resolved_data(all, ds, 0)->Ok_0.len() == 0);
    }
}

/// Resolving keeps the datasets, their paths and everything but their fields.
pub proof fn law_every_dataset_is_resolved(all: Seq<DatasetEntryModel>, n: int, i: int)
    requires
        0 <= i < n <= all.len(),
        resolved_datasets(all, n) is Ok,
    ensures
        ({
            let r = resolved_datasets(all, n)->Ok_0;
            let data = resolved_data(all, all[i].dataset, all[i].dataset.data.len() as int);
            &&& r.len() == n
            &&& r[i].path == all[i].path
            &&& data is Ok
            &&& r[i].dataset.data == data->Ok_0
            &&& all[i].dataset == (SyntheticDatasetModel {
                data: all[i].dataset.data,
                ..r[i].dataset
            })
        }),
    decreases n,
{
    if i < n - 1 {
        law_every_dataset_is_resolved(all, n - 1, i);
    } else if n > 1 {
        law_every_dataset_is_resolved(all, n - 1, 0);
    } else {
        assert(resolved_datasets(all, 0)->Ok_0.len() == 0);
    }
}

/// The references themselves stay on the fields, and a field without reference and without linked
/// items stays as it is.
pub proof fn law_references_stay_on_the_fields(
    all: Seq<DatasetEntryModel>,
    ds: SyntheticDatasetModel,
    f: FieldModel,
)
    requires
        resolved_whole(all, ds, f) is Ok,
    ensures
        resolved_whole(all, ds, f)->Ok_0.refs == f.refs,
        resolved_whole(all, ds, f)->Ok_0.name == f.name,
        f.refs is None && list_source(f) is None ==> resolved_whole(all, ds, f)->Ok_0 == f,
{
}

/// All item fields are resolved, each at its place.
pub proof fn law_every_item_is_resolved(
    all: Seq<DatasetEntryModel>,
    items: Seq<FieldModel>,
    link: IncludeModel,
    n: int,
    i: int,
)
    requires
        0 <= i < n <= items.len(),
        resolved_items(all, items, link, n) is Ok,
    ensures
        resolved_items(all, items, link, n)->Ok_0.len() == n,
        resolved_item(all, items[i], link) is Ok,
        resolved_items(all, items, link, n)->Ok_0[i] == resolved_item(all, items[i], link)->Ok_0,
    decreases n,
{
    if i < n - 1 {
        law_every_item_is_resolved(all, items, link, n - 1, i);
    } else if n > 1 {
        law_every_item_is_resolved(all, items, link, n - 1, 0);
    } else {
        assert(resolved_items(all, items, link, 0)->Ok_0.len() == 0);
    }
}

// ---------------------------------------------------------------------------
// Names in expressions
// ---------------------------------------------------------------------------

/// A stretch of name characters that begins like a name and that no name character borders.
pub open spec fn is_word(s: Seq<char>, i: int, e: int) -> bool {
    &&& 0 <= i < e <= s.len()
    &&& begins_name(s[i])
    &&& forall|j: int| i <= j < e ==> continues_name(#[trigger] s[j])
    &&& i > 0 ==> !continues_name(s[i - 1])
    &&& e < s.len() ==> !continues_name(s[e])
}

proof fn lemma_word(s: Seq<char>, from: int, i: int, e: int)
    requires
        is_word(s, i, e),
        0 <= from <= i,
    ensures
        names_from(s, from).contains(s.subrange(i, e)),
    decreases i - from,
{
    let word = s.subrange(i, e);
    let all = names_from(s, from);
    lemma_name_end(s, from);
    if from == i {
        let end = name_end(s, i);
        assert(end == e) by {
            if end < e {
                assert(continues_name(s[end]));
            }
            if e < end {
                assert(continues_name(s[e]));
            }
        }
        assert(all[0] == word);
    } else if begins_name(s[from]) {
        let end = name_end(s, from);
        assert(end < i) by {
            if end >= i {
                assert(continues_name(s[i - 1]));
            }
        }
        lemma_word(s, end, i, e);
        let rest = names_from(s, end);
        let k = choose|k: int| 0 <= k < rest.len() && rest[k] == word;
        assert(all[k + 1] == word);
    } else {
        lemma_word(s, from + 1, i, e);
    }
}

/// Every word of an expression is found, whole.
pub proof fn law_every_word_is_found(s: Seq<char>, i: int, e: int)
    requires
        is_word(s, i, e),
    ensures
        names_from(s, 0).contains(s.subrange(i, e)),
{
    lemma_word(s, 0, i, e);
}

/// The parent of the dataset has the field, and is known by this name.
pub open spec fn parent_has(
    all: Seq<DatasetEntryModel>,
    ds: SyntheticDatasetModel,
    t: int,
    name: Seq<char>,
) -> bool {
    &&& is_first_dataset(all, t)
    &&& ds.include_spec is Some
    &&& ds.include_spec->0.resolved == Some(all[t].path)
    &&& has_field(all[t].dataset.data, name)
}

proof fn lemma_parent_has(
    all: Seq<DatasetEntryModel>,
    ds: SyntheticDatasetModel,
    t: int,
    name: Seq<char>,
)
    requires
        parent_has(all, ds, t, name),
    ensures
        parent_with_field(all, ds, name) == Some(ds.include_spec->0.reference),
{
    lemma_dataset(all, all[t].path, 0);
    lemma_position(all[t].dataset.data, name, 0);
}

proof fn lemma_names_kept(
    all: Seq<DatasetEntryModel>,
    ds: SyntheticDatasetModel,
    hidden: Seq<FieldModel>,
    names: Seq<Seq<char>>,
    n: int,
    name: Seq<char>,
)
    requires
        has_field(hidden, name),
    ensures
        has_field(with_names(all, ds, hidden, names, n), name),
    decreases n,
{
    if n > 0 {
        lemma_names_kept(all, ds, hidden, names, n - 1, name);
        let before = with_names(all, ds, hidden, names, n - 1);
        let now = with_names(all, ds, hidden, names, n);
        let i = choose|i: int| 0 <= i < before.len() && (#[trigger] before[i]).name == name;
        assert(now[i].name == name);
    }
}

proof fn lemma_name_pulled(
    all: Seq<DatasetEntryModel>,
    ds: SyntheticDatasetModel,
    hidden: Seq<FieldModel>,
    names: Seq<Seq<char>>,
    n: int,
    k: int,
    t: int,
)
    requires
        0 <= k < n <= names.len(),
        parent_has(all, ds, t, names[k]),
        !has_field(ds.data, names[k]),
    ensures
        has_field(with_names(all, ds, hidden, names, n), names[k]),
    decreases n,
{
    let before = with_names(all, ds, hidden, names, n - 1);
    let now = with_names(all, ds, hidden, names, n);
    if k < n - 1 {
        lemma_name_pulled(all, ds, hidden, names, n - 1, k, t);
        let i = choose|i: int| 0 <= i < before.len() && (#[trigger] before[i]).name == names[k];
        assert(now[i].name == names[k]);
    } else {
        lemma_parent_has(all, ds, t, names[k]);
        lemma_position(ds.data, names[k], 0);
        lemma_position(before, names[k], 0);
        if field_position(before, names[k], 0) is None {
            assert(now[before.len() as int].name == names[k]);
        } else {
            let p = field_position(before, names[k], 0)->0;
            assert(now[p].name == names[k]);
        }
    }
}

/// Every word of an expression that only the parent has a field of is pulled down as a column.
pub proof fn law_words_of_the_parent_are_pulled_down(
    all: Seq<DatasetEntryModel>,
    ds: SyntheticDatasetModel,
    n: int,
    f: int,
    i: int,
    e: int,
    t: int,
)
    requires
        0 <= f < n <= ds.data.len(),
        ds.data[f].expression is Some,
        is_word(ds.data[f].expression->0, i, e),
        parent_has(all, ds, t, ds.data[f].expression->0.subrange(i, e)),
        !has_field(ds.data, ds.data[f].expression->0.subrange(i, e)),
    ensures
        has_field(needed_columns(all, ds, n), ds.data[f].expression->0.subrange(i, e)),
    decreases n,
{
    let word = ds.data[f].expression->0.subrange(i, e);
    let before = needed_columns(all, ds, n - 1);
    if f < n - 1 {
        law_words_of_the_parent_are_pulled_down(all, ds, n - 1, f, i, e, t);
        if let Some(x) = ds.data[n - 1].expression {
            lemma_names_kept(
                all,
                ds,
                before,
                names_from(x, 0),
                names_from(x, 0).len() as int,
                word,
            );
        }
    } else {
        let x = ds.data[f].expression->0;
        let names = names_from(x, 0);
        law_every_word_is_found(x, i, e);
        let k = choose|k: int| 0 <= k < names.len() && names[k] == word;
        lemma_name_pulled(all, ds, before, names, names.len() as int, k, t);
    }
}

/// A column that may be pulled down: a hidden reference to the parent's field of its name, which
/// the dataset itself has not.
pub open spec fn is_pulled(
    all: Seq<DatasetEntryModel>,
    ds: SyntheticDatasetModel,
    f: FieldModel,
) -> bool {
    &&& ds.include_spec is Some
    &&& f.hidden
    &&& f.expression is None
    &&& f.refs == Some(RefsSpecModel::Single(ds.include_spec->0.reference + "."@ + f.name))
    &&& !has_field(ds.data, f.name)
    &&& exists|t: int| #[trigger] parent_has(all, ds, t, f.name)
}

/// Only pulled columns, with different names.
pub open spec fn all_pulled(
    all: Seq<DatasetEntryModel>,
    ds: SyntheticDatasetModel,
    s: Seq<FieldModel>,
) -> bool {
    &&& forall|i: int| 0 <= i < s.len() ==> is_pulled(all, ds, #[trigger] s[i])
    &&& forall|i: int, j: int|
        0 <= i < j < s.len() ==> (#[trigger] s[i]).name != (#[trigger] s[j]).name
}

proof fn lemma_with_name(
    all: Seq<DatasetEntryModel>,
    ds: SyntheticDatasetModel,
    s: Seq<FieldModel>,
    name: Seq<char>,
)
    requires
        all_pulled(all, ds, s),
    ensures
        all_pulled(all, ds, with_name(all, ds, s, name)),
{
    lemma_position(ds.data, name, 0);
    lemma_position(s, name, 0);
    if with_name(all, ds, s, name) != s {
        let inc = ds.include_spec->0;
        lemma_dataset(all, inc.resolved->0, 0);
        let t = crate::models::target_of(all, inc)->0;
        lemma_position(all[t].dataset.data, name, 0);
        assert(parent_has(all, ds, t, name)) by {
            let p = field_position(all[t].dataset.data, name, 0)->0;
            assert(all[t].dataset.data[p].name == name);
        }
        let f = hidden_column(inc.reference, name);
        assert(with_name(all, ds, s, name) == s.push(f));
        assert(parent_has(all, ds, t, f.name));
        assert(!has_field(ds.data, f.name));
        assert(is_pulled(all, ds, f));
    }
}

proof fn lemma_with_names(
    all: Seq<DatasetEntryModel>,
    ds: SyntheticDatasetModel,
    s: Seq<FieldModel>,
    names: Seq<Seq<char>>,
    n: int,
)
    requires
        all_pulled(all, ds, s),
    ensures
        all_pulled(all, ds, with_names(all, ds, s, names, n)),
    decreases n,
{
    if n > 0 {
        lemma_with_names(all, ds, s, names, n - 1);
        lemma_with_name(all, ds, with_names(all, ds, s, names, n - 1), names[n - 1]);
    }
}

/// Nothing else is pulled down, and nothing twice: each column is hidden and refers to the
/// parent's field of its name, which the dataset itself has not.
pub proof fn law_pulled_columns_refer_to_the_parent(
    all: Seq<DatasetEntryModel>,
    ds: SyntheticDatasetModel,
    n: int,
)
    ensures
        all_pulled(all, ds, needed_columns(all, ds, n)),
    decreases n,
{
    if n > 0 {
        law_pulled_columns_refer_to_the_parent(all, ds, n - 1);
        if let Some(e) = ds.data[n - 1].expression {
            lemma_with_names(
                all,
                ds,
                needed_columns(all, ds, n - 1),
                names_from(e, 0),
                names_from(e, 0).len() as int,
            );
        }
    }
}

proof fn lemma_first_computed(fields: Seq<FieldModel>, from: int)
    requires
        0 <= from <= fields.len(),
    ensures
        from <= first_computed(fields, from) <= fields.len(),
        forall|i: int|
            from <= i < first_computed(fields, from) ==> (#[trigger] fields[i]).expression is None,
        first_computed(fields, from) < fields.len() ==> fields[first_computed(
            fields,
            from,
        )].expression is Some,
    decreases fields.len() - from,
{
    if from < fields.len() {
        lemma_first_computed(fields, from + 1);
    }
}

/// Pulled columns stand before every computed field, and the dataset's own fields stay in their
/// order.
pub proof fn law_pulled_columns_stand_before_expressions(
    all: Seq<DatasetEntryModel>,
    ds: SyntheticDatasetModel,
    i: int,
    k: int,
)
    requires
        0 <= i < ds.data.len(),
        0 <= k < needed_columns(all, ds, ds.data.len() as int).len(),
    ensures
        ({
            let r = with_needed_columns(all, ds);
            let pulled = needed_columns(all, ds, ds.data.len() as int);
            let at = first_computed(ds.data, 0);
            let place = if i < at {
                i
            } else {
                i + pulled.len()
            };
            &&& r.len() == ds.data.len() + pulled.len()
            &&& r[place] == ds.data[i]
            &&& r[at + k] == pulled[k]
            &&& ds.data[i].expression is Some ==> at + k < place
        }),
{
    lemma_first_computed(ds.data, 0);
}

// ---------------------------------------------------------------------------
// Rescaled lists
// ---------------------------------------------------------------------------

/// A list that asks for rescaling becomes a hidden source with all that makes its items, and right
/// behind it a computed column under the name of the list, as visible as the list was.
pub proof fn law_rescaled_lists_keep_their_items(
    fields: Seq<FieldModel>,
    totals: Seq<Seq<char>>,
    n: int,
    i: int,
)
    requires
        0 <= i < n <= fields.len(),
        fields[i].normalize is Some,
    ensures
        exists|k: int| #[trigger]
            is_rescaled(desugared(fields, totals, n), k, fields[i], totals[i]),
    decreases n,
{
    let before = desugared(fields, totals, n - 1);
    let now = desugared(fields, totals, n);
    if i < n - 1 {
        law_rescaled_lists_keep_their_items(fields, totals, n - 1, i);
        let k = choose|k: int| #[trigger] is_rescaled(before, k, fields[i], totals[i]);
        assert(is_rescaled(now, k, fields[i], totals[i]));
    } else {
        let k = before.len() as int;
        lemma_call_names(source_name(fields[i].name), totals[i], fields[i].normalize->0);
        assert(is_rescaled(now, k, fields[i], totals[i]));
    }
}

/// The fields at `k` and behind it are the source and the rescaled column of a list.
pub open spec fn is_rescaled(s: Seq<FieldModel>, k: int, f: FieldModel, total: Seq<char>) -> bool {
    &&& 0 <= k
    &&& k + 1 < s.len()
    &&& s[k].hidden
    &&& s[k].normalize is None
    &&& s[k].quality is None
    &&& s[k].name == f.name + "__norm_src"@
    &&& f == (FieldModel {
        name: f.name,
        hidden: f.hidden,
        normalize: f.normalize,
        quality: f.quality,
        ..s[k]
    })
    &&& s[k + 1].name == f.name
    &&& s[k + 1].hidden == f.hidden
    &&& s[k + 1].quality == f.quality
    &&& s[k + 1].expression is Some
    &&& occurs_in("(\""@ + s[k].name + "\", "@, s[k + 1].expression->0)
    &&& occurs_in(total, s[k + 1].expression->0)
}

proof fn lemma_call_names(src: Seq<char>, total: Seq<char>, n: NormalizeModel)
    ensures
        occurs_in("(\""@ + src + "\", "@, normalize_call(src, total, n)),
        occurs_in(total, normalize_call(src, total, n)),
{
    let call = normalize_call(src, total, n);
    let head = "(\""@ + src + "\", "@;
    reveal_strlit("array_normalize(\"");
    reveal_strlit("array_normalize");
    reveal_strlit("array_normalize_field(\"");
    reveal_strlit("array_normalize_field");
    reveal_strlit("(\"");
    reveal_strlit("\", ");
    reveal_strlit("\", '");
    reveal_strlit("'");
    assert("array_normalize(\""@ =~= "array_normalize"@ + "(\""@);
    assert("array_normalize_field(\""@ =~= "array_normalize_field"@ + "(\""@);
    assert("\", '"@ =~= "\", "@ + "'"@);
    match n.field {
        None => {
            let tail = precision_argument(n.precision) + ")"@;
            assert(call =~= "array_normalize"@ + head + (total + tail));
            assert(call =~= ("array_normalize"@ + head) + total + tail);
        },
        Some(f) => {
            let tail = match n.into {
                None => precision_argument(n.precision) + ")"@,
                Some(into) => ", '"@ + into + "'"@ + precision_argument(n.precision) + ")"@,
            };
            let mid = "'"@ + f + "', "@;
            assert(call =~= "array_normalize_field"@ + head + (mid + total + tail));
            assert(call =~= ("array_normalize_field"@ + head + mid) + total + tail);
        },
    }
}

/// The precision is the last argument of a call that has one, and the destination the one before
/// it.
pub proof fn law_calls_end_with_their_options(
    src: Seq<char>,
    total: Seq<char>,
    n: NormalizeModel,
    into: Seq<char>,
    p: i32,
)
    ensures
        n.precision == Some(p) ==> occurs_in(
            ", "@ + signed_text(p as int) + ")"@,
            normalize_call(src, total, n),
        ),
        n.field is Some && n.into == Some(into) && n.precision is None ==> occurs_in(
            total + (", '"@ + into + "'"@) + ")"@,
            normalize_call(src, total, n),
        ),
        n.precision is None && n.into is None ==> occurs_in(
            total + ")"@,
            normalize_call(src, total, n),
        ),
{
    let call = normalize_call(src, total, n);
    let end = Seq::<char>::empty();
    if n.precision == Some(p) {
        let tail = ", "@ + signed_text(p as int) + ")"@;
        let lead = call.subrange(0, call.len() - tail.len());
        assert(call =~= lead + tail + end);
    } else if n.precision is None && n.into is None {
        let tail = total + ")"@;
        let lead = call.subrange(0, call.len() - tail.len());
        assert(call =~= lead + tail + end);
    }
    if n.field is Some && n.into == Some(into) && n.precision is None {
        let tail = total + (", '"@ + into + "'"@) + ")"@;
        let lead = call.subrange(0, call.len() - tail.len());
        assert(call =~= lead + tail + end);
    }
}

/// A negative number is written with a sign, any other as it is counted.
pub proof fn law_signs_are_written(n: int)
    ensures
        n >= 0 ==> signed_text(n) == crate::text::decimal_text(n as nat),
        n < 0 ==> signed_text(n) == "-"@ + crate::text::decimal_text((-n) as nat),
{
}

/// A precision of zero makes whole numbers, any other does not; without one, whole items stay
/// whole.
pub proof fn law_precision_decides_on_whole_numbers(whole_items: bool, precision: Option<i32>)
    ensures
        precision is Some ==> (whole_output(whole_items, precision) <==> precision->0 == 0),
        precision is None ==> (whole_output(whole_items, precision) <==> whole_items),
{
}

/// The parts of an even split differ by at most one, the larger ones first.
pub proof fn law_even_parts_differ_by_one(total: int, n: int, i: int, j: int)
    requires
        0 < n,
        0 <= i <= j < n,
    ensures
        0 <= even_part(total, n, i) - even_part(total, n, j) <= 1,
{
}

/// The total of a call on records is its first argument; of the arguments behind it, the last text
/// is the destination and the last other one the precision.
pub proof fn law_arguments_go_by_their_kind(args: Seq<Option<ScalarArg>>, n: int)
    requires
        1 < n <= args.len(),
        tail_of(args, n) is Ok,
    ensures
        tail_of(args, n - 1) is Ok,
        ({
            let r = tail_of(args, n)->Ok_0;
            let before = tail_of(args, n - 1)->Ok_0;
            let a = args[n - 1];
            &&& a is None ==> r == before
            &&& a is Some && a->0.text is Some ==> r.0 == Some(a->0.text->0@) && r.1 == before.1
            &&& a is Some && a->0.text is None ==> r.0 == before.0 && r.1 == a->0.integer
                && a->0.integer is Some
        }),
        field_args(args) is Ok ==> args[0] is Some && args[0]->0.number == Some(
            field_args(args)->Ok_0.total,
        ) && (field_args(args)->Ok_0.into, field_args(args)->Ok_0.precision) == tail_of(
            args,
            args.len() as int,
        )->Ok_0,
        tail_of(args, 1)->Ok_0 == (None::<Seq<char>>, None::<i32>),
{
}

} // verus!
