//! Who belongs to the lower cover of a dataset, and what each member asks for.
use vstd::prelude::*;

use crate::cover::{
    covered_paths, group, group_at, linked_members, members_from, uses_of, MemberModel,
};
use crate::models::{
    link_position, list_link_uses, DatasetEntryModel, FieldModel, IncludeModel, Num,
};
use crate::plan_laws::{draws_from, first_link};

verus! {

/// A ratio as it is declared, one where none is.
pub open spec fn declared_ratio(r: Num, declared: Option<Num>) -> bool {
    &&& declared is Some ==> r == declared->0
    &&& declared is None ==> r == Num::one()
}

/// A member is the dataset `e`, which narrows the dataset at `path`: with the ratio, the rows per
/// parent row and the name of the parent that its include declares.
pub open spec fn is_narrowing(m: MemberModel, e: DatasetEntryModel, path: Seq<char>) -> bool {
    &&& e.dataset.include_spec is Some
    &&& e.dataset.include_spec->0.resolved == Some(path)
    &&& !m.is_witness_source
    &&& m.path == e.path
    &&& m.dataset == e.dataset
    &&& declared_ratio(m.ratio, e.dataset.include_spec->0.ratio)
    &&& m.cardinality == e.dataset.include_spec->0.cardinality
    &&& m.reference == e.dataset.include_spec->0.reference
}

/// A member stands for the items of list field `f`, drawn through link `l` of dataset `e` from the
/// dataset at `path`.
pub open spec fn is_list_of(
    m: MemberModel,
    e: DatasetEntryModel,
    f: FieldModel,
    l: int,
    path: Seq<char>,
) -> bool {
    &&& e.dataset.links[l].resolved == Some(path)
    &&& m.is_witness_source
    &&& f.content is Some
    &&& m.dataset.data == f.content->0.item.fields
    &&& declared_ratio(m.ratio, e.dataset.links[l].ratio)
    &&& m.cardinality is None
    &&& m.reference == e.dataset.links[l].reference
    &&& m.dataset.all_outputs().len() == 0
}

/// Some dataset among the first `n` contributes the member.
pub open spec fn has_origin(all: Seq<DatasetEntryModel>, m: MemberModel, path: Seq<char>, n: int) -> bool {
    ||| exists|c: int| 0 <= c < n && is_narrowing(m, #[trigger] all[c], path)
    ||| exists|c: int, u: int|
        0 <= c < n && 0 <= u < uses_of(all[c].dataset).len() && is_list_of(
            m,
            all[c],
            (#[trigger] uses_of(all[c].dataset)[u]).0,
            uses_of(all[c].dataset)[u].1,
            path,
        )
}

proof fn lemma_linked_member(
    e: DatasetEntryModel,
    uses: Seq<(FieldModel, int)>,
    path: Seq<char>,
    n: int,
    u: int,
) -> (m: MemberModel)
    requires
        0 <= u < n <= uses.len(),
        e.dataset.links[uses[u].1].resolved == Some(path),
        uses[u].0.content is Some,
    ensures
        linked_members(e, uses, path, n).contains(m),
        is_list_of(m, e, uses[u].0, uses[u].1, path),
    decreases n,
{
    let before = linked_members(e, uses, path, n - 1);
    let now = linked_members(e, uses, path, n);
    if u < n - 1 {
        let m = lemma_linked_member(e, uses, path, n - 1, u);
        let a = choose|a: int| 0 <= a < before.len() && before[a] == m;
        assert(now[a] == m);
        m
    } else {
        let m = now[before.len() as int];
        assert(m.dataset.all_outputs().len() == 0);
        m
    }
}

proof fn lemma_linked_members_come_from(
    e: DatasetEntryModel,
    uses: Seq<(FieldModel, int)>,
    path: Seq<char>,
    n: int,
    a: int,
)
    requires
        0 <= n <= uses.len(),
        0 <= a < linked_members(e, uses, path, n).len(),
        forall|u: int| 0 <= u < uses.len() ==> (#[trigger] uses[u]).0.content is Some,
    ensures
        exists|u: int|
            0 <= u < n && is_list_of(
                linked_members(e, uses, path, n)[a],
                e,
                (#[trigger] uses[u]).0,
                uses[u].1,
                path,
            ),
    decreases n,
{
    if n > 0 {
        let before = linked_members(e, uses, path, n - 1);
        let now = linked_members(e, uses, path, n);
        if a < before.len() {
            lemma_linked_members_come_from(e, uses, path, n - 1, a);
            let u = choose|u: int|
                0 <= u < n - 1 && is_list_of(before[a], e, (#[trigger] uses[u]).0, uses[u].1, path);
            assert(is_list_of(now[a], e, uses[u].0, uses[u].1, path));
        } else {
            assert(uses[n - 1].0.content is Some);
            assert(now[a].dataset.all_outputs().len() == 0);
            assert(is_list_of(now[a], e, uses[n - 1].0, uses[n - 1].1, path));
        }
    }
}

proof fn lemma_uses_have_content(links: Seq<IncludeModel>, fields: Seq<FieldModel>, i: int)
    requires
        0 <= i,
    ensures
        forall|u: int|
            0 <= u < list_link_uses(links, fields, i).len() ==> (
            #[trigger] list_link_uses(links, fields, i)[u]).0.content is Some,
    decreases fields, fields.len() - i,
{
    if i < fields.len() {
        let f = fields[i];
        lemma_uses_have_content(links, fields, i + 1);
        lemma_uses_have_content(links, f.fields, 0);
        if let Some(c) = f.content {
            lemma_uses_have_content(links, c.item.fields, 0);
            let own: Seq<(FieldModel, int)> = match c.from {
                Some(from) => match link_position(links, from, 0) {
                    Some(l) => seq![(f, l)],
                    None => Seq::empty(),
                },
                None => Seq::empty(),
            };
            let inner = list_link_uses(links, c.item.fields, 0);
            let nested = list_link_uses(links, f.fields, 0);
            let rest = list_link_uses(links, fields, i + 1);
            let all = list_link_uses(links, fields, i);
            assert(all == own + inner + nested + rest);
            assert forall|u: int| 0 <= u < all.len() implies (#[trigger] all[u]).0.content is Some by {
                if u < own.len() {
                    assert(all[u] == own[u]);
                } else if u < own.len() + inner.len() {
                    assert(all[u] == inner[u - own.len()]);
                } else if u < own.len() + inner.len() + nested.len() {
                    assert(all[u] == nested[u - own.len() - inner.len()]);
                } else {
                    assert(all[u] == rest[u - own.len() - inner.len() - nested.len()]);
                }
            }
        } else {
            let nested = list_link_uses(links, f.fields, 0);
            let rest = list_link_uses(links, fields, i + 1);
            let all = list_link_uses(links, fields, i);
            assert(all =~= nested + rest);
            assert forall|u: int| 0 <= u < all.len() implies (#[trigger] all[u]).0.content is Some by {
                if u < nested.len() {
                    assert(all[u] == nested[u]);
                } else {
                    assert(all[u] == rest[u - nested.len()]);
                }
            }
        }
    }
}

proof fn lemma_top_level_use(
    links: Seq<IncludeModel>,
    fields: Seq<FieldModel>,
    from: int,
    i: int,
    l: int,
)
    requires
        0 <= from <= i < fields.len(),
        fields[i].content is Some,
        fields[i].content->0.from is Some,
        first_link(links, fields[i].content->0.from->0, l),
    ensures
        exists|u: int|
            0 <= u < list_link_uses(links, fields, from).len() && #[trigger] list_link_uses(
                links,
                fields,
                from,
            )[u] == (fields[i], l),
    decreases i - from,
{
    let f = fields[from];
    let all = list_link_uses(links, fields, from);
    let rest = list_link_uses(links, fields, from + 1);
    if from < i {
        lemma_top_level_use(links, fields, from + 1, i, l);
        let u = choose|u: int| 0 <= u < rest.len() && #[trigger] rest[u] == (fields[i], l);
        assert(all[all.len() - rest.len() + u] == rest[u]);
    } else {
        lemma_first_link(links, f.content->0.from->0, l, 0);
        assert(all[0] == (f, l));
    }
}

proof fn lemma_first_link(links: Seq<IncludeModel>, reference: Seq<char>, l: int, from: int)
    requires
        first_link(links, reference, l),
        0 <= from <= l,
    ensures
        link_position(links, reference, from) == Some(l),
    decreases l - from,
{
    if from < l {
        lemma_first_link(links, reference, l, from + 1);
    }
}

proof fn lemma_in_group(
    all: Seq<DatasetEntryModel>,
    path: Seq<char>,
    n: int,
    c: int,
    m: MemberModel,
)
    requires
        0 <= c < n <= all.len(),
        members_from(all[c], path).contains(m),
    ensures
        group_at(all, path, n).contains(m),
    decreases n,
{
    let before = group_at(all, path, n - 1);
    let here = members_from(all[n - 1], path);
    let now = group_at(all, path, n);
    if c < n - 1 {
        lemma_in_group(all, path, n - 1, c, m);
        let a = choose|a: int| 0 <= a < before.len() && before[a] == m;
        assert(now[a] == m);
    } else {
        let a = choose|a: int| 0 <= a < here.len() && here[a] == m;
        assert(now[before.len() + a] == m);
    }
}

/// A dataset that narrows another is a member of its lower cover.
pub proof fn law_narrowing_datasets_are_members(all: Seq<DatasetEntryModel>, i: int, c: int)
    requires
        0 <= i < all.len(),
        0 <= c < all.len(),
        all[c].dataset.include_spec is Some,
        all[c].dataset.include_spec->0.resolved == Some(all[i].path),
    ensures
        exists|m: MemberModel|
            group(all, i).contains(m) && #[trigger] is_narrowing(m, all[c], all[i].path),
{
    let here = members_from(all[c], all[i].path);
    let m = here[0];
    assert(here.contains(m));
    assert(is_narrowing(m, all[c], all[i].path));
    lemma_in_group(all, all[i].path, all.len() as int, c, m);
}

/// A list field is a member of the lower cover of the dataset that it draws its items from.
pub proof fn law_list_fields_are_members(
    all: Seq<DatasetEntryModel>,
    i: int,
    c: int,
    f: int,
    l: int,
)
    requires
        0 <= i < all.len(),
        0 <= c < all.len(),
        draws_from(all[c].dataset, f, l),
        all[c].dataset.links[l].resolved == Some(all[i].path),
    ensures
        exists|m: MemberModel|
            group(all, i).contains(m) && #[trigger] is_list_of(
                m,
                all[c],
                all[c].dataset.data[f],
                l,
                all[i].path,
            ),
{
    let ds = all[c].dataset;
    let path = all[i].path;
    let uses = uses_of(ds);
    lemma_top_level_use(ds.links, ds.data, 0, f, l);
    let u = choose|u: int| 0 <= u < uses.len() && #[trigger] uses[u] == (ds.data[f], l);
    let m = lemma_linked_member(all[c], uses, path, uses.len() as int, u);
    let linked = linked_members(all[c], uses, path, uses.len() as int);
    let here = members_from(all[c], path);
    let a = choose|a: int| 0 <= a < linked.len() && linked[a] == m;
    assert(here[here.len() - linked.len() + a] == m);
    assert(here.contains(m));
    lemma_in_group(all, path, all.len() as int, c, m);
    assert(is_list_of(m, all[c], ds.data[f], l, path));
}

proof fn lemma_group_origins(all: Seq<DatasetEntryModel>, path: Seq<char>, n: int, a: int)
    requires
        0 <= n <= all.len(),
        0 <= a < group_at(all, path, n).len(),
    ensures
        has_origin(all, group_at(all, path, n)[a], path, n),
    decreases n,
{
    if n > 0 {
        let before = group_at(all, path, n - 1);
        let now = group_at(all, path, n);
        let m = now[a];
        let e = all[n - 1];
        if a < before.len() {
            lemma_group_origins(all, path, n - 1, a);
            assert(before[a] == m);
            if exists|c: int| 0 <= c < n - 1 && is_narrowing(m, #[trigger] all[c], path) {
                let c = choose|c: int| 0 <= c < n - 1 && is_narrowing(m, #[trigger] all[c], path);
                assert(is_narrowing(m, all[c], path));
            } else {
                let (c, u) = choose|c: int, u: int|
                    0 <= c < n - 1 && 0 <= u < uses_of(all[c].dataset).len() && is_list_of(
                        m,
                        all[c],
                        (#[trigger] uses_of(all[c].dataset)[u]).0,
                        uses_of(all[c].dataset)[u].1,
                        path,
                    );
                assert(is_list_of(
                    m,
                    all[c],
                    uses_of(all[c].dataset)[u].0,
                    uses_of(all[c].dataset)[u].1,
                    path,
                ));
            }
        } else {
            let here = members_from(e, path);
            let uses = uses_of(e.dataset);
            let linked = linked_members(e, uses, path, uses.len() as int);
            let b = a - before.len();
            assert(here[b] == m);
            lemma_uses_have_content(e.dataset.links, e.dataset.data, 0);
            if b < here.len() - linked.len() {
                assert(is_narrowing(m, all[n - 1], path));
            } else {
                let x = b - (here.len() - linked.len());
                assert(linked[x] == m);
                lemma_linked_members_come_from(e, uses, path, uses.len() as int, x);
                let u = choose|u: int|
                    0 <= u < uses.len() && is_list_of(
                        linked[x],
                        e,
                        (#[trigger] uses[u]).0,
                        uses[u].1,
                        path,
                    );
                assert(is_list_of(
                    m,
                    all[n - 1],
                    uses_of(all[n - 1].dataset)[u].0,
                    uses_of(all[n - 1].dataset)[u].1,
                    path,
                ));
            }
        }
    }
}

/// Nothing else is a member: each one narrows the dataset, or stands for a list field that draws
/// from it.
pub proof fn law_members_narrow_or_draw(all: Seq<DatasetEntryModel>, i: int, a: int)
    requires
        0 <= i < all.len(),
        0 <= a < group(all, i).len(),
    ensures
        has_origin(all, group(all, i)[a], all[i].path, all.len() as int),
{
    lemma_group_origins(all, all[i].path, all.len() as int, a);
}

/// A dataset that narrows an existing one is generated with its parent.
pub proof fn law_narrowing_datasets_are_covered(all: Seq<DatasetEntryModel>, n: int, c: int)
    requires
        0 <= c < n <= all.len(),
        all[c].dataset.include_spec is Some,
        all[c].dataset.include_spec->0.resolved is Some,
    ensures
        covered_paths(all, n).contains(all[c].path),
    decreases n,
{
    let before = covered_paths(all, n - 1);
    let now = covered_paths(all, n);
    if c < n - 1 {
        law_narrowing_datasets_are_covered(all, n - 1, c);
        let a = choose|a: int| 0 <= a < before.len() && before[a] == all[c].path;
        assert(now[a] == all[c].path);
    } else {
        assert(now[before.len() as int] == all[c].path);
    }
}

/// A member that stands for a list field has the fields of its items, the format and the locale of
/// the dataset that has the list, and writes nothing.
pub proof fn law_list_members_stand_for_their_items(
    e: DatasetEntryModel,
    f: FieldModel,
    link: IncludeModel,
)
    requires
        f.content is Some,
    ensures
        ({
            let m = crate::cover::linked_member(e, f, link);
            &&& m.dataset.data == f.content->0.item.fields
            &&& m.dataset.format == e.dataset.format
            &&& m.dataset.locale == e.dataset.locale
            &&& m.dataset.all_outputs().len() == 0
            &&& m.dataset.rows is None
            &&& m.dataset.include_spec is None
            &&& m.dataset.import is None
            &&& m.dataset.links.len() == 0
            &&& m.reference == link.reference
            &&& m.is_witness_source
            &&& m.cardinality is None
            &&& link.ratio is Some ==> Some(m.ratio) == link.ratio
        }),
{
}

} // verus!
