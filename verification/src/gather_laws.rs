//! What gathering, ordering and placing promise: which rows get which aggregates, which datasets
//! wait for which, and when a computed column is computed.
use vstd::prelude::*;

use crate::accumulate::{
    accumulated_text, aggregate_of, column_for, combined_number, combined_text, gather_problem,
    value_positions, ColumnKind, Lists, NewColumn, Piece,
};
use crate::constraints::NumericInterval;
use crate::expr_analysis::{
    input_columns, input_ranges, last_named, placement, reads_any, yields_list,
};
use crate::expressions::names_from;
use crate::graph::{dag_edges, with_edge, with_links, with_parent};
use crate::models::{
    dataset_position, DatasetEntryModel, FieldModel, FieldType, IncludeModel, Num, Reducer,
};
use crate::rewrite_laws::{is_first_dataset, is_word, law_every_word_is_found};
use crate::schema::column_type;
use crate::segment_laws::is_plain;
use crate::text::text_lt;

verus! {

// ---------------------------------------------------------------------------
// Aggregates
// ---------------------------------------------------------------------------

/// The aggregate of a row is one that belongs to it, and a row that some aggregate belongs to has
/// one.
pub proof fn law_rows_get_their_own_aggregate(groups: Seq<u32>, row: int, n: int)
    requires
        0 <= n <= groups.len(),
    ensures
        match aggregate_of(groups, row, n) {
            Some(k) => 0 <= k < n && groups[k] == row,
            None => forall|k: int| 0 <= k < n ==> #[trigger] groups[k] != row,
        },
    decreases n,
{
    if n > 0 {
        law_rows_get_their_own_aggregate(groups, row, n - 1);
    }
}

/// A row finds its value at its aggregate, and a row without one at its own default, which stand
/// behind all aggregates.
pub proof fn law_rows_find_their_values(groups: Seq<u32>, linked_n: nat, row: int)
    requires
        0 <= row < linked_n,
        groups.len() + linked_n <= u32::MAX,
    ensures
        value_positions(groups, linked_n).len() == linked_n,
        ({
            let at = value_positions(groups, linked_n)[row] as int;
            &&& at < groups.len() ==> groups[at] == row
            &&& at >= groups.len() ==> at == groups.len() + row && forall|k: int|
                0 <= k < groups.len() ==> #[trigger] groups[k] != row
        }),
{
    law_rows_get_their_own_aggregate(groups, row, groups.len() as int);
}

/// The list of a row holds what it held before, then its aggregate, and nothing else.
pub proof fn law_lists_grow_behind_what_they_held(l: Lists, row: int, k: int)
    requires
        0 <= row <= usize::MAX,
        l.groups.len() <= usize::MAX,
    ensures
        l.existing is Some ==> l.row_pieces(row).len() > 0 && l.row_pieces(row)[0]
            == Piece::Existing(row as usize),
        0 <= k < l.groups.len() && l.groups[k] == row && (forall|j: int|
            0 <= j < l.groups.len() && j != k ==> #[trigger] l.groups[j] != row) ==> l.row_pieces(
            row,
        ).last() == Piece::Gathered(k as usize) && l.row_pieces(row).len() == if l.existing
            is Some {
            2int
        } else {
            1int
        },
        (forall|j: int| 0 <= j < l.groups.len() ==> #[trigger] l.groups[j] != row)
            ==> l.row_pieces(row).len() == if l.existing is Some {
            1int
        } else {
            0int
        },
{
    law_rows_get_their_own_aggregate(l.groups, row, l.groups.len() as int);
    if let Some(a) = aggregate_of(l.groups, row, l.groups.len() as int) {
        assert(l.groups[a] == row);
    }
}

/// Collected values make lists; anything else takes the aggregates the first time, and afterwards
/// keeps the one value that was taken or combines.
pub proof fn law_columns_start_with_the_aggregates(reducer: Reducer, first: bool)
    ensures
        reducer == Reducer::Collect <==> column_for(reducer, first) == NewColumn::Lists,
        reducer != Reducer::Collect && first <==> column_for(reducer, first) == NewColumn::Take,
        reducer == Reducer::TakeOne && !first <==> column_for(reducer, first) == NewColumn::Keep,
        (reducer == Reducer::Sum || reducer == Reducer::Max || reducer == Reducer::Min) && !first
            <==> column_for(reducer, first) == NewColumn::Combine,
{
}

/// A maximum is one of the two numbers and below neither, a minimum one of them and above neither,
/// a sum the sum, and a value that was taken stays.
pub proof fn law_numbers_are_combined_by_their_reducer(a: Num, b: Num, sum: Num)
    requires
        !a.nan(),
        !b.nan(),
    ensures
        combined_number(Reducer::Max, a, b, sum).key >= a.key,
        combined_number(Reducer::Max, a, b, sum).key >= b.key,
        combined_number(Reducer::Max, a, b, sum) == a || combined_number(Reducer::Max, a, b, sum)
            == b,
        combined_number(Reducer::Min, a, b, sum).key <= a.key,
        combined_number(Reducer::Min, a, b, sum).key <= b.key,
        combined_number(Reducer::Min, a, b, sum) == a || combined_number(Reducer::Min, a, b, sum)
            == b,
        combined_number(Reducer::Sum, a, b, sum) == sum,
        combined_number(Reducer::TakeOne, a, b, sum) == a,
{
}

/// A maximum is one of the two texts and before neither in dictionary order, a minimum one of them
/// and behind neither; any other reducer keeps the text.
pub proof fn law_texts_are_combined_by_their_reducer(a: Seq<char>, b: Seq<char>)
    ensures
        combined_text(Reducer::Max, a, b) == a || combined_text(Reducer::Max, a, b) == b,
        text_lt(a, b) ==> combined_text(Reducer::Max, a, b) == b,
        text_lt(a, b) ==> combined_text(Reducer::Min, b, a) == a,
        !text_lt(a, b) ==> combined_text(Reducer::Max, a, b) == a,
        !text_lt(b, a) ==> combined_text(Reducer::Min, a, b) == a,
        combined_text(Reducer::TakeOne, a, b) == a,
        combined_text(Reducer::Sum, a, b) == a,
{
}

/// A text of a row with an aggregate is combined with it; a missing one counts as empty.
pub proof fn law_texts_with_aggregate_combine(
    reducer: Reducer,
    existing: Seq<Option<String>>,
    gathered: Seq<Option<String>>,
    groups: Seq<u32>,
    i: int,
    k: int,
)
    requires
        0 <= k < groups.len(),
        groups[k] == i,
        forall|j: int| 0 <= j < groups.len() && j != k ==> #[trigger] groups[j] != i,
    ensures
        existing[i] is Some && gathered[k] is Some ==> accumulated_text(
            reducer,
            existing,
            gathered,
            groups,
            i,
        ) == Some(combined_text(reducer, existing[i]->0@, gathered[k]->0@)),
        existing[i] is None && gathered[k] is Some ==> accumulated_text(
            reducer,
            existing,
            gathered,
            groups,
            i,
        ) == Some(combined_text(reducer, Seq::empty(), gathered[k]->0@)),
{
    law_rows_get_their_own_aggregate(groups, i, groups.len() as int);
    let a = aggregate_of(groups, i, groups.len() as int)->0;
    assert(groups[a] == i);
}

/// Values can be gathered exactly where the column exists, unless aggregates would have to be
/// combined with values that are neither numbers nor texts.
pub proof fn law_gathering_is_refused_where_nothing_fits(
    linked: Seq<Seq<char>>,
    field: Seq<char>,
    reducer: Reducer,
    first: bool,
    kind: ColumnKind,
    shown: Seq<char>,
)
    ensures
        gather_problem(linked, field, reducer, first, kind, shown) is Some <==> !linked.contains(
            field,
        ) || (kind is Other && !first && reducer != Reducer::Collect && reducer
            != Reducer::TakeOne),
{
    lemma_column(linked, field, 0);
    if linked.contains(field) {
        let i = choose|i: int| 0 <= i < linked.len() && linked[i] == field;
        assert(linked[i] == field);
    }
}

proof fn lemma_column(names: Seq<Seq<char>>, name: Seq<char>, from: int)
    requires
        0 <= from <= names.len(),
    ensures
        match crate::columns::column_at(names, name, from) {
            Some(p) => from <= p < names.len() && names[p] == name,
            None => forall|j: int| from <= j < names.len() ==> #[trigger] names[j] != name,
        },
    decreases names.len() - from,
{
    if from < names.len() && names[from] != name {
        lemma_column(names, name, from + 1);
    }
}

// ---------------------------------------------------------------------------
// The graph of datasets
// ---------------------------------------------------------------------------

/// The include leads to this dataset.
pub open spec fn leads_to(all: Seq<DatasetEntryModel>, inc: IncludeModel, t: int) -> bool {
    is_first_dataset(all, t) && inc.resolved == Some(all[t].path)
}

/// The include leads to no dataset.
pub open spec fn leads_nowhere(all: Seq<DatasetEntryModel>, inc: IncludeModel) -> bool {
    inc.resolved is None || forall|t: int|
        0 <= t < all.len() ==> (#[trigger] all[t]).path != inc.resolved->0
}

/// An edge with a reason: from a dataset to its parent, or from a linked dataset to the one that
/// draws from it.
pub open spec fn has_reason(all: Seq<DatasetEntryModel>, n: int, a: int, b: int) -> bool {
    ||| 0 <= a < n && all[a].dataset.include_spec is Some && leads_to(
        all,
        all[a].dataset.include_spec->0,
        b,
    )
    ||| 0 <= b < n && exists|l: int|
        0 <= l < all[b].dataset.links.len() && leads_to(
            all,
            #[trigger] all[b].dataset.links[l],
            a,
        )
}

proof fn lemma_dataset(all: Seq<DatasetEntryModel>, path: Seq<char>, from: int)
    requires
        0 <= from <= all.len(),
    ensures
        match dataset_position(all, path, from) {
            Some(p) => from <= p < all.len() && all[p].path == path && forall|j: int|
                from <= j < p ==> (#[trigger] all[j]).path != path,
            None => forall|j: int| from <= j < all.len() ==> (#[trigger] all[j]).path != path,
        },
    decreases all.len() - from,
{
    if from < all.len() {
        lemma_dataset(all, path, from + 1);
    }
}

proof fn lemma_with_edge(edges: Seq<(int, int)>, a: int, b: int, e: (int, int))
    ensures
        with_edge(edges, a, b).contains(e) <==> edges.contains(e) || e == (a, b),
{
    let now = with_edge(edges, a, b);
    if edges.contains(e) {
        let i = choose|i: int| 0 <= i < edges.len() && edges[i] == e;
        assert(now[i] == e);
    }
    if !edges.contains((a, b)) {
        assert(now[edges.len() as int] == (a, b));
    }
}

proof fn lemma_links_reason(
    all: Seq<DatasetEntryModel>,
    i: int,
    edges: Seq<(int, int)>,
    l: int,
    e: (int, int),
)
    requires
        0 <= i < all.len(),
        0 <= l <= all[i].dataset.links.len(),
        with_links(all, i, edges, l) is Ok,
        with_links(all, i, edges, l)->Ok_0.contains(e),
        !edges.contains(e),
    ensures
        e.1 == i,
        exists|k: int|
            0 <= k < l && leads_to(all, #[trigger] all[i].dataset.links[k], e.0),
    decreases l,
{
    if l > 0 {
        let before = with_links(all, i, edges, l - 1)->Ok_0;
        let inc = all[i].dataset.links[l - 1];
        lemma_dataset(all, inc.resolved->0, 0);
        let t = dataset_position(all, inc.resolved->0, 0)->0;
        lemma_with_edge(before, t, i, e);
        if before.contains(e) {
            lemma_links_reason(all, i, edges, l - 1, e);
        } else {
            assert(leads_to(all, all[i].dataset.links[l - 1], e.0));
        }
    }
}

/// The graph has no other edges: each one goes from a dataset to its parent, or from a linked
/// dataset to the one that draws from it.
pub proof fn law_every_edge_has_a_reason(all: Seq<DatasetEntryModel>, n: int, e: (int, int))
    requires
        0 <= n <= all.len(),
        dag_edges(all, n) is Ok,
        dag_edges(all, n)->Ok_0.contains(e),
    ensures
        has_reason(all, n, e.0, e.1),
    decreases n,
{
    if n > 0 {
        let before = dag_edges(all, n - 1)->Ok_0;
        let mid = with_parent(all, n - 1, before)->Ok_0;
        let links = all[n - 1].dataset.links.len() as int;
        if before.contains(e) {
            law_every_edge_has_a_reason(all, n - 1, e);
        } else if mid.contains(e) {
            let inc = all[n - 1].dataset.include_spec->0;
            lemma_dataset(all, inc.resolved->0, 0);
            let t = dataset_position(all, inc.resolved->0, 0)->0;
            lemma_with_edge(before, n - 1, t, e);
        } else {
            lemma_links_reason(all, n - 1, mid, links, e);
        }
    }
}

proof fn lemma_links_fail(
    all: Seq<DatasetEntryModel>,
    i: int,
    edges: Seq<(int, int)>,
    l: int,
)
    requires
        0 <= i < all.len(),
        0 <= l <= all[i].dataset.links.len(),
    ensures
        with_links(all, i, edges, l) is Err <==> exists|k: int|
            0 <= k < l && leads_nowhere(all, #[trigger] all[i].dataset.links[k]),
    decreases l,
{
    if l > 0 {
        lemma_links_fail(all, i, edges, l - 1);
        let inc = all[i].dataset.links[l - 1];
        if inc.resolved is Some {
            lemma_dataset(all, inc.resolved->0, 0);
        }
        assert(leads_nowhere(all, all[i].dataset.links[l - 1]) <==> inc.resolved is None
            || dataset_position(all, inc.resolved->0, 0) is None);
    }
}

/// Some reference of the dataset leads nowhere.
pub open spec fn is_stray(all: Seq<DatasetEntryModel>, i: int) -> bool {
    ||| all[i].dataset.include_spec is Some && leads_nowhere(all, all[i].dataset.include_spec->0)
    ||| exists|k: int|
        0 <= k < all[i].dataset.links.len() && leads_nowhere(
            all,
            #[trigger] all[i].dataset.links[k],
        )
}

/// The graph cannot be built exactly where an include or a link leads nowhere.
pub proof fn law_stray_references_are_refused(all: Seq<DatasetEntryModel>, n: int)
    requires
        0 <= n <= all.len(),
    ensures
        dag_edges(all, n) is Err <==> exists|i: int| 0 <= i < n && #[trigger] is_stray(all, i),
    decreases n,
{
    if n > 0 {
        law_stray_references_are_refused(all, n - 1);
        if dag_edges(all, n - 1) is Ok {
            let before = dag_edges(all, n - 1)->Ok_0;
            if let Some(inc) = all[n - 1].dataset.include_spec {
                if inc.resolved is Some {
                    lemma_dataset(all, inc.resolved->0, 0);
                }
            }
            let links = all[n - 1].dataset.links.len() as int;
            if with_parent(all, n - 1, before) is Ok {
                lemma_links_fail(all, n - 1, with_parent(all, n - 1, before)->Ok_0, links);
            }
            assert(dag_edges(all, n) is Err <==> is_stray(all, n - 1));
        }
    }
}

// ---------------------------------------------------------------------------
// Placement of computed columns
// ---------------------------------------------------------------------------

proof fn lemma_late_kept(fields: Seq<FieldModel>, a: int, b: int, name: Seq<char>)
    requires
        0 <= a <= b,
        placement(fields, a).late.contains(name),
    ensures
        placement(fields, b).late.contains(name),
    decreases b,
{
    if a < b {
        lemma_late_kept(fields, a, b - 1, name);
        let before = placement(fields, b - 1).late;
        let now = placement(fields, b).late;
        let i = choose|i: int| 0 <= i < before.len() && before[i] == name;
        assert(now[i] == name);
    }
}

proof fn lemma_late_has_source(fields: Seq<FieldModel>, n: int, k: int)
    requires
        0 <= n <= fields.len() <= usize::MAX,
        0 <= k < placement(fields, n).late.len(),
    ensures
        exists|j: int|
            0 <= j < n && (#[trigger] fields[j]).name == placement(fields, n).late[k] && (
            yields_list(fields[j]) || placement(fields, n).assembly.contains(j as usize)),
    decreases n,
{
    if n > 0 {
        let p = placement(fields, n - 1);
        let q = placement(fields, n);
        if k < p.late.len() {
            lemma_late_has_source(fields, n - 1, k);
            let j = choose|j: int|
                0 <= j < n - 1 && (#[trigger] fields[j]).name == p.late[k] && (yields_list(
                    fields[j],
                ) || p.assembly.contains(j as usize));
            if p.assembly.contains(j as usize) {
                let a = choose|a: int| 0 <= a < p.assembly.len() && p.assembly[a] == j as usize;
                assert(q.assembly[a] == j as usize);
            }
            assert(fields[j].name == q.late[k]);
        } else {
            assert(fields[n - 1].name == q.late[k]);
            if !yields_list(fields[n - 1]) {
                assert(q.assembly[p.assembly.len() as int] == (n - 1) as usize);
            }
        }
    }
}

proof fn lemma_assembly_kept(fields: Seq<FieldModel>, a: int, b: int, i: usize)
    requires
        0 <= a <= b,
        placement(fields, a).assembly.contains(i),
    ensures
        placement(fields, b).assembly.contains(i),
    decreases b,
{
    if a < b {
        lemma_assembly_kept(fields, a, b - 1, i);
        let before = placement(fields, b - 1).assembly;
        let now = placement(fields, b).assembly;
        let k = choose|k: int| 0 <= k < before.len() && before[k] == i;
        assert(now[k] == i);
    }
}

/// A computed column that reads a list declared before it, or a computed column that waits for
/// one, waits for the lists too.
pub proof fn law_readers_of_lists_wait_for_them(
    fields: Seq<FieldModel>,
    n: int,
    j: int,
    i: int,
    a: int,
    b: int,
)
    requires
        0 <= j < i < n <= fields.len() <= usize::MAX,
        fields[i].expression is Some,
        is_word(fields[i].expression->0, a, b),
        fields[j].name == fields[i].expression->0.subrange(a, b),
        (fields[j].expression is None && (fields[j].field_type == Some(FieldType::List)
            || fields[j].content is Some)) || (fields[j].expression is Some && placement(
            fields,
            j + 1,
        ).assembly.contains(j as usize)),
    ensures
        placement(fields, n).assembly.contains(i as usize),
{
    let p = placement(fields, j);
    let q = placement(fields, j + 1);
    let name = fields[j].name;
    if yields_list(fields[j]) {
        assert(q.late[p.late.len() as int] == name);
    } else {
        crate::expr_analysis::law_computed_fields_are_placed_once(fields, j, j as usize);
        assert(!p.assembly.contains(j as usize));
        assert(q.assembly != p.assembly);
        assert(q.late[p.late.len() as int] == name);
    }
    lemma_late_kept(fields, j + 1, i, name);
    let e = fields[i].expression->0;
    law_every_word_is_found(e, a, b);
    let words = names_from(e, 0);
    let k = choose|k: int| 0 <= k < words.len() && words[k] == name;
    assert(reads_any(e, placement(fields, i).late)) by {
        assert(placement(fields, i).late.contains(words[k]));
    }
    let before = placement(fields, i).assembly;
    let now = placement(fields, i + 1).assembly;
    assert(now[before.len() as int] == i as usize);
    lemma_assembly_kept(fields, i + 1, n, i as usize);
}

/// A computed column waits for the lists only where it reads one, or a computed column that waits.
pub proof fn law_only_readers_of_lists_wait(fields: Seq<FieldModel>, i: int)
    requires
        0 <= i < fields.len() <= usize::MAX,
        placement(fields, i + 1).assembly.contains(i as usize),
    ensures
        fields[i].expression is Some,
        exists|k: int, j: int|
            0 <= k < names_from(fields[i].expression->0, 0).len() && 0 <= j < i && #[trigger]
                names_from(fields[i].expression->0, 0)[k] == (#[trigger] fields[j]).name && (
            yields_list(fields[j]) || placement(fields, i).assembly.contains(j as usize)),
{
    crate::expr_analysis::law_computed_fields_are_placed_once(fields, i, i as usize);
    crate::expr_analysis::law_computed_fields_are_placed_once(fields, i + 1, i as usize);
    let p = placement(fields, i);
    let e = fields[i].expression->0;
    let words = names_from(e, 0);
    assert(reads_any(e, p.late));
    let k = choose|k: int| 0 <= k < words.len() && p.late.contains(#[trigger] words[k]);
    let l = choose|l: int| 0 <= l < p.late.len() && p.late[l] == words[k];
    lemma_late_has_source(fields, i, l);
    let j = choose|j: int|
        0 <= j < i && (#[trigger] fields[j]).name == p.late[l] && (yields_list(fields[j])
            || p.assembly.contains(j as usize));
    assert(words[k] == fields[j].name);
}

// ---------------------------------------------------------------------------
// What expressions may read
// ---------------------------------------------------------------------------

/// An expression may read every plain field of a known type, under its name and with its type.
pub proof fn law_typed_fields_can_be_read(fields: Seq<FieldModel>, n: int, i: int)
    requires
        0 <= i < n <= fields.len(),
        is_plain(fields[i]),
        fields[i].field_type is Some,
    ensures
        exists|k: int|
            0 <= k < input_columns(fields, n).len() && (#[trigger] input_columns(fields, n)[k]).kind
                == column_type(fields[i]) && (fields[i].name.len() > 0 ==> input_columns(
                fields,
                n,
            )[k].name == fields[i].name),
    decreases n,
{
    let before = input_columns(fields, n - 1);
    let now = input_columns(fields, n);
    if i < n - 1 {
        law_typed_fields_can_be_read(fields, n - 1, i);
        let k = choose|k: int|
            0 <= k < before.len() && (#[trigger] before[k]).kind == column_type(fields[i]) && (
            fields[i].name.len() > 0 ==> before[k].name == fields[i].name);
        assert(now[k] == before[k]);
    } else {
        assert(now[before.len() as int].kind == column_type(fields[i]));
    }
}

/// The range of a column is the one that its field declares, and a field without a range has none.
pub proof fn law_ranges_are_those_declared(
    fields: Seq<FieldModel>,
    n: int,
    name: Seq<char>,
    r: NumericInterval,
)
    requires
        0 <= n <= fields.len(),
    ensures
        input_ranges(fields, n).contains((name, r)) <==> exists|i: int|
            0 <= i < n && (#[trigger] fields[i]).name == name && fields[i].range is Some
                && fields[i].range->0.min == r.min && fields[i].range->0.max == r.max,
    decreases n,
{
    if n > 0 {
        law_ranges_are_those_declared(fields, n - 1, name, r);
        let before = input_ranges(fields, n - 1);
        let now = input_ranges(fields, n);
        if before.contains((name, r)) {
            let k = choose|k: int| 0 <= k < before.len() && before[k] == (name, r);
            assert(now[k] == (name, r));
        }
        if let Some(x) = fields[n - 1].range {
            assert(now[before.len() as int] == (
                fields[n - 1].name,
                NumericInterval { min: x.min, max: x.max },
            ));
        }
        if now.contains((name, r)) && !before.contains((name, r)) {
            let k = choose|k: int| 0 <= k < now.len() && now[k] == (name, r);
            assert(k == before.len());
        }
    }
}

/// A column takes the type of the last computed field of its name, and of none where no computed
/// field has it.
pub proof fn law_computed_columns_take_their_type(names: Seq<Seq<char>>, name: Seq<char>, n: int)
    requires
        0 <= n <= names.len(),
    ensures
        match last_named(names, name, n) {
            Some(k) => 0 <= k < n && names[k] == name && forall|j: int|
                k < j < n ==> #[trigger] names[j] != name,
            None => forall|j: int| 0 <= j < n ==> #[trigger] names[j] != name,
        },
    decreases n,
{
    if n > 0 {
        law_computed_columns_take_their_type(names, name, n - 1);
    }
}

/// A number that is missing counts as zero.
pub proof fn law_missing_numbers_count_as_zero(n: Option<Num>)
    ensures
        n is Some ==> crate::accumulate::number_or_zero(n) == n->0,
        n is None ==> crate::accumulate::number_or_zero(n).key == 0,
{
}

/// The lists of all rows stand one behind the other, each as long as what it held and what it
/// gets.
pub proof fn law_lists_begin_where_the_last_ends(l: Lists, row: int)
    requires
        0 <= row,
    ensures
        l.offset(0) == 0,
        l.offset(row + 1) == l.offset(row) + l.row_len(row),
        l.pieces(row + 1) == l.pieces(row) + l.row_pieces(row),
        l.existing is Some && aggregate_of(l.groups, row, l.groups.len() as int) is None
            ==> l.row_len(row) == l.existing->0[row],
        l.existing is None && aggregate_of(l.groups, row, l.groups.len() as int) is None
            ==> l.row_len(row) == 0,
{
}

} // verus!
