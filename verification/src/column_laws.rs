//! What the columns of a batch promise: where the values of every field come from, which columns
//! stay and which rows.
use vstd::prelude::*;

use crate::columns::{
    all_but, column_at, computed_fields, filling, junction_at, outer_columns, query_text,
    satisfies, surviving_rows, table_name, table_text, table_texts, visible_columns,
    witness_columns, Cell, KnownBatch, WitnessColumnModel,
};
use crate::constraints::FieldConstraintsModel;
use crate::models::{
    law_joined_ref_splits, ref_parts, FieldModel, Num, RefEntryModel, RefsSpecModel,
    SyntheticDatasetModel, YamlModel,
};
use crate::plan::InheritedModel;
use crate::text::{lemma_first_at, texts};

verus! {

// ---------------------------------------------------------------------------
// Rows that stay
// ---------------------------------------------------------------------------

/// A row stays exactly where the cells of all constrained columns pass.
pub proof fn law_surviving_rows_pass_everywhere(masks: Seq<Vec<bool>>, n: int, row: u32)
    requires
        n <= u32::MAX,
    ensures
        surviving_rows(masks, n).contains(row) <==> row < n && forall|c: int|
            0 <= c < masks.len() ==> (#[trigger] masks[c])@[row as int],
    decreases n,
{
    if n > 0 {
        law_surviving_rows_pass_everywhere(masks, n - 1, row);
        let before = surviving_rows(masks, n - 1);
        let now = surviving_rows(masks, n);
        if before.contains(row) {
            let k = choose|k: int| 0 <= k < before.len() && before[k] == row;
            assert(now[k] == row);
        }
        if row == n - 1 && (forall|c: int|
            0 <= c < masks.len() ==> (#[trigger] masks[c])@[row as int]) {
            assert(now[before.len() as int] == row);
        }
        if now.contains(row) && !before.contains(row) {
            let k = choose|k: int| 0 <= k < now.len() && now[k] == row;
            assert(k == before.len());
        }
    }
}

/// The rows that stay keep their order, and none comes twice.
pub proof fn law_surviving_rows_keep_their_order(masks: Seq<Vec<bool>>, n: int, i: int, j: int)
    requires
        n <= u32::MAX,
        0 <= i < j < surviving_rows(masks, n).len(),
    ensures
        surviving_rows(masks, n)[i] < surviving_rows(masks, n)[j],
    decreases n,
{
    let before = surviving_rows(masks, n - 1);
    if j < before.len() {
        law_surviving_rows_keep_their_order(masks, n - 1, i, j);
    } else {
        assert(before.contains(before[i]));
        law_surviving_rows_pass_everywhere(masks, n - 1, before[i]);
    }
}

/// A text cell passes exactly where it is null or the required text.
pub proof fn law_text_cells_have_the_required_text(
    text: String,
    null: bool,
    fc: FieldConstraintsModel,
    t: Seq<char>,
)
    requires
        fc.value == Some(YamlModel::Text(t)),
    ensures
        satisfies((Cell::Text { text, null }), fc) <==> null || text@ == t,
{
}

/// A flag cell passes exactly where it is null or the required flag.
pub proof fn law_flag_cells_have_the_required_flag(
    flag: bool,
    null: bool,
    fc: FieldConstraintsModel,
    b: bool,
)
    requires
        fc.value == Some(YamlModel::Bool(b)),
    ensures
        satisfies((Cell::Flag { flag, null }), fc) <==> null || flag == b,
{
}

/// A number cell without a required value passes exactly where it lies below no lower bound and
/// above no upper bound; one that is not null and not near a required number never passes.
pub proof fn law_number_cells_lie_within_the_bounds(
    number: Num,
    null: bool,
    near: bool,
    fc: FieldConstraintsModel,
)
    requires
        !number.nan(),
        fc.min is Some ==> !fc.min->0.nan(),
        fc.max is Some ==> !fc.max->0.nan(),
    ensures
        fc.value is None ==> (satisfies((Cell::Number { number, null, near }), fc) <==> {
            &&& fc.min is Some ==> fc.min->0.key <= number.key
            &&& fc.max is Some ==> number.key <= fc.max->0.key
        }),
        satisfies((Cell::Number { number, null, near }), fc) ==> {
            &&& fc.min is Some ==> fc.min->0.key <= number.key
            &&& fc.max is Some ==> number.key <= fc.max->0.key
        },
        fc.value is Some && (fc.value->0 is Int || fc.value->0 is Float) && !null && !near
            ==> !satisfies((Cell::Number { number, null, near }), fc),
{
}

// ---------------------------------------------------------------------------
// Columns that stay
// ---------------------------------------------------------------------------

proof fn lemma_column_at(names: Seq<Seq<char>>, name: Seq<char>, i: int)
    requires
        0 <= i <= names.len(),
    ensures
        match column_at(names, name, i) {
            Some(k) => i <= k < names.len() && names[k] == name && forall|j: int|
                i <= j < k ==> names[j] != name,
            None => forall|j: int| i <= j < names.len() ==> names[j] != name,
        },
    decreases names.len() - i,
{
    if i < names.len() && names[i] != name {
        lemma_column_at(names, name, i + 1);
    }
}

proof fn lemma_all_but(n: int, except: Option<int>, k: usize)
    requires
        n <= usize::MAX,
    ensures
        all_but(n, except).contains(k) <==> k < n && except != Some(k as int),
    decreases n,
{
    if n > 0 {
        lemma_all_but(n - 1, except, k);
        let before = all_but(n - 1, except);
        let now = all_but(n, except);
        if before.contains(k) {
            let j = choose|j: int| 0 <= j < before.len() && before[j] == k;
            assert(now[j] == k);
        }
        if k == n - 1 && except != Some(k as int) {
            assert(now[before.len() as int] == k);
        }
        if now.contains(k) && !before.contains(k) {
            let j = choose|j: int| 0 <= j < now.len() && now[j] == k;
            assert(j == before.len());
        }
    }
}

/// Stripping a sentinel drops the first column of that name and no other.
pub proof fn law_the_sentinel_is_stripped(names: Seq<Seq<char>>, sentinel: Seq<char>, k: usize)
    requires
        names.len() <= usize::MAX,
        k < names.len(),
    ensures
        all_but(names.len() as int, column_at(names, sentinel, 0)).contains(k) <==> !(
        names[k as int] == sentinel && forall|j: int| 0 <= j < k ==> names[j] != sentinel),
{
    lemma_column_at(names, sentinel, 0);
    lemma_all_but(names.len() as int, column_at(names, sentinel, 0), k);
}

/// The records of a list hold exactly the columns that no hidden item has the name of.
pub proof fn law_hidden_items_are_left_out(
    names: Seq<Seq<char>>,
    items: Seq<FieldModel>,
    n: int,
    k: usize,
)
    requires
        0 <= n <= names.len() <= usize::MAX,
    ensures
        visible_columns(names, items, n).contains(k) <==> k < n && !exists|i: int|
            0 <= i < items.len() && (#[trigger] items[i]).hidden && items[i].name
                == names[k as int],
    decreases n,
{
    if n > 0 {
        law_hidden_items_are_left_out(names, items, n - 1, k);
        let before = visible_columns(names, items, n - 1);
        let now = visible_columns(names, items, n);
        if before.contains(k) {
            let j = choose|j: int| 0 <= j < before.len() && before[j] == k;
            assert(now[j] == k);
        }
        if k == n - 1 && now.len() > before.len() {
            assert(now[before.len() as int] == k);
        }
        if now.contains(k) && !before.contains(k) {
            let j = choose|j: int| 0 <= j < now.len() && now[j] == k;
            assert(j == before.len());
        }
    }
}

/// The fields that fill a column are exactly those bound to it whose rows and columns exist.
pub proof fn law_bound_fields_fill_their_column(
    inherited: Seq<InheritedModel>,
    known: Seq<KnownBatch>,
    column: Seq<char>,
    n: int,
    k: usize,
)
    requires
        0 <= n <= inherited.len() <= usize::MAX,
    ensures
        filling(inherited, known, column, n).contains(k) <==> {
            &&& k < n
            &&& inherited[k as int].into_column == column
            &&& exists|b: int|
                0 <= b < known.len() && (#[trigger] known[b]).path@ == inherited[k as int].from_path
                    && texts(known[b].columns@).contains(inherited[k as int].from_column)
        },
    decreases n,
{
    if n > 0 {
        law_bound_fields_fill_their_column(inherited, known, column, n - 1, k);
        let before = filling(inherited, known, column, n - 1);
        let now = filling(inherited, known, column, n);
        if before.contains(k) {
            let j = choose|j: int| 0 <= j < before.len() && before[j] == k;
            assert(now[j] == k);
        }
        if k == n - 1 && now.len() > before.len() {
            assert(now[before.len() as int] == k);
        }
        if now.contains(k) && !before.contains(k) {
            let j = choose|j: int| 0 <= j < now.len() && now[j] == k;
            assert(j == before.len());
        }
    }
}

// ---------------------------------------------------------------------------
// Junctions
// ---------------------------------------------------------------------------

/// A link that a junction may draw from: no field takes its items from it, and its rows exist.
pub open spec fn joins(ds: SyntheticDatasetModel, computed: Seq<Seq<char>>, l: int) -> bool {
    &&& 0 <= l < ds.links.len()
    &&& ds.links[l].resolved is Some
    &&& computed.contains(ds.links[l].resolved->0)
    &&& forall|i: int|
        0 <= i < ds.data.len() && (#[trigger] ds.data[i]).content is Some
            ==> ds.data[i].content->0.from != Some(ds.links[l].reference)
}

/// A junction draws from the first link that it may draw from.
pub proof fn law_junctions_draw_from_the_first_link(
    ds: SyntheticDatasetModel,
    computed: Seq<Seq<char>>,
    from: int,
)
    requires
        0 <= from <= ds.links.len(),
    ensures
        match junction_at(ds, computed, from) {
            Some(l) => from <= l && joins(ds, computed, l) && forall|k: int|
                from <= k < l ==> !joins(ds, computed, k),
            None => forall|k: int| from <= k < ds.links.len() ==> !joins(ds, computed, k),
        },
    decreases ds.links.len() - from,
{
    if from < ds.links.len() {
        law_junctions_draw_from_the_first_link(ds, computed, from + 1);
        if crate::models::feeds_list(ds.data, ds.links[from].reference) {
            let i = choose|i: int|
                0 <= i < ds.data.len() && crate::models::list_source(#[trigger] ds.data[i]) == Some(
                    ds.links[from].reference,
                );
            assert(ds.data[i].content is Some);
            assert(!joins(ds, computed, from));
        } else {
            assert forall|i: int|
                0 <= i < ds.data.len() && (#[trigger] ds.data[i]).content
                    is Some implies ds.data[i].content->0.from != Some(ds.links[from].reference) by {
                assert(crate::models::list_source(ds.data[i]) != Some(ds.links[from].reference));
            }
        }
    }
}

// ---------------------------------------------------------------------------
// References
// ---------------------------------------------------------------------------

/// A field takes its type from the one reference it has, or from the first of its bindings with a
/// target, and from nothing where it has no reference.
pub proof fn law_types_come_from_the_first_reference(f: FieldModel, e: Seq<RefEntryModel>, i: int)
    ensures
        f.refs is None ==> f.type_ref() is None,
        f.refs is Some && f.refs->0 is Single ==> f.type_ref() == Some(f.refs->0->Single_0),
        f.refs == Some(RefsSpecModel::Multi(e)) && 0 <= i < e.len() && (forall|j: int|
            0 <= j < i ==> (#[trigger] e[j]) is Rich && e[j]->Rich_0.target is None) ==> {
            &&& e[i] is Simple ==> f.type_ref() == Some(e[i]->Simple_0)
            &&& e[i] is Rich && e[i]->Rich_0.target is Some ==> f.type_ref()
                == e[i]->Rich_0.target
        },
{
    if f.refs == Some(RefsSpecModel::Multi(e)) && 0 <= i < e.len() && (forall|j: int|
        0 <= j < i ==> (#[trigger] e[j]) is Rich && e[j]->Rich_0.target is None) {
        lemma_first_target(e, 0, i);
    }
}

proof fn lemma_first_target(e: Seq<RefEntryModel>, from: int, i: int)
    requires
        0 <= from <= i < e.len(),
        forall|j: int| from <= j < i ==> (#[trigger] e[j]) is Rich && e[j]->Rich_0.target is None,
    ensures
        crate::models::first_target(e, from) == crate::models::first_target(e, i),
    decreases i - from,
{
    if from < i {
        assert(e[from] is Rich);
        lemma_first_target(e, from + 1, i);
    }
}

// ---------------------------------------------------------------------------
// Columns of list items
// ---------------------------------------------------------------------------

proof fn lemma_no_dot(s: Seq<char>)
    requires
        !s.contains('.'),
    ensures
        ref_parts(s) is None,
{
    lemma_first_at(s, '.', 0);
}

proof fn lemma_items_ok(
    items: Seq<FieldModel>,
    reference: Seq<char>,
    linked: Seq<Seq<char>>,
    a: int,
    b: int,
    k: int,
)
    requires
        0 <= a <= b <= items.len(),
        witness_columns(items, reference, linked, b) is Ok,
    ensures
        witness_columns(items, reference, linked, a) is Ok,
        0 <= k < witness_columns(items, reference, linked, a)->Ok_0.len() ==> k < witness_columns(
            items,
            reference,
            linked,
            b,
        )->Ok_0.len() && witness_columns(items, reference, linked, b)->Ok_0[k] == witness_columns(
            items,
            reference,
            linked,
            a,
        )->Ok_0[k],
    decreases b,
{
    if a < b {
        lemma_items_ok(items, reference, linked, a, b - 1, k);
    }
}

/// An item that refers to a column of the link takes that column of the drawn rows, under its own
/// name.
pub proof fn law_linked_items_are_taken_from_the_link(
    items: Seq<FieldModel>,
    reference: Seq<char>,
    linked: Seq<Seq<char>>,
    n: int,
    i: int,
    column: Seq<char>,
)
    requires
        0 <= i < n <= items.len(),
        !reference.contains('.'),
        items[i].refs == Some(RefsSpecModel::Single(reference + seq!['.'] + column)),
        witness_columns(items, reference, linked, n) is Ok,
    ensures
        linked.contains(column),
        witness_columns(items, reference, linked, n)->Ok_0.contains(
            (WitnessColumnModel::Linked { name: items[i].name, column }),
        ),
{
    law_joined_ref_splits(reference, column);
    lemma_items_ok(items, reference, linked, i + 1, n, 0);
    let upto = witness_columns(items, reference, linked, i + 1)->Ok_0;
    lemma_items_ok(items, reference, linked, i, n, 0);
    let at = upto.len() - 1;
    lemma_items_ok(items, reference, linked, i + 1, n, at);
    assert(upto[at] == (WitnessColumnModel::Linked { name: items[i].name, column }));
    assert(witness_columns(items, reference, linked, n)->Ok_0[at] == upto[at]);
}

/// An item without a reference is generated, from the field as it is written.
pub proof fn law_other_items_are_generated(
    items: Seq<FieldModel>,
    reference: Seq<char>,
    linked: Seq<Seq<char>>,
    n: int,
    i: int,
)
    requires
        0 <= i < n <= items.len(),
        items[i].refs is None,
        witness_columns(items, reference, linked, n) is Ok,
    ensures
        witness_columns(items, reference, linked, n)->Ok_0.contains(
            (WitnessColumnModel::Generated { field: items[i] }),
        ),
{
    lemma_items_ok(items, reference, linked, i + 1, n, 0);
    let upto = witness_columns(items, reference, linked, i + 1)->Ok_0;
    lemma_items_ok(items, reference, linked, i, n, 0);
    let at = upto.len() - 1;
    lemma_items_ok(items, reference, linked, i + 1, n, at);
    assert(upto[at] == (WitnessColumnModel::Generated { field: items[i] }));
    assert(witness_columns(items, reference, linked, n)->Ok_0[at] == upto[at]);
}

/// The drawn rows have no other columns: each is one of an item that refers to the link, or of an
/// item without a reference.
pub proof fn law_drawn_columns_belong_to_items(
    items: Seq<FieldModel>,
    reference: Seq<char>,
    linked: Seq<Seq<char>>,
    n: int,
    k: int,
)
    requires
        0 <= n <= items.len(),
        witness_columns(items, reference, linked, n) is Ok,
        0 <= k < witness_columns(items, reference, linked, n)->Ok_0.len(),
    ensures
        exists|i: int|
            0 <= i < n && match witness_columns(items, reference, linked, n)->Ok_0[k] {
                WitnessColumnModel::Linked { name, column } => (#[trigger] items[i]).name == name
                    && items[i].type_ref() == Some(reference + seq!['.'] + column)
                    && linked.contains(column),
                WitnessColumnModel::Generated { field } => items[i] == field && field.type_ref()
                    is None,
            },
    decreases n,
{
    lemma_items_ok(items, reference, linked, n - 1, n, k);
    let before = witness_columns(items, reference, linked, n - 1)->Ok_0;
    if k < before.len() {
        law_drawn_columns_belong_to_items(items, reference, linked, n - 1, k);
    } else {
        let f = items[n - 1];
        if f.type_ref() is Some {
            crate::models::law_ref_parts_join(f.type_ref()->0);
        }
        assert(items[n - 1].name == f.name);
    }
}

/// A list cannot be drawn exactly where an item refers to a column of the link that the link does
/// not have.
pub proof fn law_missing_linked_columns_are_refused(
    items: Seq<FieldModel>,
    reference: Seq<char>,
    linked: Seq<Seq<char>>,
    n: int,
)
    requires
        0 <= n <= items.len(),
        !reference.contains('.'),
    ensures
        witness_columns(items, reference, linked, n) is Err <==> exists|i: int|
            0 <= i < n && misses(#[trigger] items[i], reference, linked),
    decreases n,
{
    if n > 0 {
        law_missing_linked_columns_are_refused(items, reference, linked, n - 1);
        let f = items[n - 1];
        if f.type_ref() is Some {
            crate::models::law_ref_parts_join(f.type_ref()->0);
        }
        if misses(f, reference, linked) {
            let c = choose|c: Seq<char>|
                f.type_ref() == Some(reference + seq!['.'] + c) && !#[trigger] linked.contains(c);
            law_joined_ref_splits(reference, c);
        }
    }
}

/// The field refers to a column of the link that is not there.
pub open spec fn misses(f: FieldModel, reference: Seq<char>, linked: Seq<Seq<char>>) -> bool {
    exists|c: Seq<char>|
        f.type_ref() == Some(reference + seq!['.'] + c) && !#[trigger] linked.contains(c)
}

proof fn lemma_outer_ok(
    items: Seq<FieldModel>,
    drawn: Seq<Seq<char>>,
    staging: Seq<Seq<char>>,
    a: int,
    b: int,
    k: int,
)
    requires
        0 <= a <= b <= items.len(),
        outer_columns(items, drawn, staging, b) is Ok,
    ensures
        outer_columns(items, drawn, staging, a) is Ok,
        0 <= k < outer_columns(items, drawn, staging, a)->Ok_0.len() ==> k < outer_columns(
            items,
            drawn,
            staging,
            b,
        )->Ok_0.len() && outer_columns(items, drawn, staging, b)->Ok_0[k] == outer_columns(
            items,
            drawn,
            staging,
            a,
        )->Ok_0[k],
    decreases b,
{
    if a < b {
        lemma_outer_ok(items, drawn, staging, a, b - 1, k);
    }
}

/// An item that the drawn rows have no column for takes the column that it refers to of the row
/// that has the list, whether or not the reference names a dataset.
pub proof fn law_outer_items_are_taken_from_the_row(
    items: Seq<FieldModel>,
    drawn: Seq<Seq<char>>,
    staging: Seq<Seq<char>>,
    n: int,
    i: int,
    name: Seq<char>,
    column: Seq<char>,
)
    requires
        0 <= i < n <= items.len(),
        !drawn.contains(items[i].name),
        !name.contains('.'),
        items[i].refs == Some(RefsSpecModel::Single(name + seq!['.'] + column)) || (items[i].refs
            == Some(RefsSpecModel::Single(column)) && !column.contains('.')),
        outer_columns(items, drawn, staging, n) is Ok,
    ensures
        staging.contains(column),
        outer_columns(items, drawn, staging, n)->Ok_0.contains((items[i].name, column)),
{
    law_joined_ref_splits(name, column);
    if !column.contains('.') {
        lemma_no_dot(column);
    }
    lemma_outer_ok(items, drawn, staging, i + 1, n, 0);
    let upto = outer_columns(items, drawn, staging, i + 1)->Ok_0;
    lemma_outer_ok(items, drawn, staging, i, n, 0);
    let at = upto.len() - 1;
    lemma_outer_ok(items, drawn, staging, i + 1, n, at);
    assert(upto[at] == (items[i].name, column));
    assert(outer_columns(items, drawn, staging, n)->Ok_0[at] == upto[at]);
}

/// Nothing else is taken of the row that has the list.
pub proof fn law_outer_columns_belong_to_items(
    items: Seq<FieldModel>,
    drawn: Seq<Seq<char>>,
    staging: Seq<Seq<char>>,
    n: int,
    k: int,
)
    requires
        0 <= n <= items.len(),
        outer_columns(items, drawn, staging, n) is Ok,
        0 <= k < outer_columns(items, drawn, staging, n)->Ok_0.len(),
    ensures
        staging.contains((outer_columns(items, drawn, staging, n)->Ok_0[k]).1),
        exists|i: int|
            0 <= i < n && (#[trigger] items[i]).name == (outer_columns(
                items,
                drawn,
                staging,
                n,
            )->Ok_0[k]).0 && items[i].type_ref() is Some && !drawn.contains(items[i].name),
    decreases n,
{
    lemma_outer_ok(items, drawn, staging, n - 1, n, k);
    let before = outer_columns(items, drawn, staging, n - 1)->Ok_0;
    if k < before.len() {
        law_outer_columns_belong_to_items(items, drawn, staging, n - 1, k);
    } else {
        assert(items[n - 1].name == items[n - 1].name);
    }
}

// ---------------------------------------------------------------------------
// Computed columns
// ---------------------------------------------------------------------------

/// Every field with an expression is computed, at the place of its kind among them, and nothing
/// else is.
pub proof fn law_fields_with_an_expression_are_computed(data: Seq<FieldModel>, n: int, i: int)
    requires
        0 <= i < n <= data.len(),
    ensures
        data[i].expression is Some ==> {
            &&& computed_fields(data, i).len() < computed_fields(data, n).len()
            &&& computed_fields(data, n)[computed_fields(data, i).len() as int] == data[i]
        },
    decreases n,
{
    if i < n - 1 {
        law_fields_with_an_expression_are_computed(data, n - 1, i);
    }
}

/// Every computed field is a field of the dataset with an expression.
pub proof fn law_computed_fields_have_an_expression(data: Seq<FieldModel>, n: int, k: int)
    requires
        0 <= n <= data.len(),
        0 <= k < computed_fields(data, n).len(),
    ensures
        computed_fields(data, n)[k].expression is Some,
        exists|i: int| 0 <= i < n && computed_fields(data, n)[k] == #[trigger] data[i],
    decreases n,
{
    if n > 0 {
        if k < computed_fields(data, n - 1).len() {
            law_computed_fields_have_an_expression(data, n - 1, k);
        } else {
            assert(computed_fields(data, n)[k] == data[n - 1]);
        }
    }
}

/// The text stands somewhere in the other.
pub open spec fn occurs_in(part: Seq<char>, whole: Seq<char>) -> bool {
    exists|front: Seq<char>, back: Seq<char>| whole == #[trigger] (front + part + back)
}

proof fn lemma_table_occurs(fields: Seq<FieldModel>, n: int, k: int)
    requires
        0 <= k < n <= fields.len(),
    ensures
        occurs_in(table_text(fields[k], k), table_texts(fields, n)),
    decreases n,
{
    let t = table_text(fields[k], k);
    let whole = table_texts(fields, n);
    if k == n - 1 {
        if n == 1 {
            assert(whole =~= Seq::<char>::empty() + t + Seq::<char>::empty());
        } else {
            assert(whole =~= (table_texts(fields, n - 1) + ", "@) + t + Seq::<char>::empty());
        }
    } else {
        lemma_table_occurs(fields, n - 1, k);
        let part = table_texts(fields, n - 1);
        let (front, back) = choose|front: Seq<char>, back: Seq<char>|
            part == #[trigger] (front + t + back);
        let rest = back + ", "@ + table_text(fields[n - 1], n - 1);
        assert(whole =~= front + t + rest);
    }
}

proof fn lemma_occurs_within(a: Seq<char>, b: Seq<char>, c: Seq<char>)
    requires
        occurs_in(a, b),
        occurs_in(b, c),
    ensures
        occurs_in(a, c),
{
    let (f, g) = choose|f: Seq<char>, g: Seq<char>| b == #[trigger] (f + a + g);
    let (h, k) = choose|h: Seq<char>, k: Seq<char>| c == #[trigger] (h + b + k);
    assert(c =~= (h + f) + a + (g + k));
}

proof fn lemma_body_occurs(f: FieldModel, k: int)
    ensures
        occurs_in(
            " AS (SELECT *, "@ + f.expression->0 + " AS \""@ + f.name + "\" FROM "@ + table_name(k)
                + ")"@,
            table_text(f, k),
        ),
{
    let body = " AS (SELECT *, "@ + f.expression->0 + " AS \""@ + f.name + "\" FROM "@
        + table_name(k) + ")"@;
    assert(table_text(f, k) =~= table_name(k + 1) + body + Seq::<char>::empty());
}

proof fn lemma_tables_occur(data: Seq<FieldModel>)
    requires
        query_text(data) is Some,
    ensures
        ({
            let fields = computed_fields(data, data.len() as int);
            occurs_in(table_texts(fields, fields.len() as int), query_text(data)->0)
        }),
{
    let fields = computed_fields(data, data.len() as int);
    let n = fields.len() as int;
    let part = table_texts(fields, n);
    assert(query_text(data)->0 =~= "WITH "@ + part + (" SELECT * FROM "@ + table_name(n)));
}

/// Every expression of a dataset stands in its query as the column of its name, computed on the
/// table of those before it, and a dataset has a query exactly where it has an expression.
pub proof fn law_every_expression_is_computed(data: Seq<FieldModel>, i: int)
    requires
        0 <= i < data.len(),
    ensures
        data[i].expression is Some ==> query_text(data) is Some && occurs_in(
            " AS (SELECT *, "@ + data[i].expression->0 + " AS \""@ + data[i].name + "\" FROM "@
                + table_name(computed_fields(data, i).len() as int) + ")"@,
            query_text(data)->0,
        ),
        query_text(data) is Some ==> exists|j: int|
            0 <= j < data.len() && (#[trigger] data[j]).expression is Some,
{
    let n = data.len() as int;
    let fields = computed_fields(data, n);
    let m = fields.len() as int;
    if data[i].expression is Some {
        law_fields_with_an_expression_are_computed(data, n, i);
        let k = computed_fields(data, i).len() as int;
        lemma_table_occurs(fields, m, k);
        let body = " AS (SELECT *, "@ + data[i].expression->0 + " AS \""@ + data[i].name
            + "\" FROM "@ + table_name(k) + ")"@;
        lemma_body_occurs(fields[k], k);
        lemma_occurs_within(body, table_text(fields[k], k), table_texts(fields, m));
        lemma_tables_occur(data);
        lemma_occurs_within(body, table_texts(fields, m), query_text(data)->0);
    }
    if query_text(data) is Some {
        law_computed_fields_have_an_expression(data, n, 0);
        let j = choose|j: int| 0 <= j < n && fields[0] == #[trigger] data[j];
        assert(data[j].expression is Some);
    }
}

/// The tables of a query have names of their own, the first of which is `src`.
pub proof fn law_tables_have_their_own_names(a: int, b: int)
    requires
        0 <= a < b,
    ensures
        table_name(0) == "src"@,
        table_name(a) != table_name(b),
{
    reveal_strlit("src");
    reveal_strlit("step");
    if a == 0 {
        assert(table_name(a)[1] == 'r');
        assert(table_name(b)[1] == 't');
    } else {
        let x = crate::text::decimal_text((a - 1) as nat);
        let y = crate::text::decimal_text((b - 1) as nat);
        if table_name(a) == table_name(b) {
            let s = table_name(a);
            let from = "step"@.len() as int;
            assert(s == "step"@ + x);
            assert(s == "step"@ + y);
            assert(s.subrange(from, s.len() as int) =~= x);
            assert(s.subrange(from, s.len() as int) =~= y);
            assert(x == y);
            crate::paths::law_decimal_is_unique((a - 1) as nat, (b - 1) as nat);
        }
    }
}

// ---------------------------------------------------------------------------
// Lists
// ---------------------------------------------------------------------------

/// The drawn rows keep all columns but those that only serve to find rows again.
pub proof fn law_only_bookkeeping_is_stripped(names: Seq<Seq<char>>, n: int, name: Seq<char>)
    requires
        0 <= n <= names.len(),
    ensures
        crate::lists::content_columns(names, n).contains(name) <==> name != "_linked_idx"@ && name
            != "_staging_refs"@ && exists|i: int| 0 <= i < n && #[trigger] names[i] == name,
    decreases n,
{
    if n > 0 {
        law_only_bookkeeping_is_stripped(names, n - 1, name);
        let before = crate::lists::content_columns(names, n - 1);
        let now = crate::lists::content_columns(names, n);
        if before.contains(name) {
            let k = choose|k: int| 0 <= k < before.len() && before[k] == name;
            assert(now[k] == name);
        }
        if now.len() > before.len() {
            assert(now[before.len() as int] == names[n - 1]);
        }
        if now.contains(name) && !before.contains(name) {
            let k = choose|k: int| 0 <= k < now.len() && now[k] == name;
            assert(k == before.len());
        }
    }
}

/// The items of a list field are those of the first field of its name.
pub proof fn law_items_are_those_of_the_field(data: Seq<FieldModel>, i: int)
    requires
        0 <= i < data.len(),
        forall|j: int| 0 <= j < i ==> (#[trigger] data[j]).name != data[i].name,
    ensures
        data[i].content is Some ==> crate::lists::items_of(data, data[i].name)
            == data[i].content->0.item.fields,
        data[i].content is None ==> crate::lists::items_of(data, data[i].name).len() == 0,
{
    lemma_first_field(data, i, 0);
}

proof fn lemma_first_field(data: Seq<FieldModel>, i: int, from: int)
    requires
        0 <= from <= i < data.len(),
        forall|j: int| 0 <= j < i ==> (#[trigger] data[j]).name != data[i].name,
    ensures
        crate::models::field_position(data, data[i].name, from) == Some(i),
    decreases i - from,
{
    if from < i {
        assert(data[from].name != data[i].name);
        lemma_first_field(data, i, from + 1);
    }
}

/// An entry of a list is the projected column, else a record of all columns that are not hidden.
pub proof fn law_entries_are_what_is_projected(
    elements: crate::columns::ListElements,
    items: Seq<FieldModel>,
    names: Seq<Seq<char>>,
    project: Option<Seq<char>>,
    k: usize,
)
    requires
        crate::lists::entry_is(elements, items, names, project),
        names.len() <= usize::MAX,
    ensures
        project is Some ==> elements is Column && elements->Column_0 < names.len()
            && names[elements->Column_0 as int] == project->0,
        project is None ==> elements is Record && (elements->Record_0@.contains(k) <==> k
            < names.len() && !exists|i: int|
            0 <= i < items.len() && (#[trigger] items[i]).hidden && items[i].name
                == names[k as int]),
{
    if project is Some {
        lemma_column_at(names, project->0, 0);
    } else {
        law_hidden_items_are_left_out(names, items, names.len() as int, k);
    }
}

/// A list whose content is a projection holds the column behind the dot, or the item of the name
/// where there is none; a list without a projection holds records.
pub proof fn law_projections_name_a_column(
    c: crate::models::ListContentModel,
    name: Seq<char>,
    column: Seq<char>,
)
    ensures
        c.project is None ==> c.projected() is None && !c.bare_project(),
        !name.contains('.') && c.project == Some(name + seq!['.'] + column) ==> c.projected()
            == Some(column) && !c.bare_project(),
        !column.contains('.') && c.project == Some(column) ==> c.projected() == Some(column)
            && c.bare_project(),
{
    if !name.contains('.') {
        law_joined_ref_splits(name, column);
    }
    if !column.contains('.') {
        lemma_no_dot(column);
    }
}

/// An entry is made of the drawn columns and, behind them, of those of the row that has the list.
pub proof fn law_entries_begin_with_the_drawn_columns(
    items: Seq<FieldModel>,
    drawn: Seq<Seq<char>>,
    staging: Seq<Seq<char>>,
    k: int,
)
    requires
        crate::lists::entry_columns(items, drawn, staging) is Ok,
    ensures
        ({
            let r = crate::lists::entry_columns(items, drawn, staging)->Ok_0;
            let outer = outer_columns(items, drawn, staging, items.len() as int)->Ok_0;
            &&& r.len() == drawn.len() + outer.len()
            &&& 0 <= k < drawn.len() ==> r[k] == drawn[k]
            &&& 0 <= k < outer.len() ==> r[drawn.len() + k] == outer[k].0
        }),
{
}

} // verus!
