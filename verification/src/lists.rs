//! List columns: what was drawn for a list field becomes one list for each row.
use vstd::prelude::*;
use vstd::relations::injective_on;
use vstd::set_lib::{lemma_int_range, lemma_map_size, lemma_subset_equality, set_int_range};

use crate::columns::{
    column_at, list_elements, outer_columns, outer_model, plan_outer_columns, visible_columns,
    ListElements, OuterColumn,
};
use crate::draws::{
    ascends, deduplicates, flat_rows, flat_slots, occurrences, picked, repeated, rising,
    slot_counts, slot_tags, slots_of, unnest_staging_refs,
};
use crate::message::{said, PartModel, Problem};
use crate::models::{
    field_position, fields_model, find_field, lemma_content_model, Field, FieldModel,
    SyntheticDataset,
};
use crate::text::{same_text, texts};

verus! {

/// A column that only serves to find rows again.
pub open spec fn bookkeeping(name: Seq<char>) -> bool {
    name == "_linked_idx"@ || name == "_staging_refs"@
}

/// The first `n` columns of drawn rows without those that only serve to find rows again.
pub open spec fn content_columns(names: Seq<Seq<char>>, n: int) -> Seq<Seq<char>>
    decreases n,
{
    if n <= 0 {
        Seq::empty()
    } else if bookkeeping(names[n - 1]) {
        content_columns(names, n - 1)
    } else {
        content_columns(names, n - 1).push(names[n - 1])
    }
}

/// The columns of drawn rows without those that only serve to find rows again.
pub fn strip_bookkeeping(names: &Vec<String>) -> (r: Vec<String>)
    ensures
        texts(r@) == content_columns(texts(names@), names.len() as int),
{
    let ghost nm = texts(names@);
    let mut r: Vec<String> = Vec::new();
    assert(texts(r@) =~= Seq::empty());
    let mut i: usize = 0;
    while i < names.len()
        invariant
            i <= names.len(),
            nm == texts(names@),
            texts(r@) == content_columns(nm, i as int),
        decreases names.len() - i,
    {
        assert(nm[i as int] == names[i as int]@);
        if !same_text(&names[i], "_linked_idx") && !same_text(&names[i], "_staging_refs") {
            let ghost before = r@;
            r.push(names[i].clone());
            assert(texts(r@) =~= texts(before).push(nm[i as int]));
        }
        i += 1;
    }
    r
}

/// The item fields of a list field; none where there is no such field.
pub open spec fn items_of(data: Seq<FieldModel>, field: Seq<char>) -> Seq<FieldModel> {
    match field_position(data, field, 0) {
        None => Seq::empty(),
        Some(i) => match data[i].content {
            None => Seq::empty(),
            Some(c) => c.item.fields,
        },
    }
}

fn find_items<'a>(data: &'a Vec<Field>, field: &str, none: &'a Vec<Field>) -> (r: &'a Vec<Field>)
    requires
        none.len() == 0,
    ensures
        fields_model(r@) == items_of(fields_model(data@), field@),
{
    let ghost dm = fields_model(data@);
    assert(fields_model(none@) =~= Seq::empty());
    match find_field(data, field) {
        None => none,
        Some(i) => {
            assert(dm[i as int] == data[i as int].model());
            match &data[i].content {
                None => none,
                Some(c) => {
                    proof {
                        lemma_content_model(data[i as int]);
                    }
                    &c.item.fields
                },
            }
        },
    }
}

/// The names of the columns that list items take from the row that has the list.
pub open spec fn outer_names(outer: Seq<(Seq<char>, Seq<char>)>) -> Seq<Seq<char>> {
    Seq::new(outer.len(), |i: int| outer[i].0)
}

/// How the lists of a list field come about.
#[derive(Debug)]
pub struct ListAssembly {
    /// For every entry of all lists, one behind the other, the row that has it.
    pub slots: Vec<u32>,
    /// For every entry, the drawn row that it is.
    pub rows: Vec<u32>,
    /// The length of every row's list.
    pub lengths: Vec<usize>,
    /// Columns that entries take from the row that has the list.
    pub outer: Vec<OuterColumn>,
    /// What an entry is, of the columns of the drawn rows and then the outer ones.
    pub elements: ListElements,
}

/// The columns that an entry can be made of, or the first that is missing.
pub open spec fn entry_columns(
    items: Seq<FieldModel>,
    drawn: Seq<Seq<char>>,
    staging: Seq<Seq<char>>,
) -> Result<Seq<Seq<char>>, Seq<PartModel>> {
    match outer_columns(items, drawn, staging, items.len() as int) {
        Err(e) => Err(e),
        Ok(outer) => Ok(drawn + outer_names(outer)),
    }
}

/// Why the lists of a field cannot be assembled.
pub open spec fn list_problem(
    data: Seq<FieldModel>,
    field: Seq<char>,
    drawn: Seq<Seq<char>>,
    staging: Seq<Seq<char>>,
    project: Option<Seq<char>>,
) -> Option<Seq<PartModel>> {
    match entry_columns(items_of(data, field), drawn, staging) {
        Err(e) => Some(e),
        Ok(names) => match project {
            None => None,
            Some(c) => if column_at(names, c, 0) is Some {
                None
            } else {
                Some(
                    said(
                        "project: column '"@ + c + "' not found in witness for '"@ + field + "'"@,
                    ),
                )
            },
        },
    }
}

/// What an entry is: the projected column, or a record of all columns that are not hidden.
pub open spec fn entry_is(
    elements: ListElements,
    items: Seq<FieldModel>,
    names: Seq<Seq<char>>,
    project: Option<Seq<char>>,
) -> bool {
    match project {
        Some(c) => elements matches ListElements::Column(k) && Some(k as int) == column_at(
            names,
            c,
            0,
        ),
        None => elements matches ListElements::Record(v) && v@ == visible_columns(
            names,
            items,
            names.len() as int,
        ),
    }
}

/// The entries are the pairs of slot and drawn row, by ascending slot.
pub open spec fn entries_of(refs: Seq<Vec<u32>>, slots: Seq<u32>, rows: Seq<u32>) -> bool {
    exists|order: Seq<u32>|
        {
            &&& #[trigger] ascends(order, flat_slots(refs, refs.len() as int))
            &&& slots == picked(flat_slots(refs, refs.len() as int), order)
            &&& rows == picked(flat_rows(refs, refs.len() as int), order)
        }
}

proof fn lemma_flat_below(refs: Seq<Vec<u32>>, bound: int, n: int)
    requires
        0 <= n <= refs.len(),
        forall|i: int, k: int|
            0 <= i < refs.len() && 0 <= k < refs[i]@.len() ==> #[trigger] refs[i]@[k] < bound,
    ensures
        forall|k: int|
            0 <= k < flat_slots(refs, n).len() ==> #[trigger] flat_slots(refs, n)[k] < bound,
    decreases n,
{
    if n > 0 {
        lemma_flat_below(refs, bound, n - 1);
        let before = flat_slots(refs, n - 1);
        let all = flat_slots(refs, n);
        assert forall|k: int| 0 <= k < all.len() implies #[trigger] all[k] < bound by {
            if k < before.len() {
                assert(all[k] == before[k]);
            } else {
                assert(all[k] == refs[n - 1]@[k - before.len()]);
            }
        }
    }
}

fn join_names(drawn: &Vec<String>, outer: &Vec<OuterColumn>) -> (r: Vec<String>)
    ensures
        texts(r@) == texts(drawn@) + outer_names(outer_model(outer@)),
{
    let mut r = crate::text::clone_texts(drawn);
    let ghost om = outer_names(outer_model(outer@));
    let mut i: usize = 0;
    assert(texts(r@) =~= texts(drawn@) + om.subrange(0, 0));
    while i < outer.len()
        invariant
            i <= outer.len(),
            om == outer_names(outer_model(outer@)),
            texts(r@) == texts(drawn@) + om.subrange(0, i as int),
        decreases outer.len() - i,
    {
        let ghost before = r@;
        r.push(outer[i].name.clone());
        i += 1;
        assert(texts(r@) =~= texts(before).push(outer[i - 1].name@));
        assert(texts(r@) =~= texts(drawn@) + om.subrange(0, i as int));
    }
    assert(om.subrange(0, om.len() as int) =~= om);
    r
}

/// How the lists of a list field come about, from the columns of the drawn rows, the columns of
/// the rows that get the lists, and the slots of every drawn row.
pub fn assemble_list(
    dataset: &SyntheticDataset,
    field: &str,
    project_col: Option<&str>,
    witness: &Vec<String>,
    staging: &Vec<String>,
    refs: &Vec<Vec<u32>>,
    staging_n: usize,
) -> (r: Result<ListAssembly, Problem>)
    requires
        refs.len() <= u32::MAX,
        flat_slots(refs@, refs.len() as int).len() <= u32::MAX,
        forall|i: int, k: int|
            0 <= i < refs.len() && 0 <= k < refs@[i]@.len() ==> #[trigger] refs@[i]@[k] < staging_n,
    ensures
        ({
            let data = dataset.model().data;
            let items = items_of(data, field@);
            let drawn = content_columns(texts(witness@), witness.len() as int);
            let project = match project_col {
                Some(c) => Some(c@),
                None => None,
            };
            match list_problem(data, field@, drawn, texts(staging@), project) {
                Some(m) => r matches Err(p) && p.model() == m,
                None => r matches Ok(a) && {
                    &&& outer_columns(items, drawn, texts(staging@), items.len() as int) == Ok::<
                        Seq<(Seq<char>, Seq<char>)>,
                        Seq<PartModel>,
                    >(outer_model(a.outer@))
                    &&& entry_is(
                        a.elements,
                        items,
                        drawn + outer_names(outer_model(a.outer@)),
                        project,
                    )
                    &&& entries_of(refs@, a.slots@, a.rows@)
                    &&& a.slots.len() == a.rows.len()
                    &&& a.lengths.len() == staging_n
                    &&& forall|i: int|
                        0 <= i < staging_n ==> #[trigger] a.lengths[i] == occurrences(
                            a.slots@,
                            i,
                            a.slots.len() as int,
                        )
                },
            }
        }),
{
    let none: Vec<Field> = Vec::new();
    let items = find_items(&dataset.data, field, &none);
    let ghost im = items_of(dataset.model().data, field@);
    assert(im.len() == items.len());
    let drawn = strip_bookkeeping(witness);
    let outer = plan_outer_columns(items, &drawn, staging)?;
    let names = join_names(&drawn, &outer);
    assert(texts(names@).len() == names.len());
    let elements = list_elements(field, &names, items, project_col)?;
    let (slots, rows) = unnest_staging_refs(refs);
    proof {
        lemma_flat_below(refs@, staging_n as int, refs.len() as int);
        let flat = flat_slots(refs@, refs.len() as int);
        let order = choose|order: Seq<u32>|
            {
                &&& #[trigger] ascends(order, flat)
                &&& slots@ == picked(flat, order)
                &&& rows@ == picked(flat_rows(refs@, refs.len() as int), order)
            };
        assert forall|k: int| 0 <= k < slots.len() implies #[trigger] slots[k] < staging_n by {
            assert(order[k] < flat.len());
            assert(slots[k] == flat[order[k] as int]);
        }
        assert(entries_of(refs@, slots@, rows@));
    }
    let lengths = slot_counts(&slots, staging_n);
    Ok(ListAssembly { slots, rows, lengths, outer, elements })
}

// ---------------------------------------------------------------------------
// Lengths of lists
// ---------------------------------------------------------------------------

/// The positions below `n` that hold `v`.
spec fn places(s: Seq<u32>, v: int, n: int) -> Set<int> {
    Set::new(|k: int| 0 <= k < n && s[k] == v)
}

proof fn lemma_occurrences_are_places(s: Seq<u32>, v: int, n: int)
    requires
        0 <= n <= s.len(),
    ensures
        places(s, v, n).finite(),
        places(s, v, n).len() == occurrences(s, v, n),
    decreases n,
{
    if n == 0 {
        assert(places(s, v, 0) =~= Set::empty());
    } else {
        lemma_occurrences_are_places(s, v, n - 1);
        if s[n - 1] == v {
            assert(places(s, v, n) =~= places(s, v, n - 1).insert(n - 1));
        } else {
            assert(places(s, v, n) =~= places(s, v, n - 1));
        }
    }
}

proof fn lemma_order_keeps_occurrences(s: Seq<u32>, order: Seq<u32>, v: int)
    requires
        ascends(order, s),
    ensures
        occurrences(picked(s, order), v, s.len() as int) == occurrences(s, v, s.len() as int),
{
    let n = s.len() as int;
    let t = picked(s, order);
    let f = |k: int| order[k] as int;
    let all = set_int_range(0, n);
    lemma_int_range(0, n);
    assert(injective_on(f, all)) by {
        assert forall|a: int, b: int| all.contains(a) && all.contains(b) && #[trigger] f(a)
            == #[trigger] f(b) implies a == b by {
            assert(order[a] == order[b]);
        }
    }
    let image = all.map(f);
    lemma_map_size(all, image, f);
    assert(image.subset_of(all)) by {
        assert forall|i: int| image.contains(i) implies all.contains(i) by {
            let k = choose|k: int| all.contains(k) && f(k) == i;
            assert(order[k] < s.len());
        }
    }
    lemma_subset_equality(image, all);
    let from = places(t, v, n);
    let to = places(s, v, n);
    lemma_occurrences_are_places(t, v, n);
    lemma_occurrences_are_places(s, v, n);
    assert(from.map(f) =~= to) by {
        assert forall|i: int| to.contains(i) implies from.map(f).contains(i) by {
            assert(all.contains(i));
            assert(image.contains(i));
            let k = choose|k: int| all.contains(k) && f(k) == i;
            assert(t[k] == s[order[k] as int]);
            assert(from.contains(k));
        }
        assert forall|i: int| from.map(f).contains(i) implies to.contains(i) by {
            let k = choose|k: int| from.contains(k) && f(k) == i;
            assert(t[k] == s[order[k] as int]);
            assert(order[k] < s.len());
        }
    }
    assert(injective_on(f, from)) by {
        assert forall|a: int, b: int| from.contains(a) && from.contains(b) && #[trigger] f(a)
            == #[trigger] f(b) implies a == b by {
            assert(order[a] == order[b]);
        }
    }
    lemma_map_size(from, to, f);
}

/// How often `v` occurs in the first `m` lists.
spec fn listed_times(refs: Seq<Vec<u32>>, v: int, m: int) -> int
    decreases m,
{
    if m <= 0 {
        0
    } else {
        listed_times(refs, v, m - 1) + occurrences(refs[m - 1]@, v, refs[m - 1]@.len() as int)
    }
}

proof fn lemma_occurrences_of_sum(a: Seq<u32>, b: Seq<u32>, v: int, n: int)
    requires
        0 <= n <= b.len(),
    ensures
        occurrences(a + b, v, a.len() + n) == occurrences(a, v, a.len() as int) + occurrences(
            b,
            v,
            n,
        ),
    decreases n,
{
    if n > 0 {
        lemma_occurrences_of_sum(a, b, v, n - 1);
        assert((a + b)[a.len() + n - 1] == b[n - 1]);
    } else {
        lemma_occurrences_prefix(a, b, v, a.len() as int);
    }
}

proof fn lemma_occurrences_prefix(a: Seq<u32>, b: Seq<u32>, v: int, n: int)
    requires
        0 <= n <= a.len(),
    ensures
        occurrences(a + b, v, n) == occurrences(a, v, n),
    decreases n,
{
    if n > 0 {
        lemma_occurrences_prefix(a, b, v, n - 1);
        assert((a + b)[n - 1] == a[n - 1]);
    }
}

proof fn lemma_flat_occurrences(refs: Seq<Vec<u32>>, v: int, m: int)
    requires
        0 <= m <= refs.len(),
    ensures
        occurrences(flat_slots(refs, m), v, flat_slots(refs, m).len() as int) == listed_times(
            refs,
            v,
            m,
        ),
    decreases m,
{
    if m > 0 {
        lemma_flat_occurrences(refs, v, m - 1);
        let last = refs[m - 1]@;
        lemma_occurrences_of_sum(flat_slots(refs, m - 1), last, v, last.len() as int);
    }
}

/// How often `v` is among the slots of the first `m` rows, over the first `n` draws.
spec fn drawn_times(
    rows: Seq<u32>,
    slots: Seq<u32>,
    unique: Seq<u32>,
    v: int,
    m: int,
    n: int,
) -> int
    decreases m,
{
    if m <= 0 {
        0
    } else {
        let s = slots_of(rows, slots, unique[m - 1], n);
        drawn_times(rows, slots, unique, v, m - 1, n) + occurrences(s, v, s.len() as int)
    }
}

/// The row is among the first `m`.
spec fn among(unique: Seq<u32>, row: u32, m: int) -> bool {
    exists|i: int| 0 <= i < m && #[trigger] unique[i] == row
}

proof fn lemma_one_more_draw(
    rows: Seq<u32>,
    slots: Seq<u32>,
    unique: Seq<u32>,
    v: int,
    m: int,
    n: int,
)
    requires
        rising(unique),
        0 <= m <= unique.len(),
        0 < n <= rows.len(),
        rows.len() == slots.len(),
    ensures
        drawn_times(rows, slots, unique, v, m, n) == drawn_times(
            rows,
            slots,
            unique,
            v,
            m,
            n - 1,
        ) + if among(unique, rows[n - 1], m) && slots[n - 1] == v {
            1int
        } else {
            0int
        },
    decreases m,
{
    if m > 0 {
        lemma_one_more_draw(rows, slots, unique, v, m - 1, n);
        let before = slots_of(rows, slots, unique[m - 1], n - 1);
        let after = slots_of(rows, slots, unique[m - 1], n);
        if unique[m - 1] == rows[n - 1] {
            assert(after == before.push(slots[n - 1]));
            lemma_occurrences_prefix(before, seq![slots[n - 1]], v, before.len() as int);
            assert(after =~= before + seq![slots[n - 1]]);
            assert(!among(unique, rows[n - 1], m - 1));
            assert(unique[m - 1] == rows[n - 1] && among(unique, rows[n - 1], m));
        } else {
            assert(after == before);
            assert(among(unique, rows[n - 1], m) == among(unique, rows[n - 1], m - 1)) by {
                if among(unique, rows[n - 1], m) {
                    let i = choose|i: int| 0 <= i < m && #[trigger] unique[i] == rows[n - 1];
                    assert(i != m - 1);
                }
            }
        }
    }
}

proof fn lemma_no_draws(rows: Seq<u32>, slots: Seq<u32>, unique: Seq<u32>, v: int, m: int)
    requires
        0 <= m <= unique.len(),
    ensures
        drawn_times(rows, slots, unique, v, m, 0) == 0,
    decreases m,
{
    if m > 0 {
        lemma_no_draws(rows, slots, unique, v, m - 1);
    }
}

proof fn lemma_draws_are_grouped(
    rows: Seq<u32>,
    slots: Seq<u32>,
    unique: Seq<u32>,
    v: int,
    n: int,
)
    requires
        rising(unique),
        0 <= n <= rows.len(),
        rows.len() == slots.len(),
        forall|k: int| 0 <= k < n ==> unique.contains(#[trigger] rows[k]),
    ensures
        drawn_times(rows, slots, unique, v, unique.len() as int, n) == occurrences(slots, v, n),
    decreases n,
{
    if n > 0 {
        lemma_draws_are_grouped(rows, slots, unique, v, n - 1);
        lemma_one_more_draw(rows, slots, unique, v, unique.len() as int, n);
        assert(unique.contains(rows[n - 1]));
        let i = choose|i: int| 0 <= i < unique.len() && unique[i] == rows[n - 1];
        assert(unique[i] == rows[n - 1]);
        assert(among(unique, rows[n - 1], unique.len() as int));
    } else {
        lemma_no_draws(rows, slots, unique, v, unique.len() as int);
    }
}

proof fn lemma_listed_are_drawn(
    rows: Seq<u32>,
    slots: Seq<u32>,
    unique: Seq<u32>,
    refs: Seq<Vec<u32>>,
    v: int,
    m: int,
)
    requires
        deduplicates(rows, slots, rows.len() as int, unique, refs),
        0 <= m <= refs.len(),
    ensures
        listed_times(refs, v, m) == drawn_times(rows, slots, unique, v, m, rows.len() as int),
    decreases m,
{
    if m > 0 {
        lemma_listed_are_drawn(rows, slots, unique, refs, v, m - 1);
        assert(refs[m - 1]@ == slots_of(rows, slots, unique[m - 1], rows.len() as int));
    }
}

/// Nothing that was drawn is lost on its way into the lists: the list of every row is as long as
/// the row drew times.
pub proof fn law_lists_hold_what_was_drawn(
    rows: Seq<u32>,
    slots: Seq<u32>,
    unique: Seq<u32>,
    refs: Seq<Vec<u32>>,
    entry_slots: Seq<u32>,
    entry_rows: Seq<u32>,
    v: int,
)
    requires
        rows.len() == slots.len(),
        deduplicates(rows, slots, rows.len() as int, unique, refs),
        entries_of(refs, entry_slots, entry_rows),
    ensures
        occurrences(entry_slots, v, entry_slots.len() as int) == occurrences(
            slots,
            v,
            slots.len() as int,
        ),
{
    let flat = flat_slots(refs, refs.len() as int);
    let order = choose|order: Seq<u32>|
        {
            &&& #[trigger] ascends(order, flat)
            &&& entry_slots == picked(flat, order)
            &&& entry_rows == picked(flat_rows(refs, refs.len() as int), order)
        };
    lemma_order_keeps_occurrences(flat, order, v);
    lemma_flat_occurrences(refs, v, refs.len() as int);
    lemma_listed_are_drawn(rows, slots, unique, refs, v, refs.len() as int);
    lemma_draws_are_grouped(rows, slots, unique, v, rows.len() as int);
}

proof fn lemma_tag_occurrences(start: int, counts: Seq<usize>, n: int, i: int)
    requires
        0 <= start,
        0 <= n <= counts.len(),
        0 <= i < counts.len(),
        start + counts.len() <= u32::MAX,
    ensures
        occurrences(
            slot_tags(start, counts, n),
            start + i,
            slot_tags(start, counts, n).len() as int,
        ) == if i < n {
            counts[i] as int
        } else {
            0
        },
    decreases n,
{
    if n > 0 {
        lemma_tag_occurrences(start, counts, n - 1, i);
        let before = slot_tags(start, counts, n - 1);
        let tag = (start + n - 1) as u32;
        let c = counts[n - 1] as nat;
        lemma_occurrences_of_sum(before, repeated(tag, c), start + i, c as int);
        lemma_repeated_occurrences(tag, c, start + i, c as int);
    }
}

proof fn lemma_repeated_occurrences(tag: u32, c: nat, v: int, n: int)
    requires
        0 <= n <= c,
    ensures
        occurrences(repeated(tag, c), v, n) == if tag == v {
            n
        } else {
            0
        },
    decreases n,
{
    if n > 0 {
        lemma_repeated_occurrences(tag, c, v, n - 1);
    }
}

/// Lists have the lengths that were drawn for them: where row `i` draws `counts[i]` times, its list
/// has that many entries.
pub proof fn law_lists_have_drawn_lengths(
    counts: Seq<usize>,
    rows: Seq<u32>,
    unique: Seq<u32>,
    refs: Seq<Vec<u32>>,
    entry_slots: Seq<u32>,
    entry_rows: Seq<u32>,
    i: int,
)
    requires
        0 <= i < counts.len() <= u32::MAX,
        rows.len() == slot_tags(0, counts, counts.len() as int).len(),
        deduplicates(
            rows,
            slot_tags(0, counts, counts.len() as int),
            rows.len() as int,
            unique,
            refs,
        ),
        entries_of(refs, entry_slots, entry_rows),
    ensures
        occurrences(entry_slots, i, entry_slots.len() as int) == counts[i],
{
    let slots = slot_tags(0, counts, counts.len() as int);
    law_lists_hold_what_was_drawn(rows, slots, unique, refs, entry_slots, entry_rows, i);
    lemma_tag_occurrences(0, counts, counts.len() as int, i);
}

} // verus!
