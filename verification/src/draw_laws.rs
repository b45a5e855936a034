//! What drawn rows promise: how many each list gets, from which rows, and how often a row may
//! come.
use vstd::prelude::*;

use crate::draws::{
    deduplicates, draws_of, flat_rows, flat_slots, junction_mode, occurrences, repeated, shard,
    shard_draws, shard_mode, shard_rows, shared_mode, slot_draws, slot_tags, slot_wants, slots_of,
    DrawMode, ShardDraw,
};
use crate::generator::count_fits;
use crate::lists::{entries_of, law_lists_have_drawn_lengths};
use crate::models::{CountSpec, IncludeModel, Num};

verus! {

// ---------------------------------------------------------------------------
// How a link draws
// ---------------------------------------------------------------------------

/// A weight of zero.
pub open spec fn is_zero(n: Option<Num>) -> bool {
    n is Some && n->0.key == 0
}

/// A weight above one.
pub open spec fn is_above_one(n: Option<Num>) -> bool {
    n is Some && !n->0.nan() && n->0.key > Num::one().key
}

/// A link that forbids repetition, and only such a link, draws each row once within a list.
pub proof fn law_reinforcement_zero_draws_once(
    link: IncludeModel,
    n: int,
    count: int,
    weighted: Seq<u32>,
    r: Seq<u32>,
)
    ensures
        is_zero(link.reinforcement) <==> shared_mode(link) is Once,
        is_zero(link.reinforcement) <==> shard_mode(link) is Once,
        is_zero(link.reinforcement) && draws_of(shared_mode(link), n, count, weighted, r)
            ==> r.no_duplicates(),
        is_zero(link.reinforcement) && draws_of(shard_mode(link), n, count, weighted, r)
            ==> r.no_duplicates(),
{
}

/// A junction draws each row once where its link forbids repetition or keeps slots apart.
pub proof fn law_junctions_draw_once(link: IncludeModel)
    ensures
        is_zero(link.reinforcement) || is_zero(link.overlap) <==> junction_mode(link) is Once,
        !is_zero(link.overlap) ==> junction_mode(link) == shared_mode(link),
{
}

/// An overlap above one prefers popular rows, with the declared overlap and reinforcement, which
/// is one where none is declared; a reinforcement above one alone clumps; anything else draws all
/// rows alike.
pub proof fn law_weights_are_those_declared(link: IncludeModel)
    requires
        !is_zero(link.reinforcement),
    ensures
        is_above_one(link.overlap) <==> shared_mode(link) is PowerLaw,
        is_above_one(link.overlap) ==> Some(shared_mode(link)->overlap) == link.overlap,
        is_above_one(link.overlap) && link.reinforcement is Some ==> Some(
            shared_mode(link)->PowerLaw_reinforcement,
        ) == link.reinforcement,
        is_above_one(link.overlap) && link.reinforcement is None ==> shared_mode(
            link,
        )->PowerLaw_reinforcement == Num::one(),
        !is_above_one(link.overlap) && is_above_one(link.reinforcement) <==> shared_mode(link)
            is Reinforced,
        !is_above_one(link.overlap) && is_above_one(link.reinforcement) ==> Some(
            shared_mode(link)->Reinforced_reinforcement,
        ) == link.reinforcement,
        is_above_one(link.reinforcement) <==> shard_mode(link) is Reinforced,
        is_above_one(link.reinforcement) ==> Some(shard_mode(link)->Reinforced_reinforcement)
            == link.reinforcement,
        !is_above_one(link.reinforcement) <==> shard_mode(link) is Uniform,
{
}

/// Drawn rows exist, are as many as asked for, and are those of the weights where there are some.
pub proof fn law_drawn_rows_exist(
    mode: DrawMode,
    n: int,
    count: int,
    weighted: Seq<u32>,
    r: Seq<u32>,
    i: int,
)
    requires
        draws_of(mode, n, count, weighted, r),
    ensures
        r.len() == count,
        0 <= i < count ==> r[i] < n,
        mode is PowerLaw || mode is Reinforced ==> r == weighted,
        mode is Once ==> r.no_duplicates(),
{
}

// ---------------------------------------------------------------------------
// How many a list gets
// ---------------------------------------------------------------------------

/// A slot gets what it wants, unless it must not repeat rows and there are too few; it never gets
/// more.
pub proof fn law_slots_get_what_they_want(mode: DrawMode, wanted: usize, available: usize)
    ensures
        slot_draws(mode, wanted, available) <= wanted,
        wanted <= available || !(mode is Once) ==> slot_draws(mode, wanted, available) == wanted,
        mode is Once ==> slot_draws(mode, wanted, available) <= available,
        mode is Once && wanted > available ==> slot_draws(mode, wanted, available) == available,
{
}

/// The counts of all slots are what each one gets, and nothing where there is nothing to draw.
pub proof fn law_counts_are_what_slots_want(mode: DrawMode, n: int, wanted: Seq<usize>, i: int)
    requires
        0 <= n <= usize::MAX,
        0 <= i < wanted.len(),
    ensures
        slot_wants(mode, n, wanted).len() == wanted.len(),
        n == 0 ==> slot_wants(mode, n, wanted)[i] == 0,
        n > 0 && (wanted[i] <= n || !(mode is Once)) ==> slot_wants(mode, n, wanted)[i] == wanted[i],
        mode is Once ==> slot_wants(mode, n, wanted)[i] <= n,
        slot_wants(mode, n, wanted)[i] <= wanted[i],
{
}

/// Where a count that fits the declared cardinality is wanted for every row, and the pool is large
/// enough, the list of every row has a length that fits the cardinality.
pub proof fn law_list_lengths_fit_the_cardinality(
    c: CountSpec,
    mode: DrawMode,
    n: int,
    wanted: Seq<usize>,
    rounded: Seq<i64>,
    rows: Seq<u32>,
    unique: Seq<u32>,
    refs: Seq<Vec<u32>>,
    entry_slots: Seq<u32>,
    entry_rows: Seq<u32>,
    i: int,
)
    requires
        0 < n <= usize::MAX,
        0 <= i < wanted.len() <= u32::MAX,
        rounded.len() == wanted.len(),
        count_fits(c, rounded[i], wanted[i]),
        mode is Once ==> wanted[i] <= n,
        rows.len() == slot_tags(0, slot_wants(mode, n, wanted), wanted.len() as int).len(),
        deduplicates(
            rows,
            slot_tags(0, slot_wants(mode, n, wanted), wanted.len() as int),
            rows.len() as int,
            unique,
            refs,
        ),
        entries_of(refs, entry_slots, entry_rows),
    ensures
        0 <= occurrences(entry_slots, i, entry_slots.len() as int) <= usize::MAX,
        count_fits(
            c,
            rounded[i],
            occurrences(entry_slots, i, entry_slots.len() as int) as usize,
        ),
{
    law_lists_have_drawn_lengths(
        slot_wants(mode, n, wanted),
        rows,
        unique,
        refs,
        entry_slots,
        entry_rows,
        i,
    );
}

// ---------------------------------------------------------------------------
// Shards
// ---------------------------------------------------------------------------

/// Shards of `q` rows that fit among the eligible ones have exactly `q` rows, one behind the
/// other.
pub proof fn law_shards_are_even(slot: int, q: int, n: int)
    requires
        0 <= slot,
        0 <= q,
        (slot + 1) * q <= n,
    ensures
        shard(slot, q, n).0 == slot * q,
        shard(slot, q, n).1 == q,
{
    assert((slot + 1) * q == slot * q + q) by (nonlinear_arith);
}

/// What a slot draws from its shard lies in the shard: each drawn row is a row of the shard that
/// is left.
pub proof fn law_shard_draws_stay_in_the_shard(start: int, d: ShardDraw, len: int, i: int)
    requires
        0 <= start,
        start + len <= u32::MAX,
        0 <= i < d.samples@.len(),
        d.samples@[i] < d.surviving@.len(),
        d.surviving@[d.samples@[i] as int] < len,
    ensures
        shard_rows(start, d).len() == d.samples@.len(),
        start <= shard_rows(start, d)[i] < start + len,
        shard_rows(start, d)[i] == start + d.surviving@[d.samples@[i] as int],
{
}

/// A slot draws from its shard what it wants, nothing where nothing is left of it.
pub proof fn law_shard_counts_are_what_slots_want(mode: DrawMode, wanted: usize, left: usize)
    ensures
        left == 0 ==> shard_draws(mode, wanted as int, left as int) == 0,
        left > 0 && (wanted <= left || !(mode is Once)) ==> shard_draws(
            mode,
            wanted as int,
            left as int,
        ) == wanted,
        shard_draws(mode, wanted as int, left as int) <= wanted,
        mode is Once ==> shard_draws(mode, wanted as int, left as int) <= left,
{
}

// ---------------------------------------------------------------------------
// From draws to lists
// ---------------------------------------------------------------------------

proof fn lemma_slot_listed(rows: Seq<u32>, slots: Seq<u32>, row: u32, n: int, k: int)
    requires
        0 <= k < n <= rows.len(),
        slots.len() == rows.len(),
        rows[k] == row,
    ensures
        slots_of(rows, slots, row, n).contains(slots[k]),
    decreases n,
{
    let before = slots_of(rows, slots, row, n - 1);
    let now = slots_of(rows, slots, row, n);
    if k < n - 1 {
        lemma_slot_listed(rows, slots, row, n - 1, k);
        let a = choose|a: int| 0 <= a < before.len() && before[a] == slots[k];
        assert(now[a] == slots[k]);
    } else {
        assert(now[before.len() as int] == slots[k]);
    }
}

proof fn lemma_flat_pair(refs: Seq<Vec<u32>>, n: int, u: int, a: int) -> (p: int)
    requires
        0 <= u < n <= refs.len(),
        0 <= a < refs[u]@.len(),
    ensures
        0 <= p < flat_slots(refs, n).len(),
        flat_slots(refs, n).len() == flat_rows(refs, n).len(),
        flat_slots(refs, n)[p] == refs[u]@[a],
        flat_rows(refs, n)[p] == u as u32,
    decreases n,
{
    lemma_flat_lens(refs, n - 1);
    lemma_flat_lens(refs, n);
    if u < n - 1 {
        let p = lemma_flat_pair(refs, n - 1, u, a);
        assert(flat_slots(refs, n)[p] == flat_slots(refs, n - 1)[p]);
        assert(flat_rows(refs, n)[p] == flat_rows(refs, n - 1)[p]);
        p
    } else {
        let p = flat_slots(refs, n - 1).len() + a;
        assert(flat_slots(refs, n)[p] == refs[u]@[a]);
        assert(flat_rows(refs, n)[p] == repeated((n - 1) as u32, refs[n - 1]@.len())[a]);
        p
    }
}

proof fn lemma_flat_lens(refs: Seq<Vec<u32>>, n: int)
    requires
        n <= refs.len(),
    ensures
        flat_slots(refs, n).len() == flat_rows(refs, n).len(),
    decreases n,
{
    if n > 0 {
        lemma_flat_lens(refs, n - 1);
    }
}

proof fn lemma_all_positions(order: Seq<u32>, n: int, p: int)
    requires
        order.len() == n,
        order.no_duplicates(),
        forall|i: int| 0 <= i < order.len() ==> #[trigger] order[i] < n,
        0 <= p < n,
    ensures
        exists|e: int| 0 <= e < n && #[trigger] order[e] == p,
{
    let seen = order.map_values(|x: u32| x as int);
    assert(seen.no_duplicates()) by {
        assert forall|i: int, j: int|
            0 <= i < seen.len() && 0 <= j < seen.len() && i != j implies seen[i] != seen[j] by {
            assert(order[i] != order[j]);
        }
    }
    seen.unique_seq_to_set();
    let all = vstd::set_lib::set_int_range(0, n);
    vstd::set_lib::lemma_int_range(0, n);
    assert(seen.to_set().subset_of(all)) by {
        assert forall|x: int| seen.to_set().contains(x) implies all.contains(x) by {
            let i = choose|i: int| 0 <= i < seen.len() && seen[i] == x;
            assert(order[i] < n);
        }
    }
    vstd::set_lib::lemma_subset_equality(seen.to_set(), all);
    assert(all.contains(p));
    assert(seen.contains(p));
    let e = choose|e: int| 0 <= e < seen.len() && seen[e] == p;
    assert(order[e] == p);
}

/// Every row that was drawn reaches the list that it was drawn for: some entry of the list of its
/// slot is that row.
pub proof fn law_drawn_rows_reach_their_list(
    rows: Seq<u32>,
    slots: Seq<u32>,
    unique: Seq<u32>,
    refs: Seq<Vec<u32>>,
    entry_slots: Seq<u32>,
    entry_rows: Seq<u32>,
    k: int,
)
    requires
        rows.len() == slots.len(),
        refs.len() <= u32::MAX,
        deduplicates(rows, slots, rows.len() as int, unique, refs),
        entries_of(refs, entry_slots, entry_rows),
        0 <= k < rows.len(),
    ensures
        exists|e: int|
            0 <= e < entry_slots.len() && #[trigger] entry_slots[e] == slots[k]
                && unique[entry_rows[e] as int] == rows[k],
{
    assert(unique.contains(rows[k]));
    let u = choose|u: int| 0 <= u < unique.len() && unique[u] == rows[k];
    assert(refs[u]@ == slots_of(rows, slots, unique[u], rows.len() as int));
    lemma_slot_listed(rows, slots, rows[k], rows.len() as int, k);
    let a = choose|a: int| 0 <= a < refs[u]@.len() && refs[u]@[a] == slots[k];
    let n = refs.len() as int;
    let p = lemma_flat_pair(refs, n, u, a);
    let flat = flat_slots(refs, n);
    let order = choose|order: Seq<u32>|
        {
            &&& #[trigger] crate::draws::ascends(order, flat)
            &&& entry_slots == crate::draws::picked(flat, order)
            &&& entry_rows == crate::draws::picked(flat_rows(refs, n), order)
        };
    lemma_all_positions(order, flat.len() as int, p);
    let e = choose|e: int| 0 <= e < flat.len() && #[trigger] order[e] == p;
    assert(entry_slots[e] == flat[p]);
    assert(entry_rows[e] == flat_rows(refs, n)[p]);
}

// ---------------------------------------------------------------------------
// Draws of many slots
// ---------------------------------------------------------------------------

/// A link keeps the rows of different slots apart exactly where its overlap is zero.
pub proof fn law_overlap_zero_keeps_slots_apart(link: IncludeModel)
    ensures
        crate::draws::exclusive(link) <==> is_zero(link.overlap),
{
}

/// All rows may be drawn where no ratio is declared; else so many as the ratio makes, but no more
/// than there are and at least one where there is one.
pub proof fn law_eligible_rows_follow_the_ratio(linked_rows: nat, n: nat)
    ensures
        crate::models::eligible_rows(linked_rows, None) == linked_rows,
        1 <= n <= linked_rows ==> crate::models::eligible_rows(linked_rows, Some(n)) == n,
        n > linked_rows ==> crate::models::eligible_rows(linked_rows, Some(n)) == linked_rows,
        linked_rows > 0 ==> crate::models::eligible_rows(linked_rows, Some(n)) > 0,
        linked_rows == 0 ==> crate::models::eligible_rows(linked_rows, Some(n)) == 0,
        crate::models::eligible_rows(linked_rows, Some(n)) <= linked_rows,
{
}

proof fn lemma_joined_at(parts: Seq<Seq<u32>>, k: int, i: int, j: int) -> (p: int)
    requires
        0 <= i < k <= parts.len(),
        0 <= j < parts[i].len(),
    ensures
        0 <= p < crate::draws::joined_draws(parts, k).len(),
        crate::draws::joined_draws(parts, k)[p] == parts[i][j],
    decreases k,
{
    if i < k - 1 {
        lemma_joined_at(parts, k - 1, i, j)
    } else {
        crate::draws::joined_draws(parts, k - 1).len() as int + j
    }
}

/// The draws of many slots stand one slot behind the other, none is lost, and each slot draws as
/// many as it is given, from rows that exist.
pub proof fn law_every_slot_draws_its_count(
    mode: DrawMode,
    n: int,
    counts: Seq<usize>,
    weighted: Seq<Vec<u32>>,
    parts: Seq<Seq<u32>>,
    i: int,
    j: int,
)
    requires
        crate::draws::all_draws_of(mode, n, counts, weighted, parts),
        0 <= i < parts.len(),
        0 <= j < counts[i],
    ensures
        parts[i].len() == counts[i],
        parts[i][j] < n,
        mode is Once ==> parts[i].no_duplicates(),
        crate::draws::joined_draws(parts, parts.len() as int).contains(parts[i][j]),
{
    assert(draws_of(mode, n, counts[i] as int, weighted[i]@, parts[i]));
    let p = lemma_joined_at(parts, parts.len() as int, i, j);
    assert(crate::draws::joined_draws(parts, parts.len() as int)[p] == parts[i][j]);
}

/// Slots that draw from shards of their own draw what they want of what is left of the shard, and
/// only from there.
pub proof fn law_every_slot_draws_from_its_shard(
    mode: DrawMode,
    wanted: Seq<usize>,
    surviving: Seq<Vec<u32>>,
    weighted: Seq<Vec<u32>>,
    draws: Seq<ShardDraw>,
    i: int,
    j: int,
)
    requires
        crate::draws::drawn_from_shards(mode, wanted, surviving, weighted, draws),
        surviving.len() == wanted.len(),
        0 <= i < wanted.len(),
        surviving[i]@.len() <= usize::MAX,
    ensures
        draws.len() == wanted.len(),
        draws[i].surviving@ == surviving[i]@,
        surviving[i]@.len() == 0 ==> draws[i].samples@.len() == 0,
        surviving[i]@.len() > 0 && (wanted[i] <= surviving[i]@.len() || !(mode is Once))
            ==> draws[i].samples@.len() == wanted[i],
        0 <= j < draws[i].samples@.len() ==> draws[i].samples@[j] < surviving[i]@.len(),
        mode is Once ==> draws[i].samples@.no_duplicates(),
{
    assert(draws[i].surviving@ == surviving[i]@);
}

/// A whole shard holds each of its positions once.
pub proof fn law_whole_shards_miss_nothing(slot: int, q: int, n: int, x: u32)
    requires
        0 <= shard(slot, q, n).1 <= u32::MAX,
    ensures
        crate::draws::whole_shard(slot, q, n).contains(x) <==> x < shard(slot, q, n).1,
        crate::draws::whole_shard(slot, q, n).no_duplicates(),
{
    let s = crate::draws::whole_shard(slot, q, n);
    if x < shard(slot, q, n).1 {
        assert(s[x as int] == x);
    }
}

} // verus!
