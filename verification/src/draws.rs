//! Drawing linked rows for list fields and junctions, and the bookkeeping of what was drawn.
use arrow::array::UInt32Array;
use arrow::compute::sort_to_indices;
use fake::Fake;
use vstd::prelude::*;

use crate::models::{Include, IncludeModel, Num, ONE_KEY};

verus! {

// ---------------------------------------------------------------------------
// Outside calls
// ---------------------------------------------------------------------------

/// Calls `fake::Fake::fake` on the range from `low` up to, but not including, `high`: a random
/// number in the range. It panics on an empty range.
#[verifier::external_body]
pub(crate) fn draw_between(low: u64, high: u64) -> (r: u64)
    requires
        low < high,
    ensures
        low <= r < high,
{
    (low..high).fake::<u64>()
}

/// Calls `fake::Fake::fake` on the range from `low` up to and including `high`: a random number in
/// the range. It panics on an empty range.
#[verifier::external_body]
pub(crate) fn draw_inclusive(low: u64, high: u64) -> (r: u64)
    requires
        low <= high,
    ensures
        low <= r <= high,
{
    (low..=high).fake::<u64>()
}

/// `order` lists every position of `values` once, so that the values ascend.
pub open spec fn ascends(order: Seq<u32>, values: Seq<u32>) -> bool {
    &&& order.len() == values.len()
    &&& order.no_duplicates()
    &&& forall|i: int| 0 <= i < order.len() ==> #[trigger] order[i] < values.len()
    &&& forall|i: int, j: int|
        0 <= i <= j < order.len() ==> values[#[trigger] order[i] as int]
            <= values[#[trigger] order[j] as int]
}

/// Calls `arrow::compute::sort_to_indices` on an array without nulls, ascending and without
/// limit: the positions of the values in sorted order. How equal values are ordered is not
/// stated.
#[verifier::external_body]
pub(crate) fn sorted_positions(values: &Vec<u32>) -> (r: Vec<u32>)
    requires
        values.len() <= u32::MAX,
    ensures
        ascends(r@, values@),
{
    let array = UInt32Array::from(values.clone());
    sort_to_indices(&array, None, None).unwrap().values().to_vec()
}

// ---------------------------------------------------------------------------
// How to draw
// ---------------------------------------------------------------------------

/// How linked rows are drawn.
#[derive(Debug, Clone, Copy, PartialEq, Eq, Structural)]
pub enum DrawMode {
    /// Without replacement.
    Once,
    /// From weights that fall off with the position; every draw multiplies its weight.
    PowerLaw { overlap: Num, reinforcement: Num },
    /// From equal weights; every draw multiplies its weight.
    Reinforced { reinforcement: Num },
    /// With replacement, all rows alike.
    Uniform,
}

/// The reinforcement forbids to draw a row twice.
pub open spec fn once(link: IncludeModel) -> bool {
    link.reinforcement is Some && link.reinforcement->0.key == 0
}

/// The overlap keeps the rows of different slots apart.
pub open spec fn exclusive(link: IncludeModel) -> bool {
    link.overlap is Some && link.overlap->0.key == 0
}

/// A number above one.
pub open spec fn above_one(n: Option<Num>) -> bool {
    n is Some && Num::one().below(n->0)
}

/// How a list field draws from rows that all slots share.
pub open spec fn shared_mode(link: IncludeModel) -> DrawMode {
    if once(link) {
        DrawMode::Once
    } else if above_one(link.overlap) {
        DrawMode::PowerLaw {
            overlap: link.overlap->0,
            reinforcement: match link.reinforcement {
                Some(r) => r,
                None => Num { key: ONE_KEY },
            },
        }
    } else if above_one(link.reinforcement) {
        DrawMode::Reinforced { reinforcement: link.reinforcement->0 }
    } else {
        DrawMode::Uniform
    }
}

/// How a slot draws from a shard of its own.
pub open spec fn shard_mode(link: IncludeModel) -> DrawMode {
    if once(link) {
        DrawMode::Once
    } else if above_one(link.reinforcement) {
        DrawMode::Reinforced { reinforcement: link.reinforcement->0 }
    } else {
        DrawMode::Uniform
    }
}

/// How a junction draws one linked row for each of its rows.
pub open spec fn junction_mode(link: IncludeModel) -> DrawMode {
    if exclusive(link) {
        DrawMode::Once
    } else {
        shared_mode(link)
    }
}

fn key_above_one(n: Option<Num>) -> (r: bool)
    ensures
        r == above_one(n),
{
    match n {
        Some(x) => (Num { key: ONE_KEY }).lt(x),
        None => false,
    }
}

fn is_zero(n: Option<Num>) -> (r: bool)
    ensures
        r == (n is Some && n->0.key == 0),
{
    match n {
        Some(x) => x.key == 0,
        None => false,
    }
}

/// How a list field draws from rows that all slots share.
pub fn shared_draw_mode(link: &Include) -> (r: DrawMode)
    ensures
        r == shared_mode(link.model()),
{
    if is_zero(link.reinforcement) {
        return DrawMode::Once;
    }
    if key_above_one(link.overlap) {
        if let Some(overlap) = link.overlap {
            let reinforcement = match link.reinforcement {
                Some(r) => r,
                None => Num { key: ONE_KEY },
            };
            return DrawMode::PowerLaw { overlap, reinforcement };
        }
    }
    shard_draw_mode(link)
}

/// How a slot draws from a shard of its own.
pub fn shard_draw_mode(link: &Include) -> (r: DrawMode)
    ensures
        r == shard_mode(link.model()),
{
    if is_zero(link.reinforcement) {
        return DrawMode::Once;
    }
    if key_above_one(link.reinforcement) {
        if let Some(reinforcement) = link.reinforcement {
            return DrawMode::Reinforced { reinforcement };
        }
    }
    DrawMode::Uniform
}

/// How a junction draws one linked row for each of its rows.
pub fn junction_draw_mode(link: &Include) -> (r: DrawMode)
    ensures
        r == junction_mode(link.model()),
{
    if is_zero(link.overlap) {
        DrawMode::Once
    } else {
        shared_draw_mode(link)
    }
}

/// True when the rows of different slots are kept apart.
pub fn draws_exclusively(link: &Include) -> (r: bool)
    ensures
        r == exclusive(link.model()),
{
    is_zero(link.overlap)
}

/// How many rows one slot takes of `available` ones, when `wanted` were counted out for it.
pub open spec fn slot_draws(mode: DrawMode, wanted: usize, available: usize) -> usize {
    if mode is Once && wanted > available {
        available
    } else {
        wanted
    }
}

/// How many rows one slot takes.
pub fn limit_draws(mode: DrawMode, wanted: usize, available: usize) -> (r: usize)
    ensures
        r == slot_draws(mode, wanted, available),
{
    match mode {
        DrawMode::Once => if wanted > available {
            available
        } else {
            wanted
        },
        _ => wanted,
    }
}

// ---------------------------------------------------------------------------
// Without replacement
// ---------------------------------------------------------------------------

/// Two positions exchanged.
pub open spec fn swapped(s: Seq<u32>, i: int, j: int) -> Seq<u32> {
    s.update(i, s[j]).update(j, s[i])
}

/// The numbers below `n` after position `i` has been exchanged with `picks[i]`, for the first `k`
/// positions in turn.
pub open spec fn after_swaps(n: nat, picks: Seq<usize>, k: int) -> Seq<u32>
    decreases k,
{
    if k <= 0 {
        Seq::new(n, |i: int| i as u32)
    } else {
        swapped(after_swaps(n, picks, k - 1), k - 1, picks[k - 1] as int)
    }
}

/// Every pick lies at or behind its position, below `n`.
pub open spec fn picks_fit(picks: Seq<usize>, n: nat) -> bool {
    &&& picks.len() <= n
    &&& forall|i: int| 0 <= i < picks.len() ==> i <= #[trigger] picks[i] < n
}

/// Rows that a list of picks stands for, none twice.
pub fn rows_by_picks(linked_n: usize, picks: &Vec<usize>) -> (r: Vec<u32>)
    requires
        linked_n <= u32::MAX,
        picks_fit(picks@, linked_n as nat),
    ensures
        r@ == after_swaps(linked_n as nat, picks@, picks.len() as int).subrange(
            0,
            picks.len() as int,
        ),
        r.len() == picks.len(),
        r@.no_duplicates(),
        forall|i: int| 0 <= i < r.len() ==> #[trigger] r[i] < linked_n,
{
    let mut rows: Vec<u32> = Vec::new();
    let mut i: usize = 0;
    while i < linked_n
        invariant
            i <= linked_n,
            linked_n <= u32::MAX,
            rows@ == Seq::new(i as nat, |k: int| k as u32),
        decreases linked_n - i,
    {
        rows.push(i as u32);
        i += 1;
        assert(rows@ =~= Seq::new(i as nat, |k: int| k as u32));
    }
    let mut k: usize = 0;
    while k < picks.len()
        invariant
            k <= picks.len(),
            picks_fit(picks@, linked_n as nat),
            rows.len() == linked_n,
            rows@ == after_swaps(linked_n as nat, picks@, k as int),
        decreases picks.len() - k,
    {
        let j: usize = picks[k];
        assert(k <= picks@[k as int] < linked_n);
        let a: u32 = rows[k];
        let b: u32 = rows[j];
        rows.set(k, b);
        rows.set(j, a);
        k += 1;
    }
    let ghost whole = rows@;
    proof {
        lemma_swaps_permute(linked_n as nat, picks@, picks.len() as int);
    }
    let mut r: Vec<u32> = Vec::new();
    let mut m: usize = 0;
    while m < picks.len()
        invariant
            m <= picks.len(),
            picks.len() <= rows.len(),
            whole == rows@,
            r@ == whole.subrange(0, m as int),
        decreases picks.len() - m,
    {
        r.push(rows[m]);
        m += 1;
        assert(r@ =~= whole.subrange(0, m as int));
    }
    proof {
        assert forall|x: int, y: int| 0 <= x < r.len() && 0 <= y < r.len() && x != y implies r@[x]
            != r@[y] by {
            assert(r@[x] == whole[x] && r@[y] == whole[y]);
        }
        assert forall|x: int| 0 <= x < r.len() implies #[trigger] r[x] < linked_n by {
            assert(r[x] == whole[x]);
        }
    }
    r
}

proof fn lemma_swaps_permute(n: nat, picks: Seq<usize>, k: int)
    requires
        n <= u32::MAX,
        picks_fit(picks, n),
        0 <= k <= picks.len(),
    ensures
        after_swaps(n, picks, k).len() == n,
        after_swaps(n, picks, k).no_duplicates(),
        forall|i: int| 0 <= i < n ==> #[trigger] after_swaps(n, picks, k)[i] < n,
    decreases k,
{
    if k > 0 {
        lemma_swaps_permute(n, picks, k - 1);
        let s = after_swaps(n, picks, k - 1);
        let j = picks[k - 1] as int;
        assert(k - 1 <= picks[k - 1] < n);
        let t = swapped(s, k - 1, j);
        assert forall|x: int, y: int| 0 <= x < t.len() && 0 <= y < t.len() && x != y implies t[x]
            != t[y] by {
            let px = if x == k - 1 {
                j
            } else if x == j {
                k - 1
            } else {
                x
            };
            let py = if y == k - 1 {
                j
            } else if y == j {
                k - 1
            } else {
                y
            };
            assert(t[x] == s[px] && t[y] == s[py]);
        }
    }
}

/// Draws `count` of `linked_n` rows without replacement.
pub fn sample_linked_without_replacement(linked_n: usize, count: usize) -> (r: Vec<u32>)
    requires
        count <= linked_n <= u32::MAX,
    ensures
        r.len() == count,
        r@.no_duplicates(),
        forall|i: int| 0 <= i < r.len() ==> #[trigger] r[i] < linked_n,
{
    let mut picks: Vec<usize> = Vec::new();
    let mut i: usize = 0;
    while i < count
        invariant
            i <= count <= linked_n <= u32::MAX,
            picks.len() == i,
            forall|k: int| 0 <= k < i ==> k <= #[trigger] picks@[k] < linked_n,
        decreases count - i,
    {
        let j: u64 = draw_between(i as u64, linked_n as u64);
        picks.push(j as usize);
        i += 1;
    }
    rows_by_picks(linked_n, &picks)
}

/// Draws `count` times from `linked_n` rows, all rows alike.
pub fn sample_linked_uniform(linked_n: usize, count: usize) -> (r: Vec<u32>)
    requires
        0 < linked_n <= u32::MAX,
    ensures
        r.len() == count,
        forall|i: int| 0 <= i < r.len() ==> #[trigger] r[i] < linked_n,
{
    let mut r: Vec<u32> = Vec::new();
    let mut i: usize = 0;
    while i < count
        invariant
            i <= count,
            0 < linked_n <= u32::MAX,
            r.len() == i,
            forall|k: int| 0 <= k < i ==> #[trigger] r@[k] < linked_n,
        decreases count - i,
    {
        r.push(draw_between(0, linked_n as u64) as u32);
        i += 1;
    }
    r
}

// ---------------------------------------------------------------------------
// Slots
// ---------------------------------------------------------------------------

/// `v`, `c` times.
pub open spec fn repeated(v: u32, c: nat) -> Seq<u32> {
    Seq::new(c, |i: int| v)
}

/// The slot of every draw, when slot `start + i` draws `counts[i]` times: for the first `n`
/// slots.
pub open spec fn slot_tags(start: int, counts: Seq<usize>, n: int) -> Seq<u32>
    decreases n,
{
    if n <= 0 {
        Seq::empty()
    } else {
        slot_tags(start, counts, n - 1) + repeated((start + n - 1) as u32, counts[n - 1] as nat)
    }
}

/// The slot of every draw.
pub fn tag_draws(slot_start: usize, counts: &Vec<usize>) -> (r: Vec<u32>)
    requires
        slot_start + counts.len() <= u32::MAX,
    ensures
        r@ == slot_tags(slot_start as int, counts@, counts.len() as int),
{
    let mut r: Vec<u32> = Vec::new();
    let mut i: usize = 0;
    while i < counts.len()
        invariant
            i <= counts.len(),
            slot_start + counts.len() <= u32::MAX,
            r@ == slot_tags(slot_start as int, counts@, i as int),
        decreases counts.len() - i,
    {
        let tag: u32 = (slot_start + i) as u32;
        let ghost before = r@;
        let mut c: usize = 0;
        assert(r@ =~= before + repeated(tag, 0));
        while c < counts[i]
            invariant
                i < counts.len(),
                c <= counts[i as int],
                r@ == before + repeated(tag, c as nat),
            decreases counts[i as int] - c,
        {
            r.push(tag);
            c += 1;
            assert(r@ =~= before + repeated(tag, c as nat));
        }
        i += 1;
    }
    r
}

// ---------------------------------------------------------------------------
// Draws of one slot, and of all slots
// ---------------------------------------------------------------------------

/// The mode draws by weights, which change from draw to draw.
pub open spec fn weighted_mode(mode: DrawMode) -> bool {
    mode is PowerLaw || mode is Reinforced
}

/// `r` can be what a slot draws from `n` rows: as many rows as asked for, without replacement none
/// twice, and by weights the rows that the weights gave.
pub open spec fn draws_of(
    mode: DrawMode,
    n: int,
    count: int,
    weighted: Seq<u32>,
    r: Seq<u32>,
) -> bool {
    &&& r.len() == count
    &&& forall|i: int| 0 <= i < r.len() ==> #[trigger] r[i] < n
    &&& mode is Once ==> r.no_duplicates()
    &&& weighted_mode(mode) ==> r == weighted
}

/// The rows drawn by weights are as many as asked for, and exist.
pub open spec fn weighted_fit(mode: DrawMode, n: int, count: int, weighted: Seq<u32>) -> bool {
    weighted_mode(mode) ==> {
        &&& weighted.len() == count
        &&& forall|i: int| 0 <= i < weighted.len() ==> #[trigger] weighted[i] < n
    }
}

/// Draws `count` of `n` rows. What is drawn by weights is handed in.
pub fn draw_rows(mode: DrawMode, n: usize, count: usize, weighted: &Vec<u32>) -> (r: Vec<u32>)
    requires
        n <= u32::MAX,
        count > 0 ==> n > 0,
        mode is Once ==> count <= n,
        weighted_fit(mode, n as int, count as int, weighted@),
    ensures
        draws_of(mode, n as int, count as int, weighted@, r@),
{
    match mode {
        DrawMode::Once => sample_linked_without_replacement(n, count),
        DrawMode::Uniform => if count == 0 {
            Vec::new()
        } else {
            sample_linked_uniform(n, count)
        },
        _ => {
            let mut r: Vec<u32> = Vec::new();
            let mut i: usize = 0;
            while i < weighted.len()
                invariant
                    i <= weighted.len(),
                    r@ == weighted@.subrange(0, i as int),
                decreases weighted.len() - i,
            {
                r.push(weighted[i]);
                i += 1;
                assert(r@ =~= weighted@.subrange(0, i as int));
            }
            assert(r@ =~= weighted@);
            r
        },
    }
}

/// The rows that a junction draws, one for each of its own.
pub fn draw_junction(link: &Include, n_eligible: usize, rows: usize, weighted: &Vec<u32>) -> (r:
    Vec<u32>)
    requires
        n_eligible <= u32::MAX,
        rows > 0 ==> n_eligible > 0,
        junction_mode(link.model()) is Once ==> rows <= n_eligible,
        weighted_fit(junction_mode(link.model()), n_eligible as int, rows as int, weighted@),
    ensures
        draws_of(junction_mode(link.model()), n_eligible as int, rows as int, weighted@, r@),
{
    draw_rows(junction_draw_mode(link), n_eligible, rows, weighted)
}

/// How many rows each slot draws: none from nothing.
pub open spec fn slot_wants(mode: DrawMode, n: int, wanted: Seq<usize>) -> Seq<usize> {
    Seq::new(
        wanted.len(),
        |i: int|
            if n == 0 {
                0
            } else {
                slot_draws(mode, wanted[i], n as usize)
            },
    )
}

/// How many rows each slot draws.
pub fn slot_draw_counts(mode: DrawMode, n_eligible: usize, wanted: &Vec<usize>) -> (r: Vec<usize>)
    ensures
        r@ == slot_wants(mode, n_eligible as int, wanted@),
{
    let mut r: Vec<usize> = Vec::new();
    let mut i: usize = 0;
    while i < wanted.len()
        invariant
            i <= wanted.len(),
            r@ == slot_wants(mode, n_eligible as int, wanted@).subrange(0, i as int),
        decreases wanted.len() - i,
    {
        let c: usize = if n_eligible == 0 {
            0
        } else {
            limit_draws(mode, wanted[i], n_eligible)
        };
        r.push(c);
        i += 1;
        assert(r@ =~= slot_wants(mode, n_eligible as int, wanted@).subrange(0, i as int));
    }
    assert(r@ =~= slot_wants(mode, n_eligible as int, wanted@));
    r
}

/// The draws of the first `k` slots, one behind the other.
pub open spec fn joined_draws(parts: Seq<Seq<u32>>, k: int) -> Seq<u32>
    decreases k,
{
    if k <= 0 {
        Seq::empty()
    } else {
        joined_draws(parts, k - 1) + parts[k - 1]
    }
}

/// The draws of every slot are what its mode allows.
pub open spec fn all_draws_of(
    mode: DrawMode,
    n: int,
    counts: Seq<usize>,
    weighted: Seq<Vec<u32>>,
    parts: Seq<Seq<u32>>,
) -> bool {
    forall|i: int|
        0 <= i < parts.len() ==> draws_of(
            mode,
            n,
            counts[i] as int,
            weighted[i]@,
            #[trigger] parts[i],
        )
}

proof fn lemma_joined_prefix(parts: Seq<Seq<u32>>, last: Seq<u32>, k: int)
    requires
        0 <= k <= parts.len(),
    ensures
        joined_draws(parts.push(last), k) == joined_draws(parts, k),
    decreases k,
{
    if k > 0 {
        lemma_joined_prefix(parts, last, k - 1);
    }
}

proof fn lemma_tags_len(start: int, counts: Seq<usize>, parts: Seq<Seq<u32>>, k: int)
    requires
        0 <= k <= parts.len(),
        parts.len() <= counts.len(),
        forall|i: int| 0 <= i < parts.len() ==> (#[trigger] parts[i]).len() == counts[i],
    ensures
        joined_draws(parts, k).len() == slot_tags(start, counts, k).len(),
    decreases k,
{
    if k > 0 {
        lemma_tags_len(start, counts, parts, k - 1);
    }
}

proof fn lemma_joined_below(parts: Seq<Seq<u32>>, n: int, k: int, i: int)
    requires
        0 <= k <= parts.len(),
        forall|a: int, b: int|
            0 <= a < parts.len() && 0 <= b < parts[a].len() ==> #[trigger] parts[a][b] < n,
        0 <= i < joined_draws(parts, k).len(),
    ensures
        joined_draws(parts, k)[i] < n,
    decreases k,
{
    if k > 0 {
        let before = joined_draws(parts, k - 1);
        if i < before.len() {
            lemma_joined_below(parts, n, k - 1, i);
        } else {
            assert(parts[k - 1][i - before.len()] < n);
        }
    }
}

/// Draws for all slots from the rows that they share: the rows, and the slot of each.
pub fn draw_shared_linked(
    slot_start: usize,
    n_eligible: usize,
    link: &Include,
    wanted: &Vec<usize>,
    weighted: &Vec<Vec<u32>>,
) -> (r: (Vec<u32>, Vec<u32>))
    requires
        n_eligible <= u32::MAX,
        slot_start + wanted.len() <= u32::MAX,
        weighted.len() == wanted.len(),
        forall|i: int|
            0 <= i < wanted.len() ==> weighted_fit(
                shared_mode(link.model()),
                n_eligible as int,
                slot_wants(shared_mode(link.model()), n_eligible as int, wanted@)[i] as int,
                #[trigger] weighted@[i]@,
            ),
    ensures
        ({
            let mode = shared_mode(link.model());
            let counts = slot_wants(mode, n_eligible as int, wanted@);
            &&& r.1@ == slot_tags(slot_start as int, counts, counts.len() as int)
            &&& exists|parts: Seq<Seq<u32>>|
                {
                    &&& parts.len() == wanted.len()
                    &&& #[trigger] all_draws_of(
                        mode,
                        n_eligible as int,
                        counts,
                        weighted@,
                        parts,
                    )
                    &&& r.0@ == joined_draws(parts, parts.len() as int)
                }
        }),
        r.0.len() == r.1.len(),
        forall|i: int| 0 <= i < r.0.len() ==> #[trigger] r.0[i] < n_eligible,
{
    let mode = shared_draw_mode(link);
    let counts = slot_draw_counts(mode, n_eligible, wanted);
    let mut rows: Vec<u32> = Vec::new();
    let ghost mut parts: Seq<Seq<u32>> = Seq::empty();
    let mut i: usize = 0;
    while i < counts.len()
        invariant
            i <= counts.len(),
            n_eligible <= u32::MAX,
            counts.len() == wanted.len(),
            weighted.len() == wanted.len(),
            mode == shared_mode(link.model()),
            counts@ == slot_wants(mode, n_eligible as int, wanted@),
            forall|i: int|
                0 <= i < wanted.len() ==> weighted_fit(
                    mode,
                    n_eligible as int,
                    counts@[i] as int,
                    #[trigger] weighted@[i]@,
                ),
            parts.len() == i,
            all_draws_of(mode, n_eligible as int, counts@, weighted@, parts),
            rows@ == joined_draws(parts, i as int),
        decreases counts.len() - i,
    {
        assert(weighted_fit(mode, n_eligible as int, counts@[i as int] as int, weighted@[i as int]@));
        let drawn = draw_rows(mode, n_eligible, counts[i], &weighted[i]);
        let ghost before = rows@;
        let mut k: usize = 0;
        while k < drawn.len()
            invariant
                k <= drawn.len(),
                rows@ == before + drawn@.subrange(0, k as int),
            decreases drawn.len() - k,
        {
            rows.push(drawn[k]);
            k += 1;
            assert(rows@ =~= before + drawn@.subrange(0, k as int));
        }
        assert(drawn@.subrange(0, drawn.len() as int) =~= drawn@);
        proof {
            lemma_joined_prefix(parts, drawn@, i as int);
            parts = parts.push(drawn@);
        }
        i += 1;
    }
    let slots = tag_draws(slot_start, &counts);
    proof {
        assert forall|a: int| 0 <= a < parts.len() implies (#[trigger] parts[a]).len()
            == counts@[a] by {
            assert(draws_of(mode, n_eligible as int, counts@[a] as int, weighted@[a]@, parts[a]));
        }
        lemma_tags_len(slot_start as int, counts@, parts, parts.len() as int);
        assert forall|a: int, b: int|
            0 <= a < parts.len() && 0 <= b < parts[a].len() implies #[trigger] parts[a][b]
            < n_eligible by {
            assert(draws_of(mode, n_eligible as int, counts@[a] as int, weighted@[a]@, parts[a]));
        }
        assert forall|k: int| 0 <= k < rows.len() implies #[trigger] rows[k] < n_eligible by {
            lemma_joined_below(parts, n_eligible as int, parts.len() as int, k);
        }
    }
    (rows, slots)
}

/// Where the shard of a slot begins, and how many rows it has.
pub open spec fn shard(slot: int, q: int, n: int) -> (int, int) {
    let start = slot * q;
    (
        start,
        if start >= n {
            0
        } else if q < n - start {
            q
        } else {
            n - start
        },
    )
}

/// Where the shard of a slot begins, and how many rows it has.
pub fn shard_of(slot: usize, shard_q: usize, n_eligible: usize) -> (r: (usize, usize))
    requires
        slot * shard_q <= usize::MAX,
    ensures
        (r.0 as int, r.1 as int) == shard(slot as int, shard_q as int, n_eligible as int),
{
    assert(slot * shard_q >= 0) by (nonlinear_arith);
    let start: usize = slot * shard_q;
    let len: usize = if start >= n_eligible {
        0
    } else if shard_q < n_eligible - start {
        shard_q
    } else {
        n_eligible - start
    };
    (start, len)
}

/// The shards of different slots have no row in common, and every shard lies among the eligible
/// rows.
pub proof fn law_shards_are_apart(a: int, b: int, q: int, n: int, x: int, y: int)
    requires
        0 <= a < b,
        0 <= q,
        shard(a, q, n).0 <= x < shard(a, q, n).0 + shard(a, q, n).1,
        shard(b, q, n).0 <= y < shard(b, q, n).0 + shard(b, q, n).1,
    ensures
        x < y,
        x < n,
        y < n,
{
    assert((a + 1) * q <= b * q) by (nonlinear_arith)
        requires
            a + 1 <= b,
            0 <= q,
    ;
    assert((a + 1) * q == a * q + q) by (nonlinear_arith);
}

/// What one slot drew from its shard: the rows of the shard that satisfy the constraints, and
/// which of these were drawn.
#[derive(Debug)]
pub struct ShardDraw {
    pub surviving: Vec<u32>,
    pub samples: Vec<u32>,
}

/// The rows that a shard's samples stand for.
pub open spec fn shard_rows(start: int, d: ShardDraw) -> Seq<u32> {
    Seq::new(
        d.samples@.len(),
        |i: int| (start + d.surviving@[d.samples@[i] as int]) as u32,
    )
}

/// The rows that the first `k` slots drew.
pub open spec fn exclusive_rows(first: int, q: int, draws: Seq<ShardDraw>, k: int) -> Seq<u32>
    decreases k,
{
    if k <= 0 {
        Seq::empty()
    } else {
        exclusive_rows(first, q, draws, k - 1) + shard_rows((first + k - 1) * q, draws[k - 1])
    }
}

/// The slots of the draws of the first `k` slots.
pub open spec fn exclusive_slots(first: int, draws: Seq<ShardDraw>, k: int) -> Seq<u32>
    decreases k,
{
    if k <= 0 {
        Seq::empty()
    } else {
        exclusive_slots(first, draws, k - 1) + repeated(
            (first + k - 1) as u32,
            draws[k - 1].samples@.len(),
        )
    }
}

/// The draws of every slot stay within its shard.
pub open spec fn draws_fit(first: int, q: int, n: int, draws: Seq<ShardDraw>) -> bool {
    forall|k: int, i: int|
        #![trigger draws[k].samples@[i]]
        0 <= k < draws.len() && 0 <= i < draws[k].samples@.len() ==> draws[k].samples@[i]
            < draws[k].surviving@.len() && draws[k].surviving@[draws[k].samples@[i] as int] < shard(
            first + k,
            q,
            n,
        ).1
}

proof fn lemma_draw_in_shard(first: int, q: int, n: int, draws: Seq<ShardDraw>, k: int, i: int)
    requires
        0 <= first,
        0 <= q,
        0 <= n <= u32::MAX,
        0 <= k <= draws.len(),
        first + draws.len() <= u32::MAX,
        draws_fit(first, q, n, draws),
        0 <= i < exclusive_rows(first, q, draws, k).len(),
    ensures
        exclusive_slots(first, draws, k).len() == exclusive_rows(first, q, draws, k).len(),
        first <= exclusive_slots(first, draws, k)[i] < first + k,
        ({
            let s = shard(exclusive_slots(first, draws, k)[i] as int, q, n);
            s.0 <= exclusive_rows(first, q, draws, k)[i] < s.0 + s.1
        }),
    decreases k,
{
    if k > 0 {
        let before = exclusive_rows(first, q, draws, k - 1);
        lemma_slots_len(first, q, draws, k - 1);
        if i < before.len() {
            lemma_draw_in_shard(first, q, n, draws, k - 1, i);
        } else {
            let d = draws[k - 1];
            let at = i - before.len();
            let local = d.surviving@[d.samples@[at] as int];
            assert(d.samples@[at] < d.surviving@.len());
            assert(local < shard(first + k - 1, q, n).1);
            assert((first + k - 1) * q >= 0) by (nonlinear_arith)
                requires
                    first + k - 1 >= 0,
                    q >= 0,
            ;
            assert(exclusive_rows(first, q, draws, k)[i] == shard_rows((first + k - 1) * q, d)[at]);
            assert(exclusive_slots(first, draws, k)[i] == (first + k - 1) as u32);
        }
    }
}

proof fn lemma_slots_len(first: int, q: int, draws: Seq<ShardDraw>, k: int)
    requires
        0 <= k <= draws.len(),
    ensures
        exclusive_slots(first, draws, k).len() == exclusive_rows(first, q, draws, k).len(),
    decreases k,
{
    if k > 0 {
        lemma_slots_len(first, q, draws, k - 1);
    }
}

/// Exclusive draws do not overlap: a row that is drawn twice is drawn for one slot only.
pub proof fn law_exclusive_draws_do_not_overlap(
    first: int,
    q: int,
    n: int,
    draws: Seq<ShardDraw>,
    i: int,
    j: int,
)
    requires
        0 <= first,
        0 <= q,
        0 <= n <= u32::MAX,
        first + draws.len() <= u32::MAX,
        draws_fit(first, q, n, draws),
        0 <= i < exclusive_rows(first, q, draws, draws.len() as int).len(),
        0 <= j < exclusive_rows(first, q, draws, draws.len() as int).len(),
        exclusive_rows(first, q, draws, draws.len() as int)[i] == exclusive_rows(
            first,
            q,
            draws,
            draws.len() as int,
        )[j],
    ensures
        exclusive_slots(first, draws, draws.len() as int)[i] == exclusive_slots(
            first,
            draws,
            draws.len() as int,
        )[j],
{
    let k = draws.len() as int;
    lemma_draw_in_shard(first, q, n, draws, k, i);
    lemma_draw_in_shard(first, q, n, draws, k, j);
    let a = exclusive_slots(first, draws, k)[i] as int;
    let b = exclusive_slots(first, draws, k)[j] as int;
    let x = exclusive_rows(first, q, draws, k)[i] as int;
    if a < b {
        law_shards_are_apart(a, b, q, n, x, x);
    } else if b < a {
        law_shards_are_apart(b, a, q, n, x, x);
    }
}

/// The rows that slots drew from shards of their own, and the slot of every draw.
pub fn draw_exclusive_shards(
    slot_start: usize,
    n_eligible: usize,
    shard_q: usize,
    draws: &Vec<ShardDraw>,
) -> (r: (Vec<u32>, Vec<u32>))
    requires
        n_eligible <= u32::MAX,
        slot_start + draws.len() <= u32::MAX,
        (slot_start + draws.len()) * shard_q <= usize::MAX,
        draws_fit(slot_start as int, shard_q as int, n_eligible as int, draws@),
    ensures
        r.0@ == exclusive_rows(slot_start as int, shard_q as int, draws@, draws.len() as int),
        r.1@ == exclusive_slots(slot_start as int, draws@, draws.len() as int),
        r.0.len() == r.1.len(),
        forall|i: int| 0 <= i < r.0.len() ==> #[trigger] r.0[i] < n_eligible,
{
    let mut rows: Vec<u32> = Vec::new();
    let mut slots: Vec<u32> = Vec::new();
    let mut k: usize = 0;
    while k < draws.len()
        invariant
            k <= draws.len(),
            n_eligible <= u32::MAX,
            slot_start + draws.len() <= u32::MAX,
            (slot_start + draws.len()) * shard_q <= usize::MAX,
            draws_fit(slot_start as int, shard_q as int, n_eligible as int, draws@),
            rows@ == exclusive_rows(slot_start as int, shard_q as int, draws@, k as int),
            slots@ == exclusive_slots(slot_start as int, draws@, k as int),
            rows.len() == slots.len(),
            forall|i: int| 0 <= i < rows.len() ==> #[trigger] rows@[i] < n_eligible,
        decreases draws.len() - k,
    {
        let d = &draws[k];
        assert((slot_start + k) * shard_q <= (slot_start + draws.len()) * shard_q)
            by (nonlinear_arith)
            requires
                k <= draws.len(),
        ;
        let (start, len) = shard_of(slot_start + k, shard_q, n_eligible);
        let ghost rows0 = rows@;
        let ghost slots0 = slots@;
        let tag: u32 = (slot_start + k) as u32;
        let mut i: usize = 0;
        assert(rows@ =~= rows0 + shard_rows(start as int, *d).subrange(0, 0));
        assert(slots@ =~= slots0 + repeated(tag, 0));
        while i < d.samples.len()
            invariant
                i <= d.samples.len(),
                k < draws.len(),
                *d == draws[k as int],
                n_eligible <= u32::MAX,
                draws_fit(slot_start as int, shard_q as int, n_eligible as int, draws@),
                (start as int, len as int) == shard(
                    slot_start + k,
                    shard_q as int,
                    n_eligible as int,
                ),
                rows@ == rows0 + shard_rows(start as int, *d).subrange(0, i as int),
                slots@ == slots0 + repeated(tag, i as nat),
                rows.len() == slots.len(),
                rows0.len() == slots0.len(),
                forall|i: int| 0 <= i < rows.len() ==> #[trigger] rows@[i] < n_eligible,
            decreases d.samples.len() - i,
        {
            let s: u32 = d.samples[i];
            assert(draws@[k as int].samples@[i as int] < d.surviving@.len());
            let at: u32 = d.surviving[s as usize];
            assert(at < len && start + len <= n_eligible);
            let row: u32 = start as u32 + at;
            rows.push(row);
            slots.push(tag);
            i += 1;
            assert(rows@ =~= rows0 + shard_rows(start as int, *d).subrange(0, i as int));
            assert(slots@ =~= slots0 + repeated(tag, i as nat));
        }
        assert(shard_rows(start as int, *d).subrange(0, d.samples@.len() as int) =~= shard_rows(
            start as int,
            *d,
        ));
        k += 1;
    }
    (rows, slots)
}

/// The size of the shards when the eligible rows are shared out over slots.
pub fn shard_size(n_eligible: usize, slots: usize) -> (r: usize)
    ensures
        r == if slots == 0 {
            0
        } else {
            n_eligible / slots
        },
        r * slots <= n_eligible,
{
    if slots == 0 {
        0
    } else {
        proof {
            vstd::arithmetic::div_mod::lemma_fundamental_div_mod(n_eligible as int, slots as int);
            assert(slots * (n_eligible / slots) == (n_eligible / slots) * slots)
                by (nonlinear_arith);
        }
        n_eligible / slots
    }
}

/// All positions of a shard.
pub open spec fn whole_shard(slot: int, q: int, n: int) -> Seq<u32> {
    Seq::new(shard(slot, q, n).1 as nat, |i: int| i as u32)
}

/// All positions of the shards of so many slots.
pub fn whole_shards(slot_start: usize, slots: usize, shard_q: usize, n_eligible: usize) -> (r: Vec<
    Vec<u32>,
>)
    requires
        n_eligible <= u32::MAX,
        slot_start + slots <= usize::MAX,
        (slot_start + slots) * shard_q <= usize::MAX,
    ensures
        r.len() == slots,
        forall|i: int|
            0 <= i < slots ==> (#[trigger] r[i])@ == whole_shard(
                slot_start + i,
                shard_q as int,
                n_eligible as int,
            ),
{
    let mut r: Vec<Vec<u32>> = Vec::new();
    let mut k: usize = 0;
    while k < slots
        invariant
            k <= slots,
            n_eligible <= u32::MAX,
            slot_start + slots <= usize::MAX,
            (slot_start + slots) * shard_q <= usize::MAX,
            r.len() == k,
            forall|i: int|
                0 <= i < k ==> (#[trigger] r[i])@ == whole_shard(
                    slot_start + i,
                    shard_q as int,
                    n_eligible as int,
                ),
        decreases slots - k,
    {
        assert((slot_start + k) * shard_q <= (slot_start + slots) * shard_q) by (nonlinear_arith)
            requires
                k <= slots,
        ;
        let (_, len) = shard_of(slot_start + k, shard_q, n_eligible);
        proof {
            assert((slot_start + k) * shard_q >= 0) by (nonlinear_arith);
        }
        let mut all: Vec<u32> = Vec::new();
        let mut i: usize = 0;
        while i < len
            invariant
                i <= len <= n_eligible <= u32::MAX,
                all@ == Seq::new(i as nat, |j: int| j as u32),
            decreases len - i,
        {
            all.push(i as u32);
            i += 1;
            assert(all@ =~= Seq::new(i as nat, |j: int| j as u32));
        }
        assert(all@ =~= whole_shard(slot_start + k, shard_q as int, n_eligible as int));
        r.push(all);
        k += 1;
    }
    r
}

/// The positions that are left of each shard lie in it.
pub open spec fn survivors_fit(first: int, q: int, n: int, surviving: Seq<Vec<u32>>) -> bool {
    forall|k: int, i: int|
        0 <= k < surviving.len() && 0 <= i < surviving[k]@.len() ==> #[trigger] surviving[k]@[i]
            < shard(first + k, q, n).1
}

/// How often a slot draws from what is left of its shard: not at all where nothing is left.
pub open spec fn shard_draws(mode: DrawMode, wanted: int, left: int) -> int {
    if left == 0 {
        0
    } else {
        slot_draws(mode, wanted as usize, left as usize) as int
    }
}

/// How often each slot draws from what is left of its shard.
pub fn shard_draw_counts(link: &Include, wanted: &Vec<usize>, surviving: &Vec<Vec<u32>>) -> (r: Vec<
    usize,
>)
    requires
        surviving.len() == wanted.len(),
    ensures
        r.len() == wanted.len(),
        forall|i: int|
            0 <= i < r.len() ==> #[trigger] r[i] == shard_draws(
                shard_mode(link.model()),
                wanted[i] as int,
                surviving[i]@.len() as int,
            ),
{
    let mode = shard_draw_mode(link);
    let mut r: Vec<usize> = Vec::new();
    let mut i: usize = 0;
    while i < wanted.len()
        invariant
            i <= wanted.len(),
            surviving.len() == wanted.len(),
            mode == shard_mode(link.model()),
            r.len() == i,
            forall|j: int|
                0 <= j < i ==> #[trigger] r[j] == shard_draws(
                    mode,
                    wanted[j] as int,
                    surviving[j]@.len() as int,
                ),
        decreases wanted.len() - i,
    {
        let left: usize = surviving[i].len();
        let count: usize = if left == 0 { 0 } else { limit_draws(mode, wanted[i], left) };
        r.push(count);
        i += 1;
    }
    r
}

/// Each slot has drawn from what is left of its shard, as often as it may.
pub open spec fn drawn_from_shards(
    mode: DrawMode,
    wanted: Seq<usize>,
    surviving: Seq<Vec<u32>>,
    weighted: Seq<Vec<u32>>,
    draws: Seq<ShardDraw>,
) -> bool {
    &&& draws.len() == wanted.len()
    &&& forall|i: int|
        0 <= i < draws.len() ==> (#[trigger] draws[i]).surviving@ == surviving[i]@ && draws_of(
            mode,
            surviving[i]@.len() as int,
            shard_draws(mode, wanted[i] as int, surviving[i]@.len() as int),
            weighted[i]@,
            draws[i].samples@,
        )
}

/// Draws for every slot from its own shard of the eligible rows, so that no row is drawn for two
/// slots. `surviving` holds the positions that are left of each shard; a slot with none draws
/// nothing. `weighted` holds the draws of slots that draw by weight.
pub fn draw_from_shards(
    slot_start: usize,
    n_eligible: usize,
    shard_q: usize,
    link: &Include,
    wanted: &Vec<usize>,
    surviving: &Vec<Vec<u32>>,
    weighted: &Vec<Vec<u32>>,
) -> (r: (Vec<u32>, Vec<u32>))
    requires
        n_eligible <= u32::MAX,
        slot_start + wanted.len() <= u32::MAX,
        (slot_start + wanted.len()) * shard_q <= usize::MAX,
        surviving.len() == wanted.len(),
        weighted.len() == wanted.len(),
        survivors_fit(slot_start as int, shard_q as int, n_eligible as int, surviving@),
        forall|i: int| 0 <= i < wanted.len() ==> (#[trigger] surviving[i]).len() <= u32::MAX,
        forall|i: int|
            0 <= i < wanted.len() ==> weighted_fit(
                shard_mode(link.model()),
                surviving@[i]@.len() as int,
                shard_draws(
                    shard_mode(link.model()),
                    wanted@[i] as int,
                    surviving@[i]@.len() as int,
                ),
                #[trigger] weighted@[i]@,
            ),
    ensures
        exists|draws: Seq<ShardDraw>|
            {
                &&& #[trigger] drawn_from_shards(
                    shard_mode(link.model()),
                    wanted@,
                    surviving@,
                    weighted@,
                    draws,
                )
                &&& r.0@ == exclusive_rows(
                    slot_start as int,
                    shard_q as int,
                    draws,
                    draws.len() as int,
                )
                &&& r.1@ == exclusive_slots(slot_start as int, draws, draws.len() as int)
            },
        r.0.len() == r.1.len(),
        forall|i: int| 0 <= i < r.0.len() ==> #[trigger] r.0[i] < n_eligible,
        forall|i: int, j: int|
            0 <= i < r.0.len() && 0 <= j < r.0.len() && #[trigger] r.0[i] == #[trigger] r.0[j]
                ==> r.1[i] == r.1[j],
{
    let mode = shard_draw_mode(link);
    let counts = shard_draw_counts(link, wanted, surviving);
    let mut draws: Vec<ShardDraw> = Vec::new();
    let mut i: usize = 0;
    while i < wanted.len()
        invariant
            i <= wanted.len(),
            counts.len() == wanted.len(),
            surviving.len() == wanted.len(),
            weighted.len() == wanted.len(),
            mode == shard_mode(link.model()),
            survivors_fit(slot_start as int, shard_q as int, n_eligible as int, surviving@),
            forall|i: int|
                0 <= i < wanted.len() ==> #[trigger] counts[i] == shard_draws(
                    mode,
                    wanted[i] as int,
                    surviving[i]@.len() as int,
                ),
            forall|i: int| 0 <= i < wanted.len() ==> (#[trigger] surviving[i]).len() <= u32::MAX,
            forall|i: int|
                0 <= i < wanted.len() ==> weighted_fit(
                    mode,
                    surviving@[i]@.len() as int,
                    shard_draws(mode, wanted@[i] as int, surviving@[i]@.len() as int),
                    #[trigger] weighted@[i]@,
                ),
            draws.len() == i,
            forall|j: int|
                0 <= j < i ==> (#[trigger] draws[j]).surviving@ == surviving[j]@ && draws_of(
                    mode,
                    surviving[j]@.len() as int,
                    counts[j] as int,
                    weighted[j]@,
                    draws[j].samples@,
                ),
        decreases wanted.len() - i,
    {
        let left: usize = surviving[i].len();
        assert(weighted_fit(mode, left as int, counts@[i as int] as int, weighted@[i as int]@));
        let samples = draw_rows(mode, left, counts[i], &weighted[i]);
        let kept = surviving[i].clone();
        assert(kept@ =~= surviving[i as int]@);
        draws.push(ShardDraw { surviving: kept, samples });
        i += 1;
    }
    proof {
        assert(drawn_from_shards(mode, wanted@, surviving@, weighted@, draws@));
        assert forall|k: int, j: int|
            #![trigger draws@[k].samples@[j]]
            0 <= k < draws@.len() && 0 <= j < draws@[k].samples@.len() implies draws@[k].samples@[j]
            < draws@[k].surviving@.len() && draws@[k].surviving@[draws@[k].samples@[j] as int]
            < shard(slot_start + k, shard_q as int, n_eligible as int).1 by {
            assert(draws[k].surviving@ == surviving[k]@);
            let at = draws@[k].samples@[j] as int;
            assert(draws@[k].samples@[j] < surviving@[k]@.len());
            assert(surviving@[k]@[at] < shard(
                slot_start + k,
                shard_q as int,
                n_eligible as int,
            ).1);
        }
    }
    let r = draw_exclusive_shards(slot_start, n_eligible, shard_q, &draws);
    proof {
        assert forall|a: int, b: int|
            0 <= a < r.0.len() && 0 <= b < r.0.len() && #[trigger] r.0[a] == #[trigger] r.0[b]
            implies r.1[a] == r.1[b] by {
            law_exclusive_draws_do_not_overlap(
                slot_start as int,
                shard_q as int,
                n_eligible as int,
                draws@,
                a,
                b,
            );
        }
    }
    r
}

// ---------------------------------------------------------------------------
// One witness row for each linked row
// ---------------------------------------------------------------------------

/// The linked row of every draw: a draw is a position among the surviving rows.
pub open spec fn drawn_rows(assignments: Seq<u32>, surviving: Seq<u32>) -> Seq<u32> {
    Seq::new(assignments.len(), |k: int| surviving[assignments[k] as int])
}

/// The slots, in order, of those of the first `n` draws that drew `row`.
pub open spec fn slots_of(rows: Seq<u32>, slots: Seq<u32>, row: u32, n: int) -> Seq<u32>
    decreases n,
{
    if n <= 0 {
        Seq::empty()
    } else if rows[n - 1] == row {
        slots_of(rows, slots, row, n - 1).push(slots[n - 1])
    } else {
        slots_of(rows, slots, row, n - 1)
    }
}

/// The numbers ascend strictly.
pub open spec fn rising(s: Seq<u32>) -> bool {
    forall|i: int, j: int| 0 <= i < j < s.len() ==> #[trigger] s[i] < #[trigger] s[j]
}

/// All entries of the lists together.
pub open spec fn entry_count(s: Seq<Vec<u32>>) -> int
    decreases s.len(),
{
    if s.len() == 0 {
        0
    } else {
        entry_count(s.drop_last()) + s.last()@.len()
    }
}

/// `unique` are the rows of the first `n` draws, once each and ascending, and `refs` the slots
/// that drew each of them.
pub open spec fn deduplicates(
    rows: Seq<u32>,
    slots: Seq<u32>,
    n: int,
    unique: Seq<u32>,
    refs: Seq<Vec<u32>>,
) -> bool {
    &&& unique.len() == refs.len()
    &&& rising(unique)
    &&& forall|i: int|
        0 <= i < refs.len() ==> (#[trigger] refs[i])@ == slots_of(rows, slots, unique[i], n)
            && refs[i]@.len() > 0
    &&& forall|k: int| 0 <= k < n ==> unique.contains(#[trigger] rows[k])
    &&& entry_count(refs) == n
}

proof fn lemma_entry_count_update(s: Seq<Vec<u32>>, i: int, v: Vec<u32>)
    requires
        0 <= i < s.len(),
    ensures
        entry_count(s.update(i, v)) == entry_count(s) - s[i]@.len() + v@.len(),
    decreases s.len(),
{
    let t = s.update(i, v);
    if i == s.len() - 1 {
        assert(t.drop_last() =~= s.drop_last());
    } else {
        assert(t.drop_last() =~= s.drop_last().update(i, v));
        lemma_entry_count_update(s.drop_last(), i, v);
    }
}

proof fn lemma_entry_count_insert(s: Seq<Vec<u32>>, i: int, v: Vec<u32>)
    requires
        0 <= i <= s.len(),
    ensures
        entry_count(s.insert(i, v)) == entry_count(s) + v@.len(),
    decreases s.len(),
{
    let t = s.insert(i, v);
    if i == s.len() {
        assert(t.drop_last() =~= s);
    } else {
        assert(t.drop_last() =~= s.drop_last().insert(i, v));
        assert(t.last() == s.last());
        lemma_entry_count_insert(s.drop_last(), i, v);
    }
}

fn position_of(unique: &Vec<u32>, row: u32) -> (r: usize)
    requires
        rising(unique@),
    ensures
        r <= unique.len(),
        forall|i: int| 0 <= i < r ==> #[trigger] unique[i] < row,
        forall|i: int| r <= i < unique.len() ==> #[trigger] unique[i] >= row,
{
    let mut low: usize = 0;
    let mut high: usize = unique.len();
    while low < high
        invariant
            low <= high <= unique.len(),
            rising(unique@),
            forall|i: int| 0 <= i < low ==> #[trigger] unique[i] < row,
            forall|i: int| high <= i < unique.len() ==> #[trigger] unique[i] >= row,
        decreases high - low,
    {
        let mid: usize = low + (high - low) / 2;
        if unique[mid] < row {
            low = mid + 1;
        } else {
            high = mid;
        }
    }
    low
}

proof fn lemma_slots_empty(rows: Seq<u32>, slots: Seq<u32>, row: u32, n: int)
    requires
        0 <= n <= rows.len(),
        forall|k: int| 0 <= k < n ==> #[trigger] rows[k] != row,
    ensures
        slots_of(rows, slots, row, n).len() == 0,
    decreases n,
{
    if n > 0 {
        lemma_slots_empty(rows, slots, row, n - 1);
    }
}

/// Turns draws into witness rows: one for each linked row that was drawn, with the slots that
/// drew it.
pub fn build_witness_dedup(assignments: &Vec<u32>, slots: &Vec<u32>, surviving: &Vec<u32>) -> (r: (
    Vec<u32>,
    Vec<Vec<u32>>,
))
    requires
        assignments.len() == slots.len(),
        forall|k: int| 0 <= k < assignments.len() ==> #[trigger] assignments[k] < surviving.len(),
    ensures
        deduplicates(
            drawn_rows(assignments@, surviving@),
            slots@,
            assignments.len() as int,
            r.0@,
            r.1@,
        ),
{
    let ghost rows = drawn_rows(assignments@, surviving@);
    let mut unique: Vec<u32> = Vec::new();
    let mut refs: Vec<Vec<u32>> = Vec::new();
    let mut k: usize = 0;
    while k < assignments.len()
        invariant
            k <= assignments.len(),
            assignments.len() == slots.len(),
            rows == drawn_rows(assignments@, surviving@),
            forall|k: int|
                0 <= k < assignments.len() ==> #[trigger] assignments[k] < surviving.len(),
            deduplicates(rows, slots@, k as int, unique@, refs@),
        decreases assignments.len() - k,
    {
        let a: u32 = assignments[k];
        let row: u32 = surviving[a as usize];
        assert(rows[k as int] == row);
        let p: usize = position_of(&unique, row);
        let ghost unique0 = unique@;
        let ghost refs0 = refs@;
        if p < unique.len() && unique[p] == row {
            let mut list: Vec<u32> = Vec::new();
            let old_list = &refs[p];
            let mut m: usize = 0;
            while m < old_list.len()
                invariant
                    m <= old_list.len(),
                    list@ == old_list@.subrange(0, m as int),
                decreases old_list.len() - m,
            {
                list.push(old_list[m]);
                m += 1;
                assert(list@ =~= old_list@.subrange(0, m as int));
            }
            assert(list@ =~= refs0[p as int]@);
            list.push(slots[k]);
            let ghost added = list;
            refs.set(p, list);
            proof {
                lemma_entry_count_update(refs0, p as int, added);
                assert forall|i: int| 0 <= i < refs@.len() implies (#[trigger] refs@[i])@
                    == slots_of(rows, slots@, unique@[i], k + 1) && refs@[i]@.len() > 0 by {
                    assert(refs0[i]@ == slots_of(rows, slots@, unique0[i], k as int));
                    if i != p {
                        assert(unique0[i] != row);
                    }
                }
                assert forall|j: int| 0 <= j < k + 1 implies unique@.contains(
                    #[trigger] rows[j],
                ) by {
                    if j == k {
                        assert(unique@[p as int] == row);
                    }
                }
            }
        } else {
            let mut list: Vec<u32> = Vec::new();
            list.push(slots[k]);
            let ghost added = list;
            unique.insert(p, row);
            refs.insert(p, list);
            proof {
                lemma_entry_count_insert(refs0, p as int, added);
                assert(!unique0.contains(row)) by {
                    if unique0.contains(row) {
                        let q = choose|q: int| 0 <= q < unique0.len() && unique0[q] == row;
                        assert(unique0[q] == row);
                    }
                }
                assert forall|j: int| 0 <= j < k implies #[trigger] rows[j] != row by {
                    assert(unique0.contains(rows[j]));
                }
                lemma_slots_empty(rows, slots@, row, k as int);
                assert(added@ =~= slots_of(rows, slots@, row, k + 1));
                assert forall|i: int| 0 <= i < refs@.len() implies (#[trigger] refs@[i])@
                    == slots_of(rows, slots@, unique@[i], k + 1) && refs@[i]@.len() > 0 by {
                    if i < p {
                        assert(refs0[i]@ == slots_of(rows, slots@, unique0[i], k as int));
                        assert(unique@[i] == unique0[i]);
                        assert(refs@[i] == refs0[i]);
                    } else if i > p {
                        assert(refs0[i - 1]@ == slots_of(rows, slots@, unique0[i - 1], k as int));
                        assert(unique@[i] == unique0[i - 1]);
                        assert(refs@[i] == refs0[i - 1]);
                        assert(unique0[i - 1] != row);
                    }
                }
                assert forall|x: int, y: int| 0 <= x < y < unique@.len() implies #[trigger] unique@[x]
                    < #[trigger] unique@[y] by {
                    let px = if x < p {
                        x
                    } else {
                        x - 1
                    };
                    let py = if y < p {
                        y
                    } else {
                        y - 1
                    };
                    if x != p {
                        assert(unique@[x] == unique0[px]);
                    }
                    if y != p {
                        assert(unique@[y] == unique0[py]);
                        assert(unique0[py] != row);
                    }
                }
                assert forall|j: int| 0 <= j < k + 1 implies unique@.contains(
                    #[trigger] rows[j],
                ) by {
                    if j == k {
                        assert(unique@[p as int] == row);
                    } else {
                        assert(unique0.contains(rows[j]));
                        let q = choose|q: int| 0 <= q < unique0.len() && unique0[q] == rows[j];
                        if q < p {
                            assert(unique@[q] == rows[j]);
                        } else {
                            assert(unique@[q + 1] == rows[j]);
                        }
                    }
                }
            }
        }
        k += 1;
    }
    (unique, refs)
}

/// The slots of the first `n` witness rows, one after the other.
pub open spec fn flat_slots(refs: Seq<Vec<u32>>, n: int) -> Seq<u32>
    decreases n,
{
    if n <= 0 {
        Seq::empty()
    } else {
        flat_slots(refs, n - 1) + refs[n - 1]@
    }
}

/// For each of these slots, the witness row it belongs to.
pub open spec fn flat_rows(refs: Seq<Vec<u32>>, n: int) -> Seq<u32>
    decreases n,
{
    if n <= 0 {
        Seq::empty()
    } else {
        flat_rows(refs, n - 1) + repeated((n - 1) as u32, refs[n - 1]@.len())
    }
}

/// Lists the pairs of slot and witness row in the order of the witness rows.
pub fn flatten_refs(refs: &Vec<Vec<u32>>) -> (r: (Vec<u32>, Vec<u32>))
    requires
        refs.len() <= u32::MAX,
    ensures
        r.0@ == flat_slots(refs@, refs.len() as int),
        r.1@ == flat_rows(refs@, refs.len() as int),
        r.0.len() == r.1.len(),
{
    let mut slots: Vec<u32> = Vec::new();
    let mut rows: Vec<u32> = Vec::new();
    let mut w: usize = 0;
    while w < refs.len()
        invariant
            w <= refs.len(),
            refs.len() <= u32::MAX,
            slots@ == flat_slots(refs@, w as int),
            rows@ == flat_rows(refs@, w as int),
            slots.len() == rows.len(),
        decreases refs.len() - w,
    {
        let ghost slots0 = slots@;
        let ghost rows0 = rows@;
        let list = &refs[w];
        let mut i: usize = 0;
        assert(slots@ =~= slots0 + list@.subrange(0, 0));
        assert(rows@ =~= rows0 + repeated(w as u32, 0));
        while i < list.len()
            invariant
                i <= list.len(),
                w < refs.len() <= u32::MAX,
                slots@ == slots0 + list@.subrange(0, i as int),
                rows@ == rows0 + repeated(w as u32, i as nat),
                slots.len() == rows.len(),
                slots0.len() == rows0.len(),
            decreases list.len() - i,
        {
            slots.push(list[i]);
            rows.push(w as u32);
            i += 1;
            assert(slots@ =~= slots0 + list@.subrange(0, i as int));
            assert(rows@ =~= rows0 + repeated(w as u32, i as nat));
        }
        assert(list@.subrange(0, list@.len() as int) =~= list@);
        w += 1;
    }
    (slots, rows)
}

/// The values at the given positions.
pub open spec fn picked(values: Seq<u32>, order: Seq<u32>) -> Seq<u32> {
    Seq::new(order.len(), |i: int| values[order[i] as int])
}

/// The values at the given positions.
pub fn pick(values: &Vec<u32>, order: &Vec<u32>) -> (r: Vec<u32>)
    requires
        forall|i: int| 0 <= i < order.len() ==> #[trigger] order[i] < values.len(),
    ensures
        r@ == picked(values@, order@),
{
    let mut r: Vec<u32> = Vec::new();
    let mut i: usize = 0;
    while i < order.len()
        invariant
            i <= order.len(),
            forall|i: int| 0 <= i < order.len() ==> #[trigger] order[i] < values.len(),
            r@ == picked(values@, order@).subrange(0, i as int),
        decreases order.len() - i,
    {
        let at: u32 = order[i];
        r.push(values[at as usize]);
        i += 1;
        assert(r@ =~= picked(values@, order@).subrange(0, i as int));
    }
    assert(picked(values@, order@).subrange(0, order@.len() as int) =~= picked(values@, order@));
    r
}

/// Lists the pairs of slot and witness row by ascending slot.
pub fn unnest_staging_refs(refs: &Vec<Vec<u32>>) -> (r: (Vec<u32>, Vec<u32>))
    requires
        refs.len() <= u32::MAX,
        flat_slots(refs@, refs.len() as int).len() <= u32::MAX,
    ensures
        exists|order: Seq<u32>|
            {
                &&& #[trigger] ascends(order, flat_slots(refs@, refs.len() as int))
                &&& r.0@ == picked(flat_slots(refs@, refs.len() as int), order)
                &&& r.1@ == picked(flat_rows(refs@, refs.len() as int), order)
            },
        r.0.len() == r.1.len(),
        forall|i: int, j: int|
            0 <= i <= j < r.0.len() ==> #[trigger] r.0[i] <= #[trigger] r.0[j],
{
    let (slots, rows) = flatten_refs(refs);
    let order = sorted_positions(&slots);
    let a = pick(&slots, &order);
    let b = pick(&rows, &order);
    proof {
        assert forall|i: int, j: int| 0 <= i <= j < a.len() implies #[trigger] a[i]
            <= #[trigger] a[j] by {
            assert(slots@[order@[i] as int] <= slots@[order@[j] as int]);
        }
        assert(ascends(order@, flat_slots(refs@, refs.len() as int)));
    }
    (a, b)
}

/// How often `v` occurs among the first `n` numbers.
pub open spec fn occurrences(s: Seq<u32>, v: int, n: int) -> int
    decreases n,
{
    if n <= 0 {
        0
    } else {
        occurrences(s, v, n - 1) + if s[n - 1] == v {
            1int
        } else {
            0int
        }
    }
}

proof fn lemma_occurrences_bound(s: Seq<u32>, v: int, n: int)
    requires
        0 <= n,
    ensures
        0 <= occurrences(s, v, n) <= n,
    decreases n,
{
    if n > 0 {
        lemma_occurrences_bound(s, v, n - 1);
    }
}

/// The length of every slot's list: how many pairs belong to the slot.
pub fn slot_counts(slots: &Vec<u32>, staging_n: usize) -> (r: Vec<usize>)
    requires
        forall|k: int| 0 <= k < slots.len() ==> #[trigger] slots[k] < staging_n,
    ensures
        r.len() == staging_n,
        forall|i: int|
            0 <= i < staging_n ==> #[trigger] r[i] == occurrences(slots@, i, slots.len() as int),
{
    let mut counts: Vec<usize> = Vec::new();
    let mut i: usize = 0;
    while i < staging_n
        invariant
            i <= staging_n,
            counts.len() == i,
            forall|j: int| 0 <= j < i ==> #[trigger] counts[j] == 0,
        decreases staging_n - i,
    {
        counts.push(0);
        i += 1;
    }
    let mut k: usize = 0;
    while k < slots.len()
        invariant
            k <= slots.len(),
            counts.len() == staging_n,
            forall|k: int| 0 <= k < slots.len() ==> #[trigger] slots[k] < staging_n,
            forall|j: int|
                0 <= j < staging_n ==> #[trigger] counts[j] == occurrences(slots@, j, k as int),
        decreases slots.len() - k,
    {
        let s: u32 = slots[k];
        assert(slots[k as int] < staging_n);
        proof {
            lemma_occurrences_bound(slots@, s as int, k as int);
        }
        let c: usize = counts[s as usize];
        counts.set(s as usize, c + 1);
        k += 1;
    }
    counts
}

/// Unnesting keeps every draw: there are as many pairs as entries in the lists.
pub proof fn law_unnesting_keeps_every_draw(refs: Seq<Vec<u32>>, n: int)
    requires
        0 <= n <= refs.len(),
    ensures
        flat_slots(refs, n).len() == entry_count(refs.subrange(0, n)),
        flat_rows(refs, n).len() == flat_slots(refs, n).len(),
    decreases n,
{
    if n > 0 {
        law_unnesting_keeps_every_draw(refs, n - 1);
        assert(refs.subrange(0, n).drop_last() =~= refs.subrange(0, n - 1));
    }
}

/// The lists of all slots together hold every pair.
pub proof fn law_slot_lists_hold_every_pair(slots: Seq<u32>, staging_n: int, n: int)
    requires
        0 <= n <= slots.len(),
        0 <= staging_n,
        forall|k: int| 0 <= k < slots.len() ==> #[trigger] slots[k] < staging_n,
    ensures
        pairs_below(slots, staging_n, n) == n,
    decreases n,
{
    if n > 0 {
        law_slot_lists_hold_every_pair(slots, staging_n, n - 1);
        lemma_pairs_step(slots, staging_n, n);
        assert(slots[n - 1] < staging_n);
    } else {
        lemma_no_pairs(slots, staging_n);
    }
}

/// How many of the first `n` pairs belong to a slot below `bound`.
pub open spec fn pairs_below(slots: Seq<u32>, bound: int, n: int) -> int
    decreases bound,
{
    if bound <= 0 {
        0
    } else {
        pairs_below(slots, bound - 1, n) + occurrences(slots, bound - 1, n)
    }
}

proof fn lemma_no_pairs(slots: Seq<u32>, bound: int)
    ensures
        pairs_below(slots, bound, 0) == 0,
    decreases bound,
{
    if bound > 0 {
        lemma_no_pairs(slots, bound - 1);
    }
}

proof fn lemma_pairs_step(slots: Seq<u32>, bound: int, n: int)
    requires
        0 < n <= slots.len(),
        0 <= bound,
    ensures
        pairs_below(slots, bound, n) == pairs_below(slots, bound, n - 1) + if slots[n - 1] < bound {
            1int
        } else {
            0int
        },
    decreases bound,
{
    if bound > 0 {
        lemma_pairs_step(slots, bound - 1, n);
    }
}

} // verus!
