//! Segmentation of a lower cover: which combinations of members can share rows, and how many
//! rows each combination gets.
//!
//! The members of a parent's lower cover impose constraints on the parent's fields. A depth-first
//! walk lists every combination whose constraints agree; the weights of the combinations turn
//! into row counts by largest-remainder rounding.
use fixedbitset::FixedBitSet;
use vstd::prelude::*;
use vstd::set_lib::{
    lemma_int_range, lemma_len_subset, lemma_map_size, lemma_subset_equality, set_int_range,
};

use crate::bits::{
    ascending, bits_len, bits_of, copy_bits, disjoint_bits, empty_bits, insert_bit, ones,
};
use crate::constraints::{
    constraints_of, field_allows, law_constraints_are_those_written, law_disjoint_sets_conflict,
    law_merge_allows_what_both_allow, merged, FieldConstraints, FieldConstraintsModel, Merge,
};
use crate::message::{join2, problem, problem_of, said, PartModel, Problem};
use crate::models::{
    fields_model, CountSpec, FieldModel, Num, RingBounds, SyntheticDataset, YamlModel,
};
use crate::order::{before, earlier, in_order, lemma_rank, lex_lt, sorted_order};
use crate::text::{after_prefix, clone_texts, strip_prefix, texts};
use crate::text_map::{entry_map, has_key, key_at, keys_distinct, lemma_entry, lemma_push_entry, TextMap};

verus! {

/// Most combinations that one lower cover may have.
pub const MAX_FEASIBLE_SEGMENTS: usize = 1_000_000;

/// Constraints by the name of the field they apply to.
pub type ConstraintMap = TextMap<FieldConstraints>;

/// The constraints of a map, by field, free of representation.
pub open spec fn constraint_models(m: Map<Seq<char>, FieldConstraints>) -> Map<
    Seq<char>,
    FieldConstraintsModel,
> {
    Map::new(|k: Seq<char>| m.dom().contains(k), |k: Seq<char>| m[k].model())
}

/// A member of a lower cover: a dataset drawn from a common parent.
#[derive(Debug)]
pub struct LowerCoverMember {
    pub path: String,
    pub dataset: SyntheticDataset,
    /// Fraction of the parent's rows that this member takes.
    pub ratio: Num,
    /// Rows per parent row.
    pub cardinality: Option<CountSpec>,
    /// Name under which the member refers to the parent.
    pub reference: String,
    /// The member stands for a list field that draws from the parent; it has no rows of its own.
    pub is_witness_source: bool,
}

/// The lowered cases of one tagged union: at most one of them claims a row.
#[derive(Debug)]
pub struct ExclusionGroup {
    /// Positions of the cases among the members.
    pub members: Vec<usize>,
    /// Share of each case.
    pub ratios: Vec<Num>,
    /// Every row takes a case.
    pub mandatory: bool,
}

/// The positions that a list of groups hold.
pub open spec fn group_members(groups: Seq<ExclusionGroup>) -> Seq<Seq<usize>> {
    Seq::new(groups.len(), |g: int| groups[g].members@)
}

// ---------------------------------------------------------------------------
// Constraint maps
// ---------------------------------------------------------------------------

/// The two maps agree on every field that both constrain.
pub open spec fn agree(
    a: Map<Seq<char>, FieldConstraintsModel>,
    b: Map<Seq<char>, FieldConstraintsModel>,
) -> bool {
    forall|k: Seq<char>|
        #[trigger] a.dom().contains(k) && b.dom().contains(k) ==> merged(a[k], b[k]) is Some
}

/// Both maps together: fields that both constrain are merged, the others kept.
pub open spec fn joined(
    a: Map<Seq<char>, FieldConstraintsModel>,
    b: Map<Seq<char>, FieldConstraintsModel>,
) -> Map<Seq<char>, FieldConstraintsModel> {
    Map::new(
        |k: Seq<char>| a.dom().contains(k) || b.dom().contains(k),
        |k: Seq<char>|
            if a.dom().contains(k) && b.dom().contains(k) {
                merged(a[k], b[k])->0
            } else if a.dom().contains(k) {
                a[k]
            } else {
                b[k]
            },
    )
}

/// Merges the constraints of `extra` into `base`; `None` when they disagree on some field.
pub fn try_merge_incremental(base: &ConstraintMap, extra: &ConstraintMap) -> (r: Option<
    ConstraintMap,
>)
    requires
        base.wf(),
        extra.wf(),
    ensures
        match r {
            Some(m) => m.wf() && agree(constraint_models(base@), constraint_models(extra@))
                && constraint_models(m@) == joined(
                constraint_models(base@),
                constraint_models(extra@),
            ),
            None => !agree(constraint_models(base@), constraint_models(extra@)),
        },
{
    let ghost start = constraint_models(base@);
    let ghost whole = constraint_models(extra@);
    let mut acc = copy_map(base);
    let mut i: usize = 0;
    proof {
        let none = extra.entries@.subrange(0, 0);
        assert(constraint_models(acc@) =~= joined(start, constraint_models(entry_map(none))));
    }
    while i < extra.entries.len()
        invariant
            i <= extra.entries.len(),
            acc.wf(),
            start == constraint_models(base@),
            extra.wf(),
            whole == constraint_models(extra@),
            agree(start, constraint_models(entry_map(extra.entries@.subrange(0, i as int)))),
            constraint_models(acc@) == joined(
                start,
                constraint_models(entry_map(extra.entries@.subrange(0, i as int))),
            ),
            keys_distinct(extra.entries@.subrange(0, i as int)),
        decreases extra.entries.len() - i,
    {
        let ghost done = extra.entries@.subrange(0, i as int);
        let ghost next = extra.entries@.subrange(0, i + 1);
        let ghost done_map = constraint_models(entry_map(done));
        let ghost next_map = constraint_models(entry_map(next));
        let ghost k = extra.entries@[i as int].0@;
        let ghost c = extra.entries@[i as int].1.model();
        proof {
            assert(next =~= done.push(extra.entries@[i as int]));
            assert(!has_key(done, k)) by {
                if has_key(done, k) {
                    let j = choose|j: int| 0 <= j < done.len() && #[trigger] key_at(done, j) == k;
                    assert(key_at(extra.entries@, j) != key_at(extra.entries@, i as int));
                }
            }
            lemma_push_entry(done, extra.entries@[i as int]);
            assert(next_map =~= done_map.insert(k, c));
            lemma_entry(extra.entries@, i as int);
            assert(whole.dom().contains(k) && whole[k] == c);
            assert(!done_map.dom().contains(k));
        }
        let name = &extra.entries[i].0;
        let fc = &extra.entries[i].1;
        match acc.get(name) {
            None => {
                let ghost prior = acc@;
                assert(!constraint_models(acc@).dom().contains(k));
                assert(!start.dom().contains(k));
                acc.insert(name.clone(), fc.clone());
                assert(constraint_models(acc@) =~= constraint_models(prior).insert(k, c));
                assert(constraint_models(acc@) =~= joined(start, next_map));
            },
            Some(existing) => {
                assert(constraint_models(acc@).dom().contains(k));
                assert(constraint_models(acc@)[k] == existing.model());
                assert(joined(start, done_map).dom().contains(k));
                assert(start.dom().contains(k) && existing.model() == start[k]);
                match existing.merge(fc) {
                    None => {
                        assert(merged(start[k], whole[k]) is None);
                        return None;
                    },
                    Some(m) => {
                        let ghost prior = acc@;
                        let ghost mm = m.model();
                        acc.insert(name.clone(), m);
                        assert(constraint_models(acc@) =~= constraint_models(prior).insert(k, mm));
                        assert(constraint_models(acc@) =~= joined(start, next_map));
                    },
                }
            },
        }
        i += 1;
    }
    assert(extra.entries@.subrange(0, extra.entries.len() as int) =~= extra.entries@);
    Some(acc)
}

/// True when the two maps disagree on some field.
pub fn constraints_conflict(a: &ConstraintMap, b: &ConstraintMap) -> (r: bool)
    requires
        a.wf(),
        b.wf(),
    ensures
        r == !agree(constraint_models(a@), constraint_models(b@)),
{
    let ghost am = constraint_models(a@);
    let ghost bm = constraint_models(b@);
    let mut i: usize = 0;
    while i < a.entries.len()
        invariant
            i <= a.entries.len(),
            a.wf(),
            b.wf(),
            am == constraint_models(a@),
            bm == constraint_models(b@),
            forall|j: int|
                #![trigger key_at(a.entries@, j)]
                0 <= j < i && bm.dom().contains(key_at(a.entries@, j)) ==> merged(
                    am[key_at(a.entries@, j)],
                    bm[key_at(a.entries@, j)],
                ) is Some,
        decreases a.entries.len() - i,
    {
        proof {
            lemma_entry(a.entries@, i as int);
        }
        if let Some(other) = b.get(&a.entries[i].0) {
            if a.entries[i].1.merge(other).is_none() {
                let ghost k = a.entries@[i as int].0@;
                assert(am.dom().contains(k) && bm.dom().contains(k));
                assert(merged(am[k], bm[k]) is None);
                return true;
            }
        }
        i += 1;
    }
    assert forall|k: Seq<char>| #[trigger]
        am.dom().contains(k) && bm.dom().contains(k) implies merged(am[k], bm[k]) is Some by {
        assert(has_key(a.entries@, k));
        let j = choose|j: int|
            0 <= j < a.entries@.len() && #[trigger] key_at(a.entries@, j) == k;
        assert(key_at(a.entries@, j) == k);
    }
    false
}

/// The constraints that the first `n` fields impose on the parent called by `prefix`: each field
/// that refers to a parent field constrains it, a later one in place of an earlier one.
pub open spec fn imposed(fields: Seq<FieldModel>, prefix: Seq<char>, n: int) -> Map<
    Seq<char>,
    FieldConstraintsModel,
>
    decreases n,
{
    if n <= 0 || n > fields.len() {
        Map::empty()
    } else {
        let rest = imposed(fields, prefix, n - 1);
        match parent_column(fields[n - 1], prefix) {
            Some(column) => rest.insert(column, constraints_of(fields[n - 1])),
            None => rest,
        }
    }
}

/// The parent column that a field refers to.
pub open spec fn parent_column(f: FieldModel, prefix: Seq<char>) -> Option<Seq<char>> {
    match f.type_ref() {
        Some(r) => after_prefix(r, prefix),
        None => None,
    }
}

/// The constraints that a member imposes on its parent's fields.
pub open spec fn member_constraints(m: LowerCoverMember) -> Map<Seq<char>, FieldConstraintsModel> {
    let fields = fields_model(m.dataset.data@);
    imposed(fields, m.reference@ + "."@, fields.len() as int)
}

/// The constraints that a member imposes on its parent's fields, by parent field.
pub fn lower_cover_field_constraints(member: &LowerCoverMember) -> (r: ConstraintMap)
    ensures
        r.wf(),
        constraint_models(r@) == member_constraints(*member),
{
    let prefix = join2(&member.reference, ".");
    let fields = &member.dataset.data;
    let ghost fm = fields_model(fields@);
    let mut r: ConstraintMap = TextMap::new();
    let mut i: usize = 0;
    assert(constraint_models(r@) =~= Map::empty());
    while i < fields.len()
        invariant
            i <= fields.len(),
            fm == fields_model(fields@),
            prefix@ == member.reference@ + "."@,
            r.wf(),
            constraint_models(r@) == imposed(fm, prefix@, i as int),
        decreases fields.len() - i,
    {
        assert(fm[i as int] == fields[i as int].model());
        if let Some(target) = fields[i].simple_ref() {
            if let Some(column) = strip_prefix(target, &prefix) {
                let ghost prior = r@;
                let fc = FieldConstraints::from(&fields[i]);
                let ghost fcm = fc.model();
                r.insert(column.to_owned(), fc);
                assert(constraint_models(r@) =~= constraint_models(prior).insert(column@, fcm));
            }
        }
        i += 1;
    }
    r
}

// ---------------------------------------------------------------------------
// Enumeration of the feasible combinations
// ---------------------------------------------------------------------------

/// One decision of the walk: take a lone member or not, or take one case of a group or none.
#[derive(Debug, Clone, Copy, PartialEq, Eq, Structural)]
pub enum DfsEntry {
    Lone(usize),
    Group(usize),
}

/// The last group among the first `g` that holds member `m`.
pub open spec fn group_of(groups: Seq<Seq<usize>>, g: int, m: int) -> Option<int>
    decreases g,
{
    if g <= 0 || g > groups.len() {
        None
    } else if exists|k: int| 0 <= k < groups[g - 1].len() && #[trigger] groups[g - 1][k] == m {
        Some(g - 1)
    } else {
        group_of(groups, g - 1, m)
    }
}

/// The decisions for the first `n` members: a member outside every group decides for itself, and
/// a group decides where its first member stands.
pub open spec fn decisions(groups: Seq<Seq<usize>>, n: int) -> Seq<DfsEntry>
    decreases n,
{
    if n <= 0 {
        Seq::empty()
    } else {
        let rest = decisions(groups, n - 1);
        match group_of(groups, groups.len() as int, n - 1) {
            None => rest.push(DfsEntry::Lone((n - 1) as usize)),
            Some(g) => if exists|j: int|
                0 <= j < n - 1 && #[trigger] group_of(groups, groups.len() as int, j) == Some(g) {
                rest
            } else {
                rest.push(DfsEntry::Group(g as usize))
            },
        }
    }
}

/// The decisions of the walk over `n` members.
pub fn build_dfs_entries(n: usize, groups: &Vec<ExclusionGroup>) -> (r: Vec<DfsEntry>)
    requires
        forall|g: int, k: int|
            0 <= g < groups.len() && 0 <= k < groups[g].members.len() ==> #[trigger] groups[g].members[k]
                < n,
    ensures
        r@ == decisions(group_members(groups@), n as int),
{
    let ghost gm = group_members(groups@);
    let mut of: Vec<Option<usize>> = Vec::new();
    let mut i: usize = 0;
    while i < n
        invariant
            i <= n,
            of.len() == i,
            forall|m: int| 0 <= m < i ==> #[trigger] of[m] is None,
        decreases n - i,
    {
        of.push(None);
        i += 1;
    }
    let mut g: usize = 0;
    while g < groups.len()
        invariant
            g <= groups.len(),
            gm == group_members(groups@),
            of.len() == n,
            forall|a: int, k: int|
                0 <= a < groups.len() && 0 <= k < groups[a].members.len()
                    ==> #[trigger] groups[a].members[k] < n,
            forall|m: int|
                0 <= m < n ==> opt_int(#[trigger] of[m]) == group_of(gm, g as int, m),
        decreases groups.len() - g,
    {
        let ghost start = of@;
        let mut k: usize = 0;
        while k < groups[g].members.len()
            invariant
                g < groups.len(),
                gm == group_members(groups@),
                k <= groups[g as int].members.len(),
                of.len() == n,
                start.len() == n,
                forall|a: int, b: int|
                    0 <= a < groups.len() && 0 <= b < groups[a].members.len()
                        ==> #[trigger] groups[a].members[b] < n,
                forall|m: int|
                    0 <= m < n ==> #[trigger] of[m] == (if exists|b: int|
                        0 <= b < k && #[trigger] gm[g as int][b] == m {
                        Some(g)
                    } else {
                        start[m]
                    }),
            decreases groups[g as int].members.len() - k,
        {
            assert(groups[g as int].members[k as int] < n);
            let ghost prior = of@;
            let at: usize = groups[g].members[k];
            assert(gm[g as int][k as int] == at);
            of.set(at, Some(g));
            assert forall|m: int| 0 <= m < n implies #[trigger] of[m] == (if exists|b: int|
                0 <= b < k + 1 && #[trigger] gm[g as int][b] == m {
                Some(g)
            } else {
                start[m]
            }) by {
                assert(of@[m] == (if m == at { Some(g) } else { prior[m] }));
                if exists|b: int| 0 <= b < k && #[trigger] gm[g as int][b] == m {
                    let b = choose|b: int| 0 <= b < k && #[trigger] gm[g as int][b] == m;
                    assert(gm[g as int][b] == m);
                }
            }
            k += 1;
        }
        g += 1;
    }
    let mut r: Vec<DfsEntry> = Vec::new();
    let mut emitted: Vec<bool> = Vec::new();
    let mut e: usize = 0;
    while e < groups.len()
        invariant
            e <= groups.len(),
            emitted.len() == e,
            forall|a: int| 0 <= a < e ==> !(#[trigger] emitted[a]),
        decreases groups.len() - e,
    {
        emitted.push(false);
        e += 1;
    }
    let mut i: usize = 0;
    while i < n
        invariant
            i <= n,
            gm == group_members(groups@),
            of.len() == n,
            emitted.len() == groups.len(),
            forall|m: int|
                0 <= m < n ==> opt_int(#[trigger] of[m]) == group_of(
                    gm,
                    groups.len() as int,
                    m,
                ),
            forall|a: int|
                0 <= a < groups.len() ==> #[trigger] emitted[a] == exists|j: int|
                    0 <= j < i && #[trigger] group_of(gm, groups.len() as int, j) == Some(a),
            r@ == decisions(gm, i as int),
        decreases n - i,
    {
        let ghost prior = emitted@;
        match of[i] {
            None => {
                assert(opt_int(of[i as int]) == group_of(gm, groups.len() as int, i as int));
                r.push(DfsEntry::Lone(i));
            },
            Some(g) => {
                assert(opt_int(of[i as int]) == group_of(gm, groups.len() as int, i as int));
                proof {
                    lemma_group_of_range(gm, groups.len() as int, i as int);
                }
                if !emitted[g] {
                    emitted.set(g, true);
                    r.push(DfsEntry::Group(g));
                }
            },
        }
        assert forall|a: int| 0 <= a < groups.len() implies #[trigger] emitted[a] == exists|j: int|
            0 <= j < i + 1 && #[trigger] group_of(gm, groups.len() as int, j) == Some(a) by {
            assert(prior[a] == exists|j: int|
                0 <= j < i && #[trigger] group_of(gm, groups.len() as int, j) == Some(a));
            if exists|j: int|
                0 <= j < i + 1 && #[trigger] group_of(gm, groups.len() as int, j) == Some(a) {
                let j = choose|j: int|
                    0 <= j < i + 1 && #[trigger] group_of(gm, groups.len() as int, j) == Some(a);
                if j < i {
                    assert(prior[a]);
                }
            }
            if group_of(gm, groups.len() as int, i as int) == Some(a) {
                assert(exists|j: int|
                    0 <= j < i + 1 && #[trigger] group_of(gm, groups.len() as int, j) == Some(a));
            }
        }
        i += 1;
    }
    r
}

spec fn opt_int(o: Option<usize>) -> Option<int> {
    match o {
        Some(n) => Some(n as int),
        None => None,
    }
}

proof fn lemma_group_of_range(groups: Seq<Seq<usize>>, g: int, m: int)
    requires
        g <= groups.len(),
    ensures
        group_of(groups, g, m) matches Some(a) ==> 0 <= a < g && exists|k: int|
            0 <= k < groups[a].len() && #[trigger] groups[a][k] == m,
    decreases g,
{
    if g > 0 && !(exists|k: int|
        0 <= k < groups[g - 1].len() && #[trigger] groups[g - 1][k] == m) {
        lemma_group_of_range(groups, g - 1, m);
    }
}

/// What the walk decides on.
pub struct Walk {
    pub entries: Seq<DfsEntry>,
    pub groups: Seq<Seq<usize>>,
    /// Whether "no case" of a group has any weight.
    pub none_open: Seq<bool>,
    /// What each member imposes.
    pub maps: Seq<Map<Seq<char>, FieldConstraintsModel>>,
}

/// A combination of members, with the constraints they impose together.
pub struct CellModel {
    pub mask: Set<int>,
    pub constraints: Map<Seq<char>, FieldConstraintsModel>,
}

impl Walk {
    /// The two members disagree on some field.
    pub open spec fn conflict(self, i: int, j: int) -> bool {
        if i < j {
            !agree(self.maps[i], self.maps[j])
        } else {
            j < i && !agree(self.maps[j], self.maps[i])
        }
    }

    /// Member `i` can join the members of `mask`, whose constraints together are `merged`.
    pub open spec fn can_join(
        self,
        mask: Set<int>,
        constraints: Map<Seq<char>, FieldConstraintsModel>,
        i: int,
    ) -> bool {
        &&& forall|j: int| #[trigger] mask.contains(j) ==> !self.conflict(i, j)
        &&& agree(constraints, self.maps[i])
    }

    /// The combinations below a point of the walk, in the order in which it reaches them.
    pub open spec fn leaves(
        self,
        at: int,
        mask: Set<int>,
        constraints: Map<Seq<char>, FieldConstraintsModel>,
    ) -> Seq<CellModel>
        decreases self.entries.len() - at, 1int, 0int,
    {
        if at < 0 || at >= self.entries.len() {
            seq![CellModel { mask, constraints }]
        } else {
            match self.entries[at] {
                DfsEntry::Lone(i) => self.leaves(at + 1, mask, constraints) + (if self.can_join(
                    mask,
                    constraints,
                    i as int,
                ) {
                    self.leaves(
                        at + 1,
                        mask.insert(i as int),
                        joined(constraints, self.maps[i as int]),
                    )
                } else {
                    Seq::empty()
                }),
                DfsEntry::Group(g) => (if self.none_open[g as int] {
                    self.leaves(at + 1, mask, constraints)
                } else {
                    Seq::empty()
                }) + self.case_leaves(at, g as int, 0, mask, constraints),
            }
        }
    }

    /// The combinations that take case `k` or a later one of group `g`.
    pub open spec fn case_leaves(
        self,
        at: int,
        g: int,
        k: int,
        mask: Set<int>,
        constraints: Map<Seq<char>, FieldConstraintsModel>,
    ) -> Seq<CellModel>
        decreases self.entries.len() - at, 0int, self.groups[g].len() - k,
    {
        if at < 0 || at >= self.entries.len() || k < 0 || k >= self.groups[g].len() {
            Seq::empty()
        } else {
            let i = self.groups[g][k] as int;
            (if self.can_join(mask, constraints, i) {
                self.leaves(at + 1, mask.insert(i), joined(constraints, self.maps[i]))
            } else {
                Seq::empty()
            }) + self.case_leaves(at, g, k + 1, mask, constraints)
        }
    }

    /// The members, groups and flags fit together.
    pub open spec fn fits(self) -> bool {
        &&& self.none_open.len() == self.groups.len()
        &&& forall|g: int, k: int|
            0 <= g < self.groups.len() && 0 <= k < self.groups[g].len()
                ==> #[trigger] self.groups[g][k] < self.maps.len()
        &&& forall|a: int|
            0 <= a < self.entries.len() ==> match #[trigger] self.entries[a] {
                DfsEntry::Lone(i) => i < self.maps.len(),
                DfsEntry::Group(g) => g < self.groups.len(),
            }
    }
}

/// A feasible combination of members.
#[derive(Debug)]
pub struct Cell {
    pub mask: FixedBitSet,
    /// Positions of the members, in ascending order.
    pub ones: Vec<u64>,
    pub constraints: ConstraintMap,
}

impl Cell {
    /// The content of this cell, free of representation.
    pub open spec fn model(self) -> CellModel {
        CellModel {
            mask: bits_of(self.mask),
            constraints: constraint_models(self.constraints@),
        }
    }

    /// The mask ranges over `n` members.
    pub open spec fn wf(self, n: nat) -> bool {
        &&& self.constraints.wf()
        &&& bits_len(self.mask) == n
        &&& ascending(bits_of(self.mask), self.ones@)
        &&& forall|i: int| #[trigger] bits_of(self.mask).contains(i) ==> 0 <= i < n
    }
}

/// The models of a list of cells.
pub open spec fn cells_model(s: Seq<Cell>) -> Seq<CellModel> {
    Seq::new(s.len(), |i: int| s[i].model())
}

/// Every cell of a list is well-formed.
pub open spec fn cells_wf(s: Seq<Cell>, n: nat) -> bool {
    forall|i: int| 0 <= i < s.len() ==> (#[trigger] s[i]).wf(n)
}

/// The message of a lower cover with too many combinations.
pub open spec fn too_many() -> Seq<PartModel> {
    said(
        "lower cover group produced more than 1000000 feasible segments. Add conflicting field constraints between members to reduce the feasible set."@,
    )
}

/// What the walk works on.
pub struct WalkData {
    pub entries: Vec<DfsEntry>,
    pub none_open: Vec<bool>,
    pub conflicts: Vec<FixedBitSet>,
    pub maps: Vec<ConstraintMap>,
}

/// The models of a list of constraint maps.
pub open spec fn maps_model(s: Seq<ConstraintMap>) -> Seq<Map<Seq<char>, FieldConstraintsModel>> {
    Seq::new(s.len(), |i: int| constraint_models(s[i]@))
}

impl WalkData {
    /// The decisions that this data stands for.
    pub open spec fn walk(self, groups: Seq<ExclusionGroup>) -> Walk {
        Walk {
            entries: self.entries@,
            groups: group_members(groups),
            none_open: self.none_open@,
            maps: maps_model(self.maps@),
        }
    }

    /// The conflict masks say which members disagree, and everything fits together.
    pub open spec fn wf(self, groups: Seq<ExclusionGroup>) -> bool {
        &&& self.walk(groups).fits()
        &&& self.conflicts.len() == self.maps.len()
        &&& forall|i: int| 0 <= i < self.maps.len() ==> (#[trigger] self.maps[i]).wf()
        &&& forall|i: int, j: int|
            0 <= i < self.conflicts.len() && 0 <= j < self.maps.len() ==> (#[trigger] bits_of(
                self.conflicts[i],
            ).contains(j) <==> self.walk(groups).conflict(i, j))
    }
}

/// Copies a constraint map.
pub fn copy_map(m: &ConstraintMap) -> (r: ConstraintMap)
    requires
        m.wf(),
    ensures
        r.wf(),
        constraint_models(r@) == constraint_models(m@),
{
    let mut r: ConstraintMap = TextMap::new();
    let mut i: usize = 0;
    assert(constraint_models(r@) =~= constraint_models(entry_map(m.entries@.subrange(0, 0))));
    while i < m.entries.len()
        invariant
            i <= m.entries.len(),
            m.wf(),
            r.wf(),
            keys_distinct(m.entries@.subrange(0, i as int)),
            constraint_models(r@) == constraint_models(entry_map(m.entries@.subrange(0, i as int))),
        decreases m.entries.len() - i,
    {
        let ghost done = m.entries@.subrange(0, i as int);
        let ghost k = m.entries@[i as int].0@;
        let ghost c = m.entries@[i as int].1.model();
        proof {
            assert(m.entries@.subrange(0, i + 1) =~= done.push(m.entries@[i as int]));
            assert(!has_key(done, k)) by {
                if has_key(done, k) {
                    let j = choose|j: int| 0 <= j < done.len() && #[trigger] key_at(done, j) == k;
                    assert(key_at(m.entries@, j) != key_at(m.entries@, i as int));
                }
            }
            lemma_push_entry(done, m.entries@[i as int]);
        }
        let ghost prior = r@;
        r.insert(m.entries[i].0.clone(), m.entries[i].1.clone());
        assert(constraint_models(r@) =~= constraint_models(prior).insert(k, c));
        assert(constraint_models(entry_map(m.entries@.subrange(0, i + 1))) =~= constraint_models(
            entry_map(done),
        ).insert(k, c));
        i += 1;
    }
    assert(m.entries@.subrange(0, m.entries.len() as int) =~= m.entries@);
    r
}

/// Appends every feasible combination below a point of the walk.
pub fn enumerate_segments_dfs(
    data: &WalkData,
    groups: &Vec<ExclusionGroup>,
    at: usize,
    mask: &FixedBitSet,
    merged_so_far: &ConstraintMap,
    feasible: &mut Vec<Cell>,
) -> (r: Result<(), Problem>)
    requires
        data.wf(groups@),
        at <= data.entries.len(),
        bits_len(*mask) == data.maps.len(),
        forall|i: int| #[trigger] bits_of(*mask).contains(i) ==> 0 <= i < data.maps.len(),
        merged_so_far.wf(),
        cells_wf(old(feasible)@, data.maps.len() as nat),
        old(feasible).len() <= MAX_FEASIBLE_SEGMENTS,
    ensures
        ({
            let found = data.walk(groups@).leaves(
                at as int,
                bits_of(*mask),
                constraint_models(merged_so_far@),
            );
            if old(feasible).len() + found.len() <= MAX_FEASIBLE_SEGMENTS {
                &&& r is Ok
                &&& cells_model(final(feasible)@) == cells_model(old(feasible)@) + found
                &&& cells_wf(final(feasible)@, data.maps.len() as nat)
            } else {
                problem_of(r) == Some(too_many())
            }
        }),
        r is Ok ==> final(feasible).len() <= MAX_FEASIBLE_SEGMENTS,
    decreases data.entries.len() - at,
{
    let ghost walk = data.walk(groups@);
    let ghost mm = bits_of(*mask);
    let ghost cm = constraint_models(merged_so_far@);
    if at == data.entries.len() {
        if feasible.len() >= MAX_FEASIBLE_SEGMENTS {
            return Err(
                problem(
                    "lower cover group produced more than 1000000 feasible segments. Add conflicting field constraints between members to reduce the feasible set.".to_owned(),
                ),
            );
        }
        let ghost prior = feasible@;
        feasible.push(
            Cell {
                mask: copy_bits(mask),
                ones: ones(mask),
                constraints: copy_map(merged_so_far),
            },
        );
        assert(cells_model(feasible@) =~= cells_model(prior) + seq![
            CellModel { mask: mm, constraints: cm },
        ]);
        return Ok(());
    }
    let ghost start = cells_model(feasible@);
    assert(walk.entries[at as int] == data.entries[at as int]);
    match data.entries[at] {
        DfsEntry::Lone(i) => {
            enumerate_segments_dfs(data, groups, at + 1, mask, merged_so_far, feasible)?;
            let ghost without = walk.leaves(at + 1, mm, cm);
            if disjoint_bits(mask, &data.conflicts[i]) {
                if let Some(next) = try_merge_incremental(merged_so_far, &data.maps[i]) {
                    proof {
                        lemma_disjoint_is_compatible(*data, groups@, mm, i as int);
                    }
                    let mut with = copy_bits(mask);
                    insert_bit(&mut with, i);
                    let ghost taken = walk.leaves(
                        at + 1,
                        mm.insert(i as int),
                        joined(cm, walk.maps[i as int]),
                    );
                    assert(walk.can_join(mm, cm, i as int));
                    assert(walk.leaves(at as int, mm, cm) == without + taken);
                    match enumerate_segments_dfs(data, groups, at + 1, &with, &next, feasible) {
                        Ok(_) => {
                            assert(cells_model(feasible@) =~= start + (without + taken));
                            return Ok(());
                        },
                        Err(p) => {
                            return Err(p);
                        },
                    }
                }
            } else {
                proof {
                    lemma_disjoint_is_compatible(*data, groups@, mm, i as int);
                }
            }
            assert(!walk.can_join(mm, cm, i as int));
            assert(without + Seq::empty() =~= without);
            Ok(())
        },
        DfsEntry::Group(g) => {
            let ghost none = if walk.none_open[g as int] {
                walk.leaves(at + 1, mm, cm)
            } else {
                Seq::empty()
            };
            if data.none_open[g] {
                enumerate_segments_dfs(data, groups, at + 1, mask, merged_so_far, feasible)?;
            }
            assert(cells_model(feasible@) =~= start + none);
            let ghost all = walk.case_leaves(at as int, g as int, 0, mm, cm);
            let mut k: usize = 0;
            assert(start + none + all =~= start + walk.leaves(at as int, mm, cm));
            while k < groups[g].members.len()
                invariant
                    data.wf(groups@),
                    walk == data.walk(groups@),
                    mm == bits_of(*mask),
                    cm == constraint_models(merged_so_far@),
                    at < data.entries.len(),
                    g < groups.len(),
                    k <= groups[g as int].members.len(),
                    bits_len(*mask) == data.maps.len(),
                    forall|i: int|
                        #[trigger] bits_of(*mask).contains(i) ==> 0 <= i < data.maps.len(),
                    merged_so_far.wf(),
                    cells_wf(feasible@, data.maps.len() as nat),
                    feasible.len() <= MAX_FEASIBLE_SEGMENTS,
                    cells_model(feasible@) + walk.case_leaves(
                        at as int,
                        g as int,
                        k as int,
                        mm,
                        cm,
                    ) == start + none + all,
                    start.len() == old(feasible).len(),
                    start == cells_model(old(feasible)@),
                    start + none + all == start + walk.leaves(at as int, mm, cm),
                decreases groups[g as int].members.len() - k,
            {
                let ghost now = cells_model(feasible@);
                let ghost later = walk.case_leaves(at as int, g as int, k + 1, mm, cm);
                let i: usize = groups[g].members[k];
                assert(walk.groups[g as int][k as int] == i);
                assert(i < data.maps.len());
                let mut taken = false;
                if disjoint_bits(mask, &data.conflicts[i]) {
                    if let Some(next) = try_merge_incremental(merged_so_far, &data.maps[i]) {
                        proof {
                            lemma_disjoint_is_compatible(*data, groups@, mm, i as int);
                        }
                        let mut with = copy_bits(mask);
                        insert_bit(&mut with, i);
                        let ghost found = walk.leaves(
                            at + 1,
                            mm.insert(i as int),
                            joined(cm, walk.maps[i as int]),
                        );
                        assert(now + (found + later) == start + none + all);
                        match enumerate_segments_dfs(data, groups, at + 1, &with, &next, feasible) {
                            Ok(_) => {},
                            Err(p) => {
                                assert((now + (found + later)).len() == (start + walk.leaves(
                                    at as int,
                                    mm,
                                    cm,
                                )).len());
                                return Err(p);
                            },
                        }
                        assert(cells_model(feasible@) + later =~= now + (found + later));
                        taken = true;
                    }
                }
                if !taken {
                    proof {
                        lemma_disjoint_is_compatible(*data, groups@, mm, i as int);
                        assert(!walk.can_join(mm, cm, i as int));
                        assert(now + (Seq::empty() + later) =~= now + later);
                    }
                }
                k += 1;
            }
            assert(cells_model(feasible@) + Seq::empty() =~= cells_model(feasible@));
            Ok(())
        },
    }
}

proof fn lemma_disjoint_is_compatible(
    data: WalkData,
    groups: Seq<ExclusionGroup>,
    mask: Set<int>,
    i: int,
)
    requires
        data.wf(groups),
        0 <= i < data.maps.len(),
        forall|j: int| #[trigger] mask.contains(j) ==> 0 <= j < data.maps.len(),
    ensures
        mask.disjoint(bits_of(data.conflicts[i])) <==> forall|j: int| #[trigger]
            mask.contains(j) ==> !data.walk(groups).conflict(i, j),
{
    if mask.disjoint(bits_of(data.conflicts[i])) {
        assert forall|j: int| #[trigger] mask.contains(j) implies !data.walk(groups).conflict(
            i,
            j,
        ) by {
            assert(!bits_of(data.conflicts[i]).contains(j));
        }
    } else {
        let j = choose|j: int| mask.contains(j) && bits_of(data.conflicts[i]).contains(j);
        assert(data.walk(groups).conflict(i, j));
    }
}


/// The walk over the lower cover of a parent.
pub open spec fn walk_of(
    members: Seq<LowerCoverMember>,
    groups: Seq<ExclusionGroup>,
    none_open: Seq<bool>,
) -> Walk {
    Walk {
        entries: decisions(group_members(groups), members.len() as int),
        groups: group_members(groups),
        none_open,
        maps: Seq::new(members.len(), |i: int| member_constraints(members[i])),
    }
}

impl Walk {
    /// Every feasible combination of the lower cover.
    pub open spec fn feasible(self) -> Seq<CellModel> {
        self.leaves(0, Set::empty(), Map::empty())
    }
}

/// For each member, the members that it disagrees with.
fn precompute_conflicts(maps: &Vec<ConstraintMap>, Ghost(walk): Ghost<Walk>) -> (r: Vec<
    FixedBitSet,
>)
    requires
        walk.maps == maps_model(maps@),
        forall|i: int| 0 <= i < maps.len() ==> (#[trigger] maps[i]).wf(),
    ensures
        r.len() == maps.len(),
        forall|i: int, j: int|
            0 <= i < maps.len() && 0 <= j < maps.len() ==> (#[trigger] bits_of(r[i]).contains(j)
                <==> walk.conflict(i, j)),
{
    let n: usize = maps.len();
    let mut r: Vec<FixedBitSet> = Vec::new();
    let mut i: usize = 0;
    while i < n
        invariant
            i <= n,
            n == maps.len(),
            r.len() == i,
            walk.maps == maps_model(maps@),
            forall|a: int| 0 <= a < maps.len() ==> (#[trigger] maps[a]).wf(),
            forall|a: int, b: int|
                0 <= a < i && 0 <= b < n ==> (#[trigger] bits_of(r[a]).contains(b)
                    <==> walk.conflict(a, b)),
        decreases n - i,
    {
        let mut row = empty_bits(n);
        let mut j: usize = 0;
        while j < n
            invariant
                i < n,
                j <= n,
                n == maps.len(),
                bits_len(row) == n,
                walk.maps == maps_model(maps@),
                forall|a: int| 0 <= a < maps.len() ==> (#[trigger] maps[a]).wf(),
                forall|b: int|
                    0 <= b < n ==> (#[trigger] bits_of(row).contains(b) <==> b < j
                        && walk.conflict(i as int, b)),
            decreases n - j,
        {
            let hit = if i < j {
                constraints_conflict(&maps[i], &maps[j])
            } else if j < i {
                constraints_conflict(&maps[j], &maps[i])
            } else {
                false
            };
            if hit {
                insert_bit(&mut row, j);
            }
            j += 1;
        }
        r.push(row);
        i += 1;
    }
    r
}

/// `r` holds the items of `s`, each exactly once, in the given order.
pub open spec fn rearranged(r: Seq<CellModel>, s: Seq<CellModel>, order: Seq<usize>) -> bool {
    &&& order.len() == s.len()
    &&& r.len() == s.len()
    &&& order.no_duplicates()
    &&& forall|a: int| 0 <= a < order.len() ==> #[trigger] order[a] < s.len() && r[a] == s[order[a] as int]
}

/// The cells stand in dictionary order of their member positions.
pub open spec fn cells_sorted(s: Seq<Cell>) -> bool {
    forall|a: int, b: int|
        0 <= a < b < s.len() ==> lex_lt(#[trigger] s[a].ones@, #[trigger] s[b].ones@) || s[a].ones@
            == s[b].ones@
}

/// Lists the feasible combinations of a lower cover, in dictionary order of their members.
///
/// `none_open[g]` tells whether "no case" of group `g` has any weight.
pub fn enumerate_segments(
    members: &Vec<LowerCoverMember>,
    groups: &Vec<ExclusionGroup>,
    none_open: &Vec<bool>,
) -> (r: Result<Vec<Cell>, Problem>)
    requires
        none_open.len() == groups.len(),
        forall|g: int, k: int|
            0 <= g < groups.len() && 0 <= k < groups[g].members.len() ==> #[trigger] groups[g].members[k]
                < members.len(),
    ensures
        ({
            let found = walk_of(members@, groups@, none_open@).feasible();
            match r {
                Ok(cells) => {
                    &&& found.len() <= MAX_FEASIBLE_SEGMENTS
                    &&& exists|order: Seq<usize>|
                        rearranged(cells_model(cells@), found, order)
                    &&& cells_sorted(cells@)
                    &&& cells_wf(cells@, members.len() as nat)
                },
                Err(p) => found.len() > MAX_FEASIBLE_SEGMENTS && p.model() == too_many(),
            }
        }),
{
    let n: usize = members.len();
    let ghost walk = walk_of(members@, groups@, none_open@);
    let mut maps: Vec<ConstraintMap> = Vec::new();
    let mut i: usize = 0;
    while i < n
        invariant
            i <= n,
            n == members.len(),
            maps.len() == i,
            forall|a: int|
                0 <= a < i ==> (#[trigger] maps[a]).wf() && constraint_models(maps[a]@)
                    == member_constraints(members[a]),
        decreases n - i,
    {
        maps.push(lower_cover_field_constraints(&members[i]));
        i += 1;
    }
    assert(maps_model(maps@) =~= walk.maps);
    let conflicts = precompute_conflicts(&maps, Ghost(walk));
    let entries = build_dfs_entries(n, groups);
    let mut open: Vec<bool> = Vec::new();
    let mut g: usize = 0;
    while g < none_open.len()
        invariant
            g <= none_open.len(),
            open.len() == g,
            forall|a: int| 0 <= a < g ==> #[trigger] open[a] == none_open[a],
        decreases none_open.len() - g,
    {
        open.push(none_open[g]);
        g += 1;
    }
    assert(open@ =~= none_open@);
    let data = WalkData { entries, none_open: open, conflicts, maps };
    proof {
        lemma_decisions_fit(group_members(groups@), n as int);
        assert(data.walk(groups@) == walk);
        assert forall|a: int, k: int|
            0 <= a < walk.groups.len() && 0 <= k < walk.groups[a].len() implies #[trigger] walk.groups[a][k]
            < walk.maps.len() by {
            assert(groups[a].members[k] < members.len());
        }
    }
    let mask = empty_bits(n);
    let none: ConstraintMap = TextMap::new();
    assert(constraint_models(none@) =~= Map::empty());
    let mut found: Vec<Cell> = Vec::new();
    assert(cells_model(found@) =~= Seq::empty());
    match enumerate_segments_dfs(&data, groups, 0, &mask, &none, &mut found) {
        Ok(_) => {},
        Err(p) => {
            return Err(p);
        },
    }
    assert(cells_model(found@) =~= walk.feasible());
    let mut keys: Vec<Vec<u64>> = Vec::new();
    let mut c: usize = 0;
    while c < found.len()
        invariant
            c <= found.len(),
            keys.len() == c,
            forall|a: int| 0 <= a < c ==> (#[trigger] keys[a])@ == found[a].ones@,
        decreases found.len() - c,
    {
        let key = found[c].ones.clone();
        assert(key@ =~= found[c as int].ones@);
        keys.push(key);
        c += 1;
    }
    let order = sorted_order(&keys);
    let mut r: Vec<Cell> = Vec::new();
    let mut c: usize = 0;
    while c < order.len()
        invariant
            c <= order.len(),
            r.len() == c,
            order.len() == found.len(),
            keys.len() == found.len(),
            in_order(keys@, order@),
            cells_wf(found@, n as nat),
            cells_wf(r@, n as nat),
            forall|a: int| 0 <= a < keys.len() ==> (#[trigger] keys[a])@ == found[a].ones@,
            forall|a: int|
                0 <= a < c ==> (#[trigger] r[a]).model() == found[order[a] as int].model()
                    && r[a].ones@ == keys[order[a] as int]@,
        decreases order.len() - c,
    {
        let at: usize = order[c];
        let cell = &found[at];
        let copy = Cell {
            mask: copy_bits(&cell.mask),
            ones: cell.ones.clone(),
            constraints: copy_map(&cell.constraints),
        };
        assert(copy.ones@ =~= cell.ones@);
        r.push(copy);
        c += 1;
    }
    proof {
        assert forall|a: int, b: int| 0 <= a < b < r.len() implies lex_lt(
            #[trigger] r[a].ones@,
            #[trigger] r[b].ones@,
        ) || r[a].ones@ == r[b].ones@ by {
            assert(before(keys@, order[a] as int, order[b] as int));
        }
        assert(rearranged(cells_model(r@), walk.feasible(), order@));
    }
    Ok(r)
}

proof fn lemma_decisions_fit(groups: Seq<Seq<usize>>, n: int)
    requires
        0 <= n <= usize::MAX,
        groups.len() <= usize::MAX,
    ensures
        forall|a: int|
            0 <= a < decisions(groups, n).len() ==> match #[trigger] decisions(groups, n)[a] {
                DfsEntry::Lone(i) => i < n,
                DfsEntry::Group(g) => g < groups.len(),
            },
    decreases n,
{
    if n > 0 {
        lemma_decisions_fit(groups, n - 1);
        lemma_group_of_range(groups, groups.len() as int, n - 1);
    }
}

// ---------------------------------------------------------------------------
// Rounding
// ---------------------------------------------------------------------------

/// The sum of a sequence of counts.
pub open spec fn total_of(s: Seq<usize>) -> int
    decreases s.len(),
{
    if s.len() == 0 {
        0
    } else {
        total_of(s.drop_last()) + s.last()
    }
}

proof fn lemma_total_update(s: Seq<usize>, i: int, v: usize)
    requires
        0 <= i < s.len(),
    ensures
        total_of(s.update(i, v)) == total_of(s) - s[i] + v,
    decreases s.len(),
{
    let t = s.update(i, v);
    if i == s.len() - 1 {
        assert(t.drop_last() =~= s.drop_last());
    } else {
        assert(t.drop_last() =~= s.drop_last().update(i, v));
        lemma_total_update(s.drop_last(), i, v);
    }
}

proof fn lemma_total_bounds(s: Seq<usize>, i: int)
    requires
        0 <= i < s.len(),
    ensures
        0 <= s[i] <= total_of(s),
    decreases s.len(),
{
    lemma_total_nonnegative(s.drop_last());
    if i < s.len() - 1 {
        lemma_total_bounds(s.drop_last(), i);
    }
}

proof fn lemma_total_nonnegative(s: Seq<usize>)
    ensures
        total_of(s) >= 0,
    decreases s.len(),
{
    if s.len() > 0 {
        lemma_total_nonnegative(s.drop_last());
    }
}

/// Partial totals never exceed the total.
pub proof fn lemma_total_prefix(s: Seq<usize>, n: int)
    requires
        0 <= n <= s.len(),
    ensures
        0 <= total_of(s.subrange(0, n)) <= total_of(s),
    decreases s.len() - n,
{
    lemma_total_nonnegative(s.subrange(0, n));
    if n < s.len() {
        let next = s.subrange(0, n + 1);
        assert(next.drop_last() =~= s.subrange(0, n));
        lemma_total_prefix(s, n + 1);
    } else {
        assert(s.subrange(0, n) =~= s);
    }
}

/// The total of a list of counts.
pub fn sum_counts(v: &Vec<usize>) -> (r: usize)
    requires
        total_of(v@) <= usize::MAX,
    ensures
        r == total_of(v@),
{
    let mut r: usize = 0;
    let mut i: usize = 0;
    while i < v.len()
        invariant
            i <= v.len(),
            total_of(v@) <= usize::MAX,
            r == total_of(v@.subrange(0, i as int)),
        decreases v.len() - i,
    {
        proof {
            lemma_total_prefix(v@, i + 1);
            assert(v@.subrange(0, i + 1).drop_last() =~= v@.subrange(0, i as int));
        }
        r = r + v[i];
        i += 1;
    }
    assert(v@.subrange(0, v.len() as int) =~= v@);
    r
}

/// The cells that come before cell `i` when the leftover is handed out: those with a larger
/// fraction, and earlier ones with an equal fraction.
pub open spec fn served_before(fracs: Seq<Num>, i: int) -> Set<int> {
    Set::new(
        |j: int|
            0 <= j < fracs.len() && (fracs[j].key > fracs[i].key || (fracs[j].key == fracs[i].key
                && j < i)),
    )
}

/// What the whole shares leave of the total.
pub open spec fn leftover(floors: Seq<usize>, total: int) -> int {
    if total_of(floors) < total {
        total - total_of(floors)
    } else {
        0
    }
}

/// The rounded count of cell `i`: its whole share, and one more where the leftover reaches it.
pub open spec fn rounded(floors: Seq<usize>, fracs: Seq<Num>, total: int, i: int) -> int {
    floors[i] + (if served_before(fracs, i).len() < leftover(floors, total) {
        1int
    } else {
        0int
    })
}

/// The count of cell `i`, given the sum of all weights: none where there is no weight.
pub open spec fn count_of(
    floors: Seq<usize>,
    fracs: Seq<Num>,
    sum: Num,
    total: int,
    i: int,
) -> int {
    if sum.at_most(Num::zero()) {
        0
    } else {
        rounded(floors, fracs, total, i)
    }
}

/// Largest-remainder rounding: every cell gets its whole share, and the leftover goes one by one
/// to the cells with the largest fractions, earlier cells first. Without any weight, that is when
/// the weights' `sum` is not positive, every cell gets nothing.
pub fn largest_remainder(floors: &Vec<usize>, fracs: &Vec<Num>, sum: Num, total: usize) -> (r: Vec<
    usize,
>)
    requires
        floors.len() == fracs.len(),
        total_of(floors@) <= usize::MAX,
    ensures
        r.len() == floors.len(),
        forall|i: int|
            0 <= i < r.len() ==> #[trigger] r[i] == count_of(
                floors@,
                fracs@,
                sum,
                total as int,
                i,
            ),
{
    if !sum.le(Num { key: 0 }) {
        return round_shares(floors, fracs, total);
    }
    let mut r: Vec<usize> = Vec::new();
    let mut i: usize = 0;
    while i < floors.len()
        invariant
            i <= floors.len(),
            r.len() == i,
            forall|j: int| 0 <= j < i ==> #[trigger] r[j] == 0,
        decreases floors.len() - i,
    {
        r.push(0);
        i += 1;
    }
    r
}

/// Every cell gets its whole share, and the leftover goes one by one to the cells with the largest
/// fractions, earlier cells first.
pub(crate) fn round_shares(floors: &Vec<usize>, fracs: &Vec<Num>, total: usize) -> (r: Vec<usize>)
    requires
        floors.len() == fracs.len(),
        total_of(floors@) <= usize::MAX,
    ensures
        r.len() == floors.len(),
        forall|i: int|
            0 <= i < r.len() ==> #[trigger] r[i] == rounded(floors@, fracs@, total as int, i),
        total_of(r@) == total_of(floors@) + (if leftover(floors@, total as int) < floors.len() {
            leftover(floors@, total as int)
        } else {
            floors.len() as int
        }),
{
    let n: usize = floors.len();
    let whole = sum_counts(floors);
    let left: usize = if whole < total { total - whole } else { 0 };
    let mut keys: Vec<Vec<u64>> = Vec::new();
    let mut i: usize = 0;
    while i < n
        invariant
            i <= n,
            n == fracs.len(),
            keys.len() == i,
            forall|a: int|
                0 <= a < i ==> (#[trigger] keys[a])@ == seq![
                    (i64::MAX - fracs[a].key) as u64,
                ],
        decreases n - i,
    {
        let mut key: Vec<u64> = Vec::new();
        key.push((0x7FFF_FFFF_FFFF_FFFFi128 - fracs[i].key as i128) as u64);
        assert(key@ =~= seq![(i64::MAX - fracs[i as int].key) as u64]);
        keys.push(key);
        i += 1;
    }
    let order = sorted_order(&keys);
    let reach: usize = if left < n { left } else { n };
    let mut r = floors.clone();
    assert(r@ =~= floors@);
    let mut a: usize = 0;
    while a < reach
        invariant
            a <= reach <= n,
            n == floors.len(),
            r.len() == n,
            order.len() == n,
            keys.len() == n,
            reach > 0 ==> total_of(floors@) < usize::MAX,
            in_order(keys@, order@),
            order@.no_duplicates(),
            total_of(r@) == total_of(floors@) + a,
            forall|p: int|
                0 <= p < n ==> #[trigger] r[p] == floors[p] + (if order@.subrange(
                    0,
                    a as int,
                ).contains(p as usize) {
                    1int
                } else {
                    0int
                }),
        decreases reach - a,
    {
        let p: usize = order[a];
        let ghost prior = r@;
        let ghost front = order@.subrange(0, a as int);
        let ghost next = order@.subrange(0, a + 1);
        proof {
            assert(next =~= front.push(p));
            if front.contains(p) {
                let b = choose|b: int| 0 <= b < front.len() && front[b] == p;
                assert(order@[b] == order@[a as int]);
            }
            lemma_total_bounds(floors@, p as int);
            lemma_total_update(r@, p as int, (r@[p as int] + 1) as usize);
        }
        let up: usize = r[p] + 1;
        r.set(p, up);
        assert forall|q: int| 0 <= q < n implies #[trigger] r[q] == floors[q] + (if next.contains(
            q as usize,
        ) {
            1int
        } else {
            0int
        }) by {
            assert(prior[q] == floors[q] + (if front.contains(q as usize) {
                1int
            } else {
                0int
            }));
            if front.contains(q as usize) {
                let b = choose|b: int| 0 <= b < front.len() && front[b] == q as usize;
                assert(next[b] == q as usize);
            }
            if q == p {
                assert(next[a as int] == q as usize);
            } else if next.contains(q as usize) {
                let b = choose|b: int| 0 <= b < next.len() && next[b] == q as usize;
                assert(front[b] == q as usize);
            }
        }
        a += 1;
    }
    proof {
        assert forall|p: int| 0 <= p < n implies #[trigger] r[p] == rounded(
            floors@,
            fracs@,
            total as int,
            p,
        ) by {
            assert(order@.contains(p as usize));
            let b = choose|b: int| 0 <= b < order@.len() && order@[b] == p as usize;
            lemma_rank(keys@, order@, b);
            assert(earlier(keys@, p) =~= served_before(fracs@, p)) by {
                assert forall|j: int| 0 <= j < n implies (before(keys@, j, p) <==> (fracs[j].key
                    > fracs[p].key || (fracs[j].key == fracs[p].key && j < p))) by {
                    lemma_single_key_order(fracs[j].key, fracs[p].key);
                    assert(keys[j]@ == seq![(i64::MAX - fracs[j].key) as u64]);
                    assert(keys[p]@ == seq![(i64::MAX - fracs[p].key) as u64]);
                    assert(keys[j]@[0] == (i64::MAX - fracs[j].key) as u64);
                    assert(keys[p]@[0] == (i64::MAX - fracs[p].key) as u64);
                }
            }
            let front = order@.subrange(0, reach as int);
            if b < reach {
                assert(front[b] == p as usize);
            } else if front.contains(p as usize) {
                let c = choose|c: int| 0 <= c < front.len() && front[c] == p as usize;
                assert(order@[c] == order@[b]);
            }
        }
    }
    r
}

proof fn lemma_single_key_order(a: i64, b: i64)
    ensures
        lex_lt(seq![(i64::MAX - a) as u64], seq![(i64::MAX - b) as u64]) <==> a > b,
        (i64::MAX - a) as u64 == (i64::MAX - b) as u64 <==> a == b,
{
    let x = seq![(i64::MAX - a) as u64];
    let y = seq![(i64::MAX - b) as u64];
    assert((i64::MAX - a) as u64 == i64::MAX - a);
    assert((i64::MAX - b) as u64 == i64::MAX - b);
    if a > b {
        assert(crate::order::splits_at(x, y, 0));
    }
    if lex_lt(x, y) {
        let k = choose|k: int| crate::order::splits_at(x, y, k);
        assert(k == 0);
    }
}

proof fn lemma_served_before(fracs: Seq<Num>, i: int)
    requires
        0 <= i < fracs.len(),
    ensures
        served_before(fracs, i).finite(),
        served_before(fracs, i).len() < fracs.len(),
{
    let n = fracs.len() as int;
    let all = set_int_range(0, n);
    lemma_int_range(0, n);
    let others = all.remove(i);
    assert(served_before(fracs, i).subset_of(others));
    lemma_len_subset(served_before(fracs, i), others);
}

proof fn lemma_ranks_differ(fracs: Seq<Num>, i: int, j: int)
    requires
        0 <= i < fracs.len(),
        0 <= j < fracs.len(),
        served_before(fracs, j).contains(i),
    ensures
        served_before(fracs, i).len() < served_before(fracs, j).len(),
{
    lemma_served_before(fracs, i);
    lemma_served_before(fracs, j);
    let rest = served_before(fracs, j).remove(i);
    assert(served_before(fracs, i).subset_of(rest));
    lemma_len_subset(served_before(fracs, i), rest);
}

/// The cells that the leftover reaches.
spec fn reached(fracs: Seq<Num>, left: int, m: int) -> Set<int> {
    Set::new(|i: int| 0 <= i < m && served_before(fracs, i).len() < left)
}

proof fn lemma_reached_count(fracs: Seq<Num>, left: int)
    requires
        0 <= left,
    ensures
        reached(fracs, left, fracs.len() as int).finite(),
        reached(fracs, left, fracs.len() as int).len() == if left < fracs.len() {
            left
        } else {
            fracs.len() as int
        },
{
    let n = fracs.len() as int;
    let all = set_int_range(0, n);
    let f = |i: int| served_before(fracs, i).len() as int;
    lemma_int_range(0, n);
    assert forall|a: int, b: int| all.contains(a) && all.contains(b) && #[trigger] f(a)
        == #[trigger] f(b) implies a == b by {
        if a != b {
            if served_before(fracs, b).contains(a) {
                lemma_ranks_differ(fracs, a, b);
            } else {
                assert(served_before(fracs, a).contains(b));
                lemma_ranks_differ(fracs, b, a);
            }
        }
    }
    let image = all.map(f);
    lemma_map_size(all, image, f);
    assert forall|k: int| image.contains(k) implies all.contains(k) by {
        let i = choose|i: int| all.contains(i) && f(i) == k;
        lemma_served_before(fracs, i);
    }
    lemma_subset_equality(image, all);
    let top: int = if left < n {
        left
    } else {
        n
    };
    let from = reached(fracs, left, n);
    let to = set_int_range(0, top);
    lemma_int_range(0, top);
    assert(from.subset_of(all));
    lemma_len_subset(from, all);
    assert(from.map(f) =~= to) by {
        assert forall|k: int| to.contains(k) implies from.map(f).contains(k) by {
            assert(image.contains(k));
            let i = choose|i: int| all.contains(i) && f(i) == k;
            assert(from.contains(i));
        }
        assert forall|k: int| from.map(f).contains(k) implies to.contains(k) by {
            let i = choose|i: int| from.contains(i) && f(i) == k;
            lemma_served_before(fracs, i);
        }
    }
    lemma_map_size(from, to, f);
}

proof fn lemma_total_of_rounded(
    floors: Seq<usize>,
    fracs: Seq<Num>,
    total: int,
    r: Seq<usize>,
    m: int,
)
    requires
        floors.len() == fracs.len(),
        r.len() == floors.len(),
        forall|i: int| 0 <= i < r.len() ==> #[trigger] r[i] == rounded(floors, fracs, total, i),
        0 <= m <= r.len(),
    ensures
        reached(fracs, leftover(floors, total), m).finite(),
        total_of(r.subrange(0, m)) == total_of(floors.subrange(0, m)) + reached(
            fracs,
            leftover(floors, total),
            m,
        ).len(),
    decreases m,
{
    let left = leftover(floors, total);
    if m == 0 {
        assert(reached(fracs, left, 0) =~= Set::empty());
    } else {
        lemma_total_of_rounded(floors, fracs, total, r, m - 1);
        assert(r.subrange(0, m).drop_last() =~= r.subrange(0, m - 1));
        assert(floors.subrange(0, m).drop_last() =~= floors.subrange(0, m - 1));
        assert(r[m - 1] == rounded(floors, fracs, total, m - 1));
        if served_before(fracs, m - 1).len() < left {
            assert(reached(fracs, left, m) =~= reached(fracs, left, m - 1).insert(m - 1));
        } else {
            assert(reached(fracs, left, m) =~= reached(fracs, left, m - 1));
        }
    }
}

/// Rounding keeps the total, as long as the whole shares fall short of it by no more than one
/// per cell, and every cell gets its whole share or one more.
pub proof fn law_rounding_conserves_total(floors: Seq<usize>, fracs: Seq<Num>, total: int, r: Seq<usize>)
    requires
        floors.len() == fracs.len(),
        r.len() == floors.len(),
        forall|i: int| 0 <= i < r.len() ==> #[trigger] r[i] == rounded(floors, fracs, total, i),
        total_of(floors) <= total <= total_of(floors) + floors.len(),
    ensures
        total_of(r) == total,
        forall|i: int|
            0 <= i < r.len() ==> (#[trigger] r[i] == floors[i] || r[i] == floors[i] + 1),
{
    lemma_total_of_rounded(floors, fracs, total, r, r.len() as int);
    lemma_reached_count(fracs, leftover(floors, total));
    assert(r.subrange(0, r.len() as int) =~= r);
    assert(floors.subrange(0, floors.len() as int) =~= floors);
    assert forall|i: int| 0 <= i < r.len() implies (#[trigger] r[i] == floors[i] || r[i]
        == floors[i] + 1) by {
        assert(r[i] == rounded(floors, fracs, total, i));
    }
}

// ---------------------------------------------------------------------------
// Segments
// ---------------------------------------------------------------------------

/// A planned part of the parent's rows.
#[derive(Debug)]
pub struct Segment {
    /// Paths of the members that share these rows; none for the remainder.
    pub members: Vec<String>,
    pub rows: usize,
    /// Constraints of all members together, by parent field.
    pub field_constraints: ConstraintMap,
    /// Slice of the import hash ring.
    pub ring: Option<RingBounds>,
}

/// What a [`Segment`] says, free of representation.
pub struct SegmentModel {
    pub members: Seq<Seq<char>>,
    pub rows: int,
    pub field_constraints: Map<Seq<char>, FieldConstraintsModel>,
    pub ring: Option<RingBounds>,
}

impl Segment {
    /// The content of this segment, free of representation.
    pub open spec fn model(self) -> SegmentModel {
        SegmentModel {
            members: texts(self.members@),
            rows: self.rows as int,
            field_constraints: constraint_models(self.field_constraints@),
            ring: self.ring,
        }
    }
}

/// The models of a list of segments.
pub open spec fn segments_model(s: Seq<Segment>) -> Seq<SegmentModel> {
    Seq::new(s.len(), |i: int| s[i].model())
}

/// Every segment's constraint map is well-formed.
pub open spec fn segments_wf(s: Seq<Segment>) -> bool {
    forall|i: int| 0 <= i < s.len() ==> (#[trigger] s[i]).field_constraints.wf()
}

/// The rows of all segments together.
pub open spec fn segment_rows(s: Seq<SegmentModel>) -> int
    decreases s.len(),
{
    if s.len() == 0 {
        0
    } else {
        segment_rows(s.drop_last()) + s.last().rows
    }
}

/// The segment that holds every row and no member.
pub open spec fn remainder_segment(rows: int) -> SegmentModel {
    SegmentModel { members: Seq::empty(), rows, field_constraints: Map::empty(), ring: None }
}

/// The paths of the members at the given positions.
pub open spec fn member_paths(members: Seq<LowerCoverMember>, at: Seq<u64>) -> Seq<Seq<char>> {
    Seq::new(at.len(), |i: int| members[at[i] as int].path@)
}

/// The segments of the first `n` cells that have rows.
pub open spec fn filled_segments(
    members: Seq<LowerCoverMember>,
    cells: Seq<Cell>,
    counts: Seq<usize>,
    n: int,
) -> Seq<SegmentModel>
    decreases n,
{
    if n <= 0 || n > cells.len() {
        Seq::empty()
    } else {
        let rest = filled_segments(members, cells, counts, n - 1);
        if counts[n - 1] > 0 {
            rest.push(
                SegmentModel {
                    members: member_paths(members, cells[n - 1].ones@),
                    rows: counts[n - 1] as int,
                    field_constraints: constraint_models(cells[n - 1].constraints@),
                    ring: None,
                },
            )
        } else {
            rest
        }
    }
}

/// The segments of a lower cover: its cells that have rows, or the remainder where none has.
pub open spec fn planned(
    parent_rows: int,
    members: Seq<LowerCoverMember>,
    cells: Seq<Cell>,
    counts: Seq<usize>,
) -> Seq<SegmentModel> {
    let filled = filled_segments(members, cells, counts, cells.len() as int);
    if filled.len() > 0 {
        filled
    } else {
        seq![remainder_segment(parent_rows)]
    }
}

/// The share of each cell in the parent's rows: whole rows and the fraction left over, and the sum
/// of the weights.
#[derive(Debug)]
pub struct Shares {
    pub floors: Vec<usize>,
    pub fracs: Vec<Num>,
    pub sum: Num,
}

fn remainder_only(parent_rows: usize) -> (r: Vec<Segment>)
    ensures
        segments_model(r@) == seq![remainder_segment(parent_rows as int)],
        segments_wf(r@),
{
    let mut r: Vec<Segment> = Vec::new();
    let seg = Segment {
        members: Vec::new(),
        rows: parent_rows,
        field_constraints: TextMap::new(),
        ring: None,
    };
    assert(texts(seg.members@) =~= Seq::empty());
    assert(constraint_models(seg.field_constraints@) =~= Map::empty());
    r.push(seg);
    assert(segments_model(r@) =~= seq![remainder_segment(parent_rows as int)]);
    r
}

/// Turns the shares of the feasible combinations into segments with whole row counts. Without
/// members, or when no combination has any weight, the parent keeps all rows to itself.
pub fn plan_segments(
    parent_rows: usize,
    members: &Vec<LowerCoverMember>,
    cells: &Vec<Cell>,
    s: &Shares,
) -> (r: Vec<Segment>)
    requires
        cells_wf(cells@, members.len() as nat),
        s.floors.len() == cells.len(),
        s.fracs.len() == cells.len(),
        total_of(s.floors@) <= usize::MAX,
    ensures
        segments_wf(r@),
        if members.len() == 0 || s.sum.at_most(Num::zero()) {
            segments_model(r@) == seq![remainder_segment(parent_rows as int)]
        } else {
            exists|counts: Seq<usize>|
                {
                    &&& counts.len() == cells.len()
                    &&& forall|i: int|
                        0 <= i < counts.len() ==> #[trigger] counts[i] == count_of(
                            s.floors@,
                            s.fracs@,
                            s.sum,
                            parent_rows as int,
                            i,
                        )
                    &&& segments_model(r@) == #[trigger] planned(
                        parent_rows as int,
                        members@,
                        cells@,
                        counts,
                    )
                }
        },
        members.len() == 0 || s.sum.at_most(Num::zero()) || total_of(s.floors@) <= parent_rows <= total_of(
            s.floors@,
        ) + cells.len() ==> segment_rows(segments_model(r@)) == parent_rows,
{
    if members.len() == 0 || s.sum.le(Num { key: 0 }) {
        let r = remainder_only(parent_rows);
        proof {
            lemma_single_rows(remainder_segment(parent_rows as int));
        }
        return r;
    }
    let counts = largest_remainder(&s.floors, &s.fracs, s.sum, parent_rows);
    proof {
        if total_of(s.floors@) <= parent_rows <= total_of(s.floors@)
            + cells.len() {
            law_rounding_conserves_total(s.floors@, s.fracs@, parent_rows as int, counts@);
        }
    }
    let mut r: Vec<Segment> = Vec::new();
    let mut c: usize = 0;
    assert(segments_model(r@) =~= Seq::empty());
    while c < cells.len()
        invariant
            c <= cells.len(),
            counts.len() == cells.len(),
            cells_wf(cells@, members.len() as nat),
            segments_wf(r@),
            segments_model(r@) == filled_segments(members@, cells@, counts@, c as int),
            segment_rows(segments_model(r@)) == total_of(counts@.subrange(0, c as int)),
        decreases cells.len() - c,
    {
        let ghost prior = segments_model(r@);
        proof {
            assert(counts@.subrange(0, c + 1).drop_last() =~= counts@.subrange(0, c as int));
            assert(cells[c as int].wf(members.len() as nat));
        }
        if counts[c] > 0 {
            let cell = &cells[c];
            let mut paths: Vec<String> = Vec::new();
            let mut k: usize = 0;
            while k < cell.ones.len()
                invariant
                    k <= cell.ones.len(),
                    cell.wf(members.len() as nat),
                    paths.len() == k,
                    forall|a: int|
                        0 <= a < k ==> (#[trigger] paths[a])@ == members[cell.ones[a] as int].path@,
                decreases cell.ones.len() - k,
            {
                assert(bits_of(cell.mask).contains(cell.ones@[k as int] as int));
                paths.push(members[cell.ones[k] as usize].path.clone());
                k += 1;
            }
            assert(texts(paths@) =~= member_paths(members@, cell.ones@));
            let ghost before_push = r@;
            r.push(
                Segment {
                    members: paths,
                    rows: counts[c],
                    field_constraints: copy_map(&cell.constraints),
                    ring: None,
                },
            );
            proof {
                let last = r@[before_push.len() as int].model();
                assert(segments_model(r@) =~= prior.push(last));
                assert(prior.push(last).drop_last() =~= prior);
            }
        }
        c += 1;
    }
    assert(counts@.subrange(0, counts.len() as int) =~= counts@);
    if r.len() == 0 {
        let out = remainder_only(parent_rows);
        proof {
            lemma_single_rows(remainder_segment(parent_rows as int));
            assert(segments_model(out@) == planned(parent_rows as int, members@, cells@, counts@));
        }
        return out;
    }
    assert(segments_model(r@) == planned(parent_rows as int, members@, cells@, counts@));
    r
}

proof fn lemma_single_rows(s: SegmentModel)
    ensures
        segment_rows(seq![s]) == s.rows,
{
    let one = seq![s];
    assert(one.drop_last() =~= Seq::empty());
    assert(segment_rows(one.drop_last()) == 0);
}

/// The ring slice of segment `i`: from where the one before it ends to its own end, the last one
/// up to the end of the parent's ring.
pub open spec fn ring_slice(parent: RingBounds, ends: Seq<Num>, n: int, i: int) -> RingBounds {
    RingBounds {
        start: if i == 0 {
            parent.start
        } else {
            ends[i - 1]
        },
        end: if i == n - 1 {
            parent.end
        } else {
            ends[i]
        },
    }
}

/// Some segment has rows.
pub open spec fn any_rows(s: Seq<Segment>) -> bool {
    exists|i: int| 0 <= i < s.len() && (#[trigger] s[i]).rows > 0
}

/// Tiles the parent's ring over the segments: `ends[i]` is where the slice of segment `i` ends.
/// Without any row nothing changes.
pub fn assign_ring_slices(segments: &mut Vec<Segment>, parent_ring: &RingBounds, ends: &Vec<Num>)
    requires
        ends.len() == old(segments).len(),
        segments_wf(old(segments)@),
    ensures
        final(segments).len() == old(segments).len(),
        segments_wf(final(segments)@),
        forall|i: int|
            0 <= i < old(segments).len() ==> (#[trigger] final(segments)[i]).model() == (SegmentModel {
                ring: if any_rows(old(segments)@) {
                    Some(ring_slice(*parent_ring, ends@, ends.len() as int, i))
                } else {
                    old(segments)[i].ring
                },
                ..old(segments)[i].model()
            }),
{
    let n: usize = segments.len();
    let mut has_rows = false;
    let mut i: usize = 0;
    while i < n
        invariant
            i <= n,
            n == segments.len(),
            segments@ == old(segments)@,
            has_rows == exists|j: int| 0 <= j < i && (#[trigger] segments[j]).rows > 0,
        decreases n - i,
    {
        if segments[i].rows > 0 {
            has_rows = true;
        }
        i += 1;
    }
    if !has_rows {
        return;
    }
    let ghost start = segments@;
    assert(any_rows(start));
    let mut i: usize = 0;
    while i < n
        invariant
            i <= n,
            n == segments.len(),
            n == ends.len(),
            start.len() == n,
            start == old(segments)@,
            segments_wf(segments@),
            any_rows(old(segments)@),
            forall|j: int| i <= j < n ==> #[trigger] segments[j] == start[j],
            forall|j: int|
                0 <= j < i ==> (#[trigger] segments[j]).model() == (SegmentModel {
                    ring: Some(ring_slice(*parent_ring, ends@, n as int, j)),
                    ..start[j].model()
                }),
        decreases n - i,
    {
        let from = if i == 0 {
            parent_ring.start
        } else {
            ends[i - 1]
        };
        let to = if i == n - 1 {
            parent_ring.end
        } else {
            ends[i]
        };
        let seg = &segments[i];
        let updated = Segment {
            members: clone_texts(&seg.members),
            rows: seg.rows,
            field_constraints: copy_map(&seg.field_constraints),
            ring: Some(RingBounds { start: from, end: to }),
        };
        segments.set(i, updated);
        i += 1;
    }
}

/// The slices tile the parent's ring: the first starts where it starts, each starts where the one
/// before it ends, and the last ends where it ends.
pub proof fn law_slices_tile(parent: RingBounds, ends: Seq<Num>, n: int, i: int)
    requires
        n == ends.len(),
        0 <= i < n,
    ensures
        i == 0 ==> ring_slice(parent, ends, n, i).start == parent.start,
        i == n - 1 ==> ring_slice(parent, ends, n, i).end == parent.end,
        i + 1 < n ==> ring_slice(parent, ends, n, i).end == ring_slice(parent, ends, n, i + 1).start,
{
}

// ---------------------------------------------------------------------------
// Laws of the enumeration
// ---------------------------------------------------------------------------

impl Walk {
    /// The member that a decision is about, or one of the cases it chooses between.
    pub open spec fn in_scope(self, at: int, i: int) -> bool {
        match self.entries[at] {
            DfsEntry::Lone(m) => i == m,
            DfsEntry::Group(g) => exists|k: int|
                0 <= k < self.groups[g as int].len() && #[trigger] self.groups[g as int][k] == i,
        }
    }

    /// No member is the subject of two decisions.
    pub open spec fn separate(self) -> bool {
        forall|a: int, b: int, i: int|
            0 <= a < b < self.entries.len() ==> !(#[trigger] self.in_scope(a, i)
                && #[trigger] self.in_scope(b, i))
    }

    /// No member of `mask` is the subject of decision `at` or a later one.
    pub open spec fn undecided(self, at: int, mask: Set<int>) -> bool {
        forall|a: int, i: int|
            at <= a < self.entries.len() && #[trigger] mask.contains(i) ==> !#[trigger] self.in_scope(a, i)
    }

    /// Decision `at` can be left without taking anyone.
    pub open spec fn may_skip(self, at: int) -> bool {
        match self.entries[at] {
            DfsEntry::Lone(_) => true,
            DfsEntry::Group(g) => self.none_open[g as int],
        }
    }

    /// No two members of `mask` disagree.
    pub open spec fn compatible(self, mask: Set<int>) -> bool {
        forall|i: int, j: int|
            #[trigger] mask.contains(i) && #[trigger] mask.contains(j) ==> !self.conflict(i, j)
    }
}

proof fn lemma_conflict_symmetric(w: Walk, i: int, j: int)
    ensures
        w.conflict(i, j) == w.conflict(j, i),
{
}

/// How a leaf comes about: skipping the decision, or taking one member of its scope that can join.
proof fn lemma_leaf_step(
    w: Walk,
    at: int,
    mask: Set<int>,
    c: Map<Seq<char>, FieldConstraintsModel>,
    leaf: CellModel,
)
    requires
        0 <= at < w.entries.len(),
        w.leaves(at, mask, c).contains(leaf),
    ensures
        (w.may_skip(at) && w.leaves(at + 1, mask, c).contains(leaf)) || exists|i: int|
            w.in_scope(at, i) && #[trigger] w.can_join(mask, c, i) && w.leaves(
                at + 1,
                mask.insert(i),
                joined(c, w.maps[i]),
            ).contains(leaf),
{
    let all = w.leaves(at, mask, c);
    let x = choose|x: int| 0 <= x < all.len() && all[x] == leaf;
    match w.entries[at] {
        DfsEntry::Lone(m) => {
            let first = w.leaves(at + 1, mask, c);
            if x < first.len() {
                assert(first[x] == leaf);
            } else {
                let second = w.leaves(at + 1, mask.insert(m as int), joined(c, w.maps[m as int]));
                assert(w.can_join(mask, c, m as int));
                assert(second[x - first.len()] == leaf);
            }
        },
        DfsEntry::Group(g) => {
            let first = if w.none_open[g as int] {
                w.leaves(at + 1, mask, c)
            } else {
                Seq::empty()
            };
            if x < first.len() {
                assert(first[x] == leaf);
            } else {
                let cases = w.case_leaves(at, g as int, 0, mask, c);
                assert(cases[x - first.len()] == leaf);
                lemma_case_step(w, at, g as int, 0, mask, c, leaf);
            }
        },
    }
}

proof fn lemma_case_step(
    w: Walk,
    at: int,
    g: int,
    k: int,
    mask: Set<int>,
    c: Map<Seq<char>, FieldConstraintsModel>,
    leaf: CellModel,
)
    requires
        0 <= at < w.entries.len(),
        0 <= k,
        w.case_leaves(at, g, k, mask, c).contains(leaf),
    ensures
        exists|b: int|
            k <= b < w.groups[g].len() && w.can_join(mask, c, #[trigger] w.groups[g][b] as int)
                && w.leaves(
                at + 1,
                mask.insert(w.groups[g][b] as int),
                joined(c, w.maps[w.groups[g][b] as int]),
            ).contains(leaf),
    decreases w.groups[g].len() - k,
{
    let all = w.case_leaves(at, g, k, mask, c);
    let x = choose|x: int| 0 <= x < all.len() && all[x] == leaf;
    let i = w.groups[g][k] as int;
    let here = if w.can_join(mask, c, i) {
        w.leaves(at + 1, mask.insert(i), joined(c, w.maps[i]))
    } else {
        Seq::empty()
    };
    if x < here.len() {
        assert(here[x] == leaf);
        assert(w.can_join(mask, c, w.groups[g][k] as int));
    } else {
        assert(w.case_leaves(at, g, k + 1, mask, c)[x - here.len()] == leaf);
        lemma_case_step(w, at, g, k + 1, mask, c, leaf);
    }
}

/// A leaf keeps the members it started with and adds members of later decisions only.
proof fn lemma_leaf_extends(
    w: Walk,
    at: int,
    mask: Set<int>,
    c: Map<Seq<char>, FieldConstraintsModel>,
    leaf: CellModel,
)
    requires
        0 <= at <= w.entries.len(),
        w.leaves(at, mask, c).contains(leaf),
    ensures
        mask.subset_of(leaf.mask),
        forall|i: int| #[trigger] leaf.mask.contains(i) ==> mask.contains(i) || exists|a: int|
            at <= a < w.entries.len() && #[trigger] w.in_scope(a, i),
    decreases w.entries.len() - at,
{
    if at == w.entries.len() {
        assert(w.leaves(at, mask, c)[0] == leaf);
    } else {
        lemma_leaf_step(w, at, mask, c, leaf);
        if w.may_skip(at) && w.leaves(at + 1, mask, c).contains(leaf) {
            lemma_leaf_extends(w, at + 1, mask, c, leaf);
        } else {
            let i = choose|i: int|
                w.in_scope(at, i) && #[trigger] w.can_join(mask, c, i) && w.leaves(
                    at + 1,
                    mask.insert(i),
                    joined(c, w.maps[i]),
                ).contains(leaf);
            lemma_leaf_extends(w, at + 1, mask.insert(i), joined(c, w.maps[i]), leaf);
            assert forall|j: int| #[trigger] leaf.mask.contains(j) implies mask.contains(j)
                || exists|a: int| at <= a < w.entries.len() && #[trigger] w.in_scope(a, j) by {
                if mask.insert(i).contains(j) && !mask.contains(j) {
                    assert(w.in_scope(at, j));
                }
            }
        }
    }
}

proof fn lemma_leaf_compatible(
    w: Walk,
    at: int,
    mask: Set<int>,
    c: Map<Seq<char>, FieldConstraintsModel>,
    leaf: CellModel,
)
    requires
        0 <= at <= w.entries.len(),
        w.leaves(at, mask, c).contains(leaf),
        w.compatible(mask),
    ensures
        w.compatible(leaf.mask),
    decreases w.entries.len() - at,
{
    if at == w.entries.len() {
        assert(w.leaves(at, mask, c)[0] == leaf);
    } else {
        lemma_leaf_step(w, at, mask, c, leaf);
        if w.may_skip(at) && w.leaves(at + 1, mask, c).contains(leaf) {
            lemma_leaf_compatible(w, at + 1, mask, c, leaf);
        } else {
            let i = choose|i: int|
                w.in_scope(at, i) && #[trigger] w.can_join(mask, c, i) && w.leaves(
                    at + 1,
                    mask.insert(i),
                    joined(c, w.maps[i]),
                ).contains(leaf);
            assert forall|a: int, b: int| #[trigger]
                mask.insert(i).contains(a) && #[trigger] mask.insert(i).contains(b) implies !w.conflict(
                a,
                b,
            ) by {
                lemma_conflict_symmetric(w, a, b);
                if a == i && b != i {
                    assert(mask.contains(b));
                }
                if b == i && a != i {
                    assert(mask.contains(a));
                }
            }
            lemma_leaf_compatible(w, at + 1, mask.insert(i), joined(c, w.maps[i]), leaf);
        }
    }
}

/// No feasible combination holds two members that disagree on a field.
pub proof fn law_members_agree(w: Walk, leaf: CellModel, i: int, j: int)
    requires
        w.feasible().contains(leaf),
        leaf.mask.contains(i),
        leaf.mask.contains(j),
    ensures
        !w.conflict(i, j),
{
    lemma_leaf_compatible(w, 0, Set::empty(), Map::empty(), leaf);
}

proof fn lemma_one_choice(
    w: Walk,
    at: int,
    mask: Set<int>,
    c: Map<Seq<char>, FieldConstraintsModel>,
    leaf: CellModel,
    a: int,
)
    requires
        0 <= at <= a < w.entries.len(),
        w.separate(),
        w.undecided(at, mask),
        w.leaves(at, mask, c).contains(leaf),
    ensures
        forall|i: int, j: int|
            #[trigger] leaf.mask.contains(i) && #[trigger] leaf.mask.contains(j) && w.in_scope(a, i)
                && w.in_scope(a, j) ==> i == j,
        !w.may_skip(a) ==> exists|i: int| #[trigger] leaf.mask.contains(i) && w.in_scope(a, i),
    decreases w.entries.len() - at,
{
    lemma_leaf_step(w, at, mask, c, leaf);
    if w.may_skip(at) && w.leaves(at + 1, mask, c).contains(leaf) {
        if a > at {
            lemma_one_choice(w, at + 1, mask, c, leaf, a);
        } else {
            lemma_leaf_extends(w, at + 1, mask, c, leaf);
            assert forall|i: int| #[trigger] leaf.mask.contains(i) implies !w.in_scope(a, i) by {
                if !mask.contains(i) {
                    let b = choose|b: int| at + 1 <= b < w.entries.len() && #[trigger] w.in_scope(b, i);
                    assert(w.in_scope(b, i));
                }
            }
        }
    } else {
        let m = choose|i: int|
            w.in_scope(at, i) && #[trigger] w.can_join(mask, c, i) && w.leaves(
                at + 1,
                mask.insert(i),
                joined(c, w.maps[i]),
            ).contains(leaf);
        let next = mask.insert(m);
        assert(w.undecided(at + 1, next)) by {
            assert forall|b: int, i: int|
                at + 1 <= b < w.entries.len() && #[trigger] next.contains(i) implies !#[trigger] w.in_scope(
                b,
                i,
            ) by {
                if i != m {
                    assert(mask.contains(i));
                } else {
                    assert(w.in_scope(at, m));
                }
            }
        }
        lemma_leaf_extends(w, at + 1, next, joined(c, w.maps[m]), leaf);
        if a > at {
            lemma_one_choice(w, at + 1, next, joined(c, w.maps[m]), leaf, a);
        } else {
            assert(leaf.mask.contains(m)) by {
                assert(next.contains(m));
            }
            assert forall|i: int| #[trigger] leaf.mask.contains(i) && w.in_scope(a, i) implies i
                == m by {
                if !next.contains(i) {
                    let b = choose|b: int| at + 1 <= b < w.entries.len() && #[trigger] w.in_scope(b, i);
                    assert(w.in_scope(b, i));
                } else if i != m {
                    assert(mask.contains(i));
                }
            }
        }
    }
}

/// Cases of one union exclude each other: a feasible combination takes at most one member of each
/// decision, and exactly one where "none" has no weight.
pub proof fn law_cases_exclude_each_other(w: Walk, leaf: CellModel, a: int, i: int, j: int)
    requires
        w.separate(),
        w.feasible().contains(leaf),
        0 <= a < w.entries.len(),
    ensures
        leaf.mask.contains(i) && leaf.mask.contains(j) && w.in_scope(a, i) && w.in_scope(a, j) ==> i
            == j,
        !w.may_skip(a) ==> exists|m: int| #[trigger] leaf.mask.contains(m) && w.in_scope(a, m),
{
    lemma_one_choice(w, 0, Set::empty(), Map::empty(), leaf, a);
}

/// No two cells have the same members.
pub open spec fn masks_differ(s: Seq<CellModel>) -> bool {
    forall|x: int, y: int|
        0 <= x < y < s.len() ==> (#[trigger] s[x]).mask != (#[trigger] s[y]).mask
}

/// No group names a member twice.
pub open spec fn named_once(groups: Seq<Seq<usize>>) -> bool {
    forall|g: int, k: int, l: int|
        0 <= g < groups.len() && 0 <= k < l < groups[g].len() ==> #[trigger] groups[g][k]
            != #[trigger] groups[g][l]
}

proof fn lemma_masks_join(a: Seq<CellModel>, b: Seq<CellModel>)
    requires
        masks_differ(a),
        masks_differ(b),
        forall|x: int, y: int|
            0 <= x < a.len() && 0 <= y < b.len() ==> (#[trigger] a[x]).mask != (#[trigger] b[y]).mask,
    ensures
        masks_differ(a + b),
{
    let s = a + b;
    assert forall|x: int, y: int| 0 <= x < y < s.len() implies (#[trigger] s[x]).mask != (
    #[trigger] s[y]).mask by {
        if y < a.len() {
            assert(a[x].mask != a[y].mask);
        } else if x >= a.len() {
            assert(b[x - a.len()].mask != b[y - a.len()].mask);
        } else {
            assert(a[x].mask != b[y - a.len()].mask);
        }
    }
}

proof fn lemma_skipping_takes_none(
    w: Walk,
    at: int,
    mask: Set<int>,
    c: Map<Seq<char>, FieldConstraintsModel>,
    leaf: CellModel,
    i: int,
)
    requires
        w.separate(),
        0 <= at < w.entries.len(),
        w.undecided(at, mask),
        w.leaves(at + 1, mask, c).contains(leaf),
        leaf.mask.contains(i),
    ensures
        !w.in_scope(at, i),
{
    lemma_leaf_extends(w, at + 1, mask, c, leaf);
    if !mask.contains(i) {
        let b = choose|b: int| at + 1 <= b < w.entries.len() && #[trigger] w.in_scope(b, i);
        assert(w.in_scope(b, i));
    }
}

proof fn lemma_taking_takes_one(
    w: Walk,
    at: int,
    mask: Set<int>,
    c: Map<Seq<char>, FieldConstraintsModel>,
    leaf: CellModel,
    m: int,
    i: int,
)
    requires
        w.separate(),
        0 <= at < w.entries.len(),
        w.undecided(at, mask),
        w.in_scope(at, m),
        w.leaves(at + 1, mask.insert(m), c).contains(leaf),
    ensures
        leaf.mask.contains(m),
        leaf.mask.contains(i) && w.in_scope(at, i) ==> i == m,
{
    let next = mask.insert(m);
    lemma_undecided_after(w, at, mask, m);
    lemma_leaf_extends(w, at + 1, next, c, leaf);
    assert(next.contains(m));
    if leaf.mask.contains(i) && w.in_scope(at, i) && i != m {
        if next.contains(i) {
            assert(mask.contains(i));
        } else {
            let b = choose|b: int| at + 1 <= b < w.entries.len() && #[trigger] w.in_scope(b, i);
            assert(w.in_scope(b, i));
        }
    }
}

proof fn lemma_undecided_after(w: Walk, at: int, mask: Set<int>, m: int)
    requires
        w.separate(),
        0 <= at < w.entries.len(),
        w.undecided(at, mask),
        w.in_scope(at, m),
    ensures
        w.undecided(at + 1, mask.insert(m)),
{
    let next = mask.insert(m);
    assert forall|b: int, j: int|
        at + 1 <= b < w.entries.len() && #[trigger] next.contains(j) implies !#[trigger] w.in_scope(
        b,
        j,
    ) by {
        if j != m {
            assert(mask.contains(j));
        } else {
            assert(w.in_scope(at, m));
        }
    }
}

proof fn lemma_masks_differ(
    w: Walk,
    at: int,
    mask: Set<int>,
    c: Map<Seq<char>, FieldConstraintsModel>,
)
    requires
        w.separate(),
        w.fits(),
        named_once(w.groups),
        0 <= at <= w.entries.len(),
        w.undecided(at, mask),
    ensures
        masks_differ(w.leaves(at, mask, c)),
    decreases w.entries.len() - at, 1int, 0int,
{
    if at < w.entries.len() {
        assert(w.undecided(at + 1, mask));
        lemma_masks_differ(w, at + 1, mask, c);
        let skipped = w.leaves(at + 1, mask, c);
        match w.entries[at] {
            DfsEntry::Lone(m) => {
                let i = m as int;
                assert(w.in_scope(at, i));
                if w.can_join(mask, c, i) {
                    lemma_undecided_after(w, at, mask, i);
                    lemma_masks_differ(w, at + 1, mask.insert(i), joined(c, w.maps[i]));
                    let taken = w.leaves(at + 1, mask.insert(i), joined(c, w.maps[i]));
                    assert forall|x: int, y: int|
                        0 <= x < skipped.len() && 0 <= y < taken.len() implies (
                    #[trigger] skipped[x]).mask != (#[trigger] taken[y]).mask by {
                        assert(skipped.contains(skipped[x]));
                        assert(taken.contains(taken[y]));
                        lemma_taking_takes_one(
                            w,
                            at,
                            mask,
                            joined(c, w.maps[i]),
                            taken[y],
                            i,
                            i,
                        );
                        if skipped[x].mask.contains(i) {
                            lemma_skipping_takes_none(w, at, mask, c, skipped[x], i);
                        }
                    }
                    lemma_masks_join(skipped, taken);
                } else {
                    assert(skipped + Seq::<CellModel>::empty() =~= skipped);
                }
            },
            DfsEntry::Group(g) => {
                let cases = w.case_leaves(at, g as int, 0, mask, c);
                lemma_case_masks_differ(w, at, g as int, 0, mask, c);
                if w.none_open[g as int] {
                    assert forall|x: int, y: int|
                        0 <= x < skipped.len() && 0 <= y < cases.len() implies (
                    #[trigger] skipped[x]).mask != (#[trigger] cases[y]).mask by {
                        assert(skipped.contains(skipped[x]));
                        assert(cases.contains(cases[y]));
                        lemma_case_step(w, at, g as int, 0, mask, c, cases[y]);
                        let b = choose|b: int|
                            0 <= b < w.groups[g as int].len() && w.can_join(
                                mask,
                                c,
                                #[trigger] w.groups[g as int][b] as int,
                            ) && w.leaves(
                                at + 1,
                                mask.insert(w.groups[g as int][b] as int),
                                joined(c, w.maps[w.groups[g as int][b] as int]),
                            ).contains(cases[y]);
                        let i = w.groups[g as int][b] as int;
                        assert(w.in_scope(at, i));
                        lemma_taking_takes_one(
                            w,
                            at,
                            mask,
                            joined(c, w.maps[i]),
                            cases[y],
                            i,
                            i,
                        );
                        if skipped[x].mask.contains(i) {
                            lemma_skipping_takes_none(w, at, mask, c, skipped[x], i);
                        }
                    }
                    lemma_masks_join(skipped, cases);
                } else {
                    assert(Seq::<CellModel>::empty() + cases =~= cases);
                }
            },
        }
    }
}

proof fn lemma_case_masks_differ(
    w: Walk,
    at: int,
    g: int,
    k: int,
    mask: Set<int>,
    c: Map<Seq<char>, FieldConstraintsModel>,
)
    requires
        w.separate(),
        w.fits(),
        named_once(w.groups),
        0 <= at < w.entries.len(),
        w.entries[at] == DfsEntry::Group(g as usize),
        0 <= g < w.groups.len(),
        g <= usize::MAX,
        0 <= k,
        w.undecided(at, mask),
    ensures
        masks_differ(w.case_leaves(at, g, k, mask, c)),
    decreases w.entries.len() - at, 0int, w.groups[g].len() - k,
{
    if k < w.groups[g].len() {
        let i = w.groups[g][k] as int;
        assert(w.in_scope(at, i));
        lemma_case_masks_differ(w, at, g, k + 1, mask, c);
        let later = w.case_leaves(at, g, k + 1, mask, c);
        if w.can_join(mask, c, i) {
            lemma_undecided_after(w, at, mask, i);
            lemma_masks_differ(w, at + 1, mask.insert(i), joined(c, w.maps[i]));
            let here = w.leaves(at + 1, mask.insert(i), joined(c, w.maps[i]));
            assert forall|x: int, y: int|
                0 <= x < here.len() && 0 <= y < later.len() implies (#[trigger] here[x]).mask != (
            #[trigger] later[y]).mask by {
                assert(here.contains(here[x]));
                assert(later.contains(later[y]));
                lemma_case_step(w, at, g, k + 1, mask, c, later[y]);
                let b = choose|b: int|
                    k + 1 <= b < w.groups[g].len() && w.can_join(
                        mask,
                        c,
                        #[trigger] w.groups[g][b] as int,
                    ) && w.leaves(
                        at + 1,
                        mask.insert(w.groups[g][b] as int),
                        joined(c, w.maps[w.groups[g][b] as int]),
                    ).contains(later[y]);
                let j = w.groups[g][b] as int;
                assert(w.in_scope(at, j));
                assert(w.groups[g][k] != w.groups[g][b]);
                lemma_taking_takes_one(w, at, mask, joined(c, w.maps[i]), here[x], i, j);
                lemma_taking_takes_one(w, at, mask, joined(c, w.maps[j]), later[y], j, j);
            }
            lemma_masks_join(here, later);
        } else {
            assert(Seq::<CellModel>::empty() + later =~= later);
        }
    }
}

/// The enumeration names every combination once: no two of its cells have the same members, as
/// long as no member is the subject of two decisions and no group names one twice.
pub proof fn law_combinations_differ(w: Walk)
    requires
        w.separate(),
        w.fits(),
        named_once(w.groups),
    ensures
        masks_differ(w.feasible()),
{
    lemma_masks_differ(w, 0, Set::empty(), Map::empty());
}

/// Groups without a common member make the decisions of a lower cover separate.
pub proof fn law_disjoint_groups_are_separate(
    members: Seq<LowerCoverMember>,
    groups: Seq<ExclusionGroup>,
    none_open: Seq<bool>,
)
    requires
        members.len() <= usize::MAX,
        groups.len() <= usize::MAX,
        forall|g: int, h: int, k: int, l: int|
            0 <= g < h < groups.len() && 0 <= k < groups[g].members.len() && 0 <= l < groups[h].members.len()
                ==> #[trigger] groups[g].members[k] != #[trigger] groups[h].members[l],
    ensures
        walk_of(members, groups, none_open).separate(),
{
    let w = walk_of(members, groups, none_open);
    let gm = group_members(groups);
    let n = members.len() as int;
    lemma_decisions_fit(gm, n);
    lemma_decisions_distinct(gm, n);
    assert forall|a: int, b: int, i: int| 0 <= a < b < w.entries.len() implies !(#[trigger] w.in_scope(
        a,
        i,
    ) && #[trigger] w.in_scope(b, i)) by {
        if w.in_scope(a, i) && w.in_scope(b, i) {
            match (w.entries[a], w.entries[b]) {
                (DfsEntry::Lone(x), DfsEntry::Lone(y)) => {},
                (DfsEntry::Lone(x), DfsEntry::Group(g)) => {
                    lemma_member_has_group(gm, gm.len() as int, i, g as int);
                },
                (DfsEntry::Group(g), DfsEntry::Lone(x)) => {
                    lemma_member_has_group(gm, gm.len() as int, i, g as int);
                },
                (DfsEntry::Group(g), DfsEntry::Group(h)) => {
                    let k = choose|k: int| 0 <= k < gm[g as int].len() && #[trigger] gm[g as int][k] == i;
                    let l = choose|l: int| 0 <= l < gm[h as int].len() && #[trigger] gm[h as int][l] == i;
                    if g < h {
                        assert(groups[g as int].members[k] != groups[h as int].members[l]);
                    } else {
                        assert(groups[h as int].members[l] != groups[g as int].members[k]);
                    }
                },
            }
        }
    }
}

proof fn lemma_member_has_group(groups: Seq<Seq<usize>>, n: int, m: int, g: int)
    requires
        0 <= g < n <= groups.len(),
        exists|k: int| 0 <= k < groups[g].len() && #[trigger] groups[g][k] == m,
    ensures
        group_of(groups, n, m) is Some,
    decreases n,
{
    if g < n - 1 {
        lemma_member_has_group(groups, n - 1, m, g);
    }
}

/// Each decision occurs once, and a lone member is in no group.
proof fn lemma_decisions_distinct(groups: Seq<Seq<usize>>, n: int)
    requires
        0 <= n <= usize::MAX,
        groups.len() <= usize::MAX,
    ensures
        decisions(groups, n).no_duplicates(),
        forall|a: int|
            0 <= a < decisions(groups, n).len() ==> match #[trigger] decisions(groups, n)[a] {
                DfsEntry::Lone(i) => i < n && group_of(groups, groups.len() as int, i as int) is None,
                DfsEntry::Group(g) => exists|j: int|
                    0 <= j < n && #[trigger] group_of(groups, groups.len() as int, j) == Some(
                        g as int,
                    ),
            },
    decreases n,
{
    if n > 0 {
        lemma_decisions_distinct(groups, n - 1);
        lemma_group_of_range(groups, groups.len() as int, n - 1);
        let rest = decisions(groups, n - 1);
        let all = decisions(groups, n);
        assert forall|a: int, b: int| 0 <= a < all.len() && 0 <= b < all.len() && a != b implies all[a]
            != all[b] by {
            if all.len() > rest.len() && (a == rest.len() || b == rest.len()) {
                let o = if a == rest.len() { b } else { a };
                assert(rest[o] == all[o]);
                match rest[o] {
                    DfsEntry::Lone(i) => {},
                    DfsEntry::Group(g) => {
                        let j = choose|j: int|
                            0 <= j < n - 1 && #[trigger] group_of(groups, groups.len() as int, j)
                                == Some(g as int);
                        assert(group_of(groups, groups.len() as int, j) == Some(g as int));
                    },
                }
            }
        }
        assert forall|a: int| 0 <= a < all.len() implies match #[trigger] all[a] {
            DfsEntry::Lone(i) => i < n && group_of(groups, groups.len() as int, i as int) is None,
            DfsEntry::Group(g) => exists|j: int|
                0 <= j < n && #[trigger] group_of(groups, groups.len() as int, j) == Some(g as int),
        } by {
            if a < rest.len() {
                assert(rest[a] == all[a]);
                if let DfsEntry::Group(g) = rest[a] {
                    let j = choose|j: int|
                        0 <= j < n - 1 && #[trigger] group_of(groups, groups.len() as int, j)
                            == Some(g as int);
                    assert(0 <= j < n && group_of(groups, groups.len() as int, j) == Some(g as int));
                }
            } else {
                if let DfsEntry::Group(g) = all[a] {
                    assert(group_of(groups, groups.len() as int, n - 1) == Some(g as int));
                }
            }
        }
    }
}

impl Walk {
    /// The members of `target` join one after the other, decision by decision from `at` on,
    /// without a conflict and with constraints that keep agreeing.
    pub open spec fn joins_in_turn(
        self,
        at: int,
        mask: Set<int>,
        c: Map<Seq<char>, FieldConstraintsModel>,
        target: Set<int>,
    ) -> bool
        decreases self.entries.len() - at,
    {
        if at < 0 || at >= self.entries.len() {
            mask == target
        } else {
            ||| (self.may_skip(at) && self.joins_in_turn(at + 1, mask, c, target))
            ||| (exists|i: int|
                self.in_scope(at, i) && #[trigger] self.can_join(mask, c, i) && self.joins_in_turn(
                    at + 1,
                    mask.insert(i),
                    joined(c, self.maps[i]),
                    target,
                ))
        }
    }
}

/// The enumeration misses nothing: every set of members that can join in turn is a feasible
/// combination.
pub proof fn law_enumeration_is_complete(w: Walk, target: Set<int>)
    requires
        w.joins_in_turn(0, Set::empty(), Map::empty(), target),
    ensures
        exists|x: int| 0 <= x < w.feasible().len() && (#[trigger] w.feasible()[x]).mask == target,
{
    lemma_complete(w, 0, Set::empty(), Map::empty(), target);
    let all = w.leaves(0, Set::empty(), Map::empty());
    let x = choose|x: int| 0 <= x < all.len() && (#[trigger] all[x]).mask == target;
    assert(w.feasible()[x].mask == target);
}

proof fn lemma_complete(
    w: Walk,
    at: int,
    mask: Set<int>,
    c: Map<Seq<char>, FieldConstraintsModel>,
    target: Set<int>,
)
    requires
        0 <= at <= w.entries.len(),
        w.joins_in_turn(at, mask, c, target),
    ensures
        exists|x: int|
            0 <= x < w.leaves(at, mask, c).len() && (#[trigger] w.leaves(at, mask, c)[x]).mask
                == target,
    decreases w.entries.len() - at,
{
    let all = w.leaves(at, mask, c);
    if at == w.entries.len() {
        assert(all[0].mask == target);
    } else if w.may_skip(at) && w.joins_in_turn(at + 1, mask, c, target) {
        lemma_complete(w, at + 1, mask, c, target);
        let skip = w.leaves(at + 1, mask, c);
        let x = choose|x: int| 0 <= x < skip.len() && (#[trigger] skip[x]).mask == target;
        assert(all[x] == skip[x]);
    } else {
        let i = choose|i: int|
            w.in_scope(at, i) && #[trigger] w.can_join(mask, c, i) && w.joins_in_turn(
                at + 1,
                mask.insert(i),
                joined(c, w.maps[i]),
                target,
            );
        lemma_complete(w, at + 1, mask.insert(i), joined(c, w.maps[i]), target);
        let took = w.leaves(at + 1, mask.insert(i), joined(c, w.maps[i]));
        let x = choose|x: int| 0 <= x < took.len() && (#[trigger] took[x]).mask == target;
        match w.entries[at] {
            DfsEntry::Lone(_) => {
                let skip = w.leaves(at + 1, mask, c);
                assert(all[skip.len() + x] == took[x]);
            },
            DfsEntry::Group(g) => {
                let first = if w.none_open[g as int] {
                    w.leaves(at + 1, mask, c)
                } else {
                    Seq::empty()
                };
                let k = choose|k: int|
                    0 <= k < w.groups[g as int].len() && #[trigger] w.groups[g as int][k] == i;
                lemma_case_included(w, at, g as int, 0, k, mask, c, x);
                let cases = w.case_leaves(at, g as int, 0, mask, c);
                let y = choose|y: int| 0 <= y < cases.len() && #[trigger] cases[y] == took[x];
                assert(all[first.len() + y] == cases[y]);
            },
        }
    }
}

proof fn lemma_case_included(
    w: Walk,
    at: int,
    g: int,
    from: int,
    k: int,
    mask: Set<int>,
    c: Map<Seq<char>, FieldConstraintsModel>,
    x: int,
)
    requires
        0 <= at < w.entries.len(),
        0 <= from <= k < w.groups[g].len(),
        w.can_join(mask, c, w.groups[g][k] as int),
        0 <= x < w.leaves(
            at + 1,
            mask.insert(w.groups[g][k] as int),
            joined(c, w.maps[w.groups[g][k] as int]),
        ).len(),
    ensures
        exists|y: int|
            0 <= y < w.case_leaves(at, g, from, mask, c).len() && #[trigger] w.case_leaves(
                at,
                g,
                from,
                mask,
                c,
            )[y] == w.leaves(
                at + 1,
                mask.insert(w.groups[g][k] as int),
                joined(c, w.maps[w.groups[g][k] as int]),
            )[x],
    decreases k - from,
{
    let all = w.case_leaves(at, g, from, mask, c);
    let i = w.groups[g][from] as int;
    let here = if w.can_join(mask, c, i) {
        w.leaves(at + 1, mask.insert(i), joined(c, w.maps[i]))
    } else {
        Seq::empty()
    };
    if from == k {
        assert(all[x] == here[x]);
    } else {
        lemma_case_included(w, at, g, from + 1, k, mask, c, x);
        let rest = w.case_leaves(at, g, from + 1, mask, c);
        let goal = w.leaves(
            at + 1,
            mask.insert(w.groups[g][k] as int),
            joined(c, w.maps[w.groups[g][k] as int]),
        )[x];
        let y = choose|y: int| 0 <= y < rest.len() && #[trigger] rest[y] == goal;
        assert(all[here.len() + y] == rest[y]);
    }
}

// ---------------------------------------------------------------------------
// What members ask for, and what segments hold
// ---------------------------------------------------------------------------

/// Field `f` of a member refers to the column of the parent that the member calls `reference`.
pub open spec fn refers_to(f: FieldModel, reference: Seq<char>, column: Seq<char>) -> bool {
    f.type_ref() == Some(reference + "."@ + column)
}

/// Field `i` is the last of the fields that refers to the column.
pub open spec fn last_to_refer(
    fields: Seq<FieldModel>,
    reference: Seq<char>,
    column: Seq<char>,
    i: int,
) -> bool {
    &&& 0 <= i < fields.len()
    &&& refers_to(fields[i], reference, column)
    &&& forall|j: int|
        i < j < fields.len() ==> !refers_to(#[trigger] fields[j], reference, column)
}

/// A value that a field names: its `value`, else a member of its `one_of`.
pub open spec fn field_lists(f: FieldModel, v: YamlModel) -> bool {
    match f.value {
        Some(c) => v == c,
        None => f.one_of is Some && f.one_of->0.contains(v),
    }
}

proof fn lemma_refers(f: FieldModel, reference: Seq<char>, column: Seq<char>)
    ensures
        refers_to(f, reference, column) <==> parent_column(f, reference + "."@) == Some(column),
{
    let prefix = reference + "."@;
    if let Some(r) = f.type_ref() {
        if r == prefix + column {
            assert(r.subrange(0, prefix.len() as int) =~= prefix);
            assert(r.subrange(prefix.len() as int, r.len() as int) =~= column);
        }
        if parent_column(f, prefix) == Some(column) {
            assert(r =~= r.subrange(0, prefix.len() as int) + r.subrange(
                prefix.len() as int,
                r.len() as int,
            ));
        }
    }
}

proof fn lemma_imposed(fields: Seq<FieldModel>, reference: Seq<char>, column: Seq<char>, n: int)
    requires
        0 <= n <= fields.len(),
    ensures
        imposed(fields, reference + "."@, n).dom().contains(column) <==> exists|i: int|
            0 <= i < n && refers_to(#[trigger] fields[i], reference, column),
        forall|i: int|
            0 <= i < n && refers_to(#[trigger] fields[i], reference, column) && (forall|j: int|
                i < j < n ==> !refers_to(#[trigger] fields[j], reference, column)) ==> imposed(
                fields,
                reference + "."@,
                n,
            )[column] == constraints_of(fields[i]),
    decreases n,
{
    if n > 0 {
        lemma_imposed(fields, reference, column, n - 1);
        lemma_refers(fields[n - 1], reference, column);
        let prefix = reference + "."@;
        if refers_to(fields[n - 1], reference, column) {
        } else {
            assert(imposed(fields, prefix, n).dom().contains(column) == imposed(
                fields,
                prefix,
                n - 1,
            ).dom().contains(column));
            assert forall|i: int|
                0 <= i < n && refers_to(#[trigger] fields[i], reference, column) && (forall|j: int|
                    i < j < n ==> !refers_to(#[trigger] fields[j], reference, column)) implies imposed(
                fields,
                prefix,
                n,
            )[column] == constraints_of(fields[i]) by {
                assert(i < n - 1);
            }
        }
    }
}

/// A member constrains exactly the columns of its parent that its fields refer to.
pub proof fn law_member_constrains_what_it_refers_to(m: LowerCoverMember, column: Seq<char>)
    ensures
        member_constraints(m).dom().contains(column) <==> exists|i: int|
            0 <= i < fields_model(m.dataset.data@).len() && refers_to(
                #[trigger] fields_model(m.dataset.data@)[i],
                m.reference@,
                column,
            ),
{
    let fields = fields_model(m.dataset.data@);
    lemma_imposed(fields, m.reference@, column, fields.len() as int);
}

/// What a member leaves possible in a column of its parent is exactly what is written on the field
/// that refers to the column, and the field's generator and specialised cases come along.
pub proof fn law_member_asks_for_what_is_written(
    m: LowerCoverMember,
    column: Seq<char>,
    i: int,
    v: YamlModel,
)
    requires
        last_to_refer(fields_model(m.dataset.data@), m.reference@, column, i),
    ensures
        member_constraints(m).dom().contains(column),
        member_constraints(m)[column].allows(v) <==> field_allows(
            fields_model(m.dataset.data@)[i],
            v,
        ),
        member_constraints(m)[column].lists(v) <==> field_lists(
            fields_model(m.dataset.data@)[i],
            v,
        ),
        member_constraints(m)[column].generator == fields_model(m.dataset.data@)[i].generator,
        member_constraints(m)[column].case_overrides == fields_model(
            m.dataset.data@,
        )[i].constrain_cases,
        member_constraints(m)[column].computed is None,
{
    let fields = fields_model(m.dataset.data@);
    lemma_imposed(fields, m.reference@, column, fields.len() as int);
    law_constraints_are_those_written(fields[i], v);
}

/// Two members whose fields restrict the same column of the parent to sets without a common value
/// never share a segment.
pub proof fn law_disjoint_members_never_share(
    members: Seq<LowerCoverMember>,
    groups: Seq<ExclusionGroup>,
    none_open: Seq<bool>,
    leaf: CellModel,
    a: int,
    b: int,
    column: Seq<char>,
    i: int,
    j: int,
)
    requires
        0 <= a < members.len(),
        0 <= b < members.len(),
        a != b,
        last_to_refer(fields_model(members[a].dataset.data@), members[a].reference@, column, i),
        last_to_refer(fields_model(members[b].dataset.data@), members[b].reference@, column, j),
        ({
            let f = fields_model(members[a].dataset.data@)[i];
            let g = fields_model(members[b].dataset.data@)[j];
            &&& f.value is Some || f.one_of is Some
            &&& g.value is Some || g.one_of is Some
            &&& forall|v: YamlModel| #[trigger] field_lists(f, v) ==> !field_lists(g, v)
        }),
        walk_of(members, groups, none_open).feasible().contains(leaf),
    ensures
        !(leaf.mask.contains(a) && leaf.mask.contains(b)),
{
    let w = walk_of(members, groups, none_open);
    let f = fields_model(members[a].dataset.data@)[i];
    let g = fields_model(members[b].dataset.data@)[j];
    let x = w.maps[a][column];
    let y = w.maps[b][column];
    law_member_asks_for_what_is_written(members[a], column, i, YamlModel::Null);
    law_member_asks_for_what_is_written(members[b], column, j, YamlModel::Null);
    law_constraints_are_those_written(f, YamlModel::Null);
    law_constraints_are_those_written(g, YamlModel::Null);
    lemma_imposed(
        fields_model(members[a].dataset.data@),
        members[a].reference@,
        column,
        fields_model(members[a].dataset.data@).len() as int,
    );
    lemma_imposed(
        fields_model(members[b].dataset.data@),
        members[b].reference@,
        column,
        fields_model(members[b].dataset.data@).len() as int,
    );
    assert(x == constraints_of(f));
    assert(y == constraints_of(g));
    assert forall|v: YamlModel| #[trigger] x.lists(v) implies !y.lists(v) by {
        assert(field_lists(f, v));
    }
    law_disjoint_sets_conflict(x, y);
    if leaf.mask.contains(a) && leaf.mask.contains(b) {
        law_members_agree(w, leaf, a, b);
        assert(w.maps[a].dom().contains(column) && w.maps[b].dom().contains(column));
        assert(!agree(w.maps[a], w.maps[b]));
        assert(!agree(w.maps[b], w.maps[a]));
        assert(w.conflict(a, b));
    }
}

impl Walk {
    /// No member has a constant beside a finite set without it.
    pub open spec fn coherent(self) -> bool {
        forall|i: int, k: Seq<char>|
            0 <= i < self.maps.len() && #[trigger] self.maps[i].dom().contains(k)
                ==> self.maps[i][k].coherent()
    }

    /// The constraints on a column leave possible what all members of `mask` leave possible there,
    /// and are there where one of them has some.
    pub open spec fn sums_up(
        self,
        mask: Set<int>,
        c: Map<Seq<char>, FieldConstraintsModel>,
        k: Seq<char>,
        v: YamlModel,
    ) -> bool {
        &&& c.dom().contains(k) <==> exists|i: int|
            mask.contains(i) && #[trigger] self.maps[i].dom().contains(k)
        &&& c.dom().contains(k) ==> (c[k].allows(v) <==> forall|i: int|
            mask.contains(i) && #[trigger] self.maps[i].dom().contains(k) ==> self.maps[i][k].allows(
                v,
            ))
        &&& c.dom().contains(k) ==> c[k].coherent()
    }
}

proof fn lemma_sums_up(
    w: Walk,
    at: int,
    mask: Set<int>,
    c: Map<Seq<char>, FieldConstraintsModel>,
    leaf: CellModel,
    k: Seq<char>,
    v: YamlModel,
)
    requires
        0 <= at <= w.entries.len(),
        w.fits(),
        w.coherent(),
        w.leaves(at, mask, c).contains(leaf),
        w.sums_up(mask, c, k, v),
    ensures
        w.sums_up(leaf.mask, leaf.constraints, k, v),
    decreases w.entries.len() - at,
{
    if at == w.entries.len() {
        assert(w.leaves(at, mask, c)[0] == leaf);
    } else {
        lemma_leaf_step(w, at, mask, c, leaf);
        if w.may_skip(at) && w.leaves(at + 1, mask, c).contains(leaf) {
            lemma_sums_up(w, at + 1, mask, c, leaf, k, v);
        } else {
            let i = choose|i: int|
                w.in_scope(at, i) && #[trigger] w.can_join(mask, c, i) && w.leaves(
                    at + 1,
                    mask.insert(i),
                    joined(c, w.maps[i]),
                ).contains(leaf);
            let next = mask.insert(i);
            let d = joined(c, w.maps[i]);
            assert(0 <= i < w.maps.len());
            if c.dom().contains(k) && w.maps[i].dom().contains(k) {
                law_merge_allows_what_both_allow(c[k], w.maps[i][k], v);
            }
            if w.maps[i].dom().contains(k) {
                assert(next.contains(i) && w.maps[i].dom().contains(k));
            }
            assert(w.sums_up(next, d, k, v)) by {
                if c.dom().contains(k) {
                    let o = choose|o: int| mask.contains(o) && #[trigger] w.maps[o].dom().contains(k);
                    assert(next.contains(o) && w.maps[o].dom().contains(k));
                }
                assert(d.dom().contains(k) <==> exists|o: int|
                    next.contains(o) && #[trigger] w.maps[o].dom().contains(k));
                if d.dom().contains(k) {
                    if d[k].allows(v) {
                        assert forall|o: int|
                            next.contains(o) && #[trigger] w.maps[o].dom().contains(k) implies w.maps[o][k].allows(
                            v,
                        ) by {
                            if o != i {
                                assert(mask.contains(o));
                            }
                        }
                    }
                    if forall|o: int|
                        next.contains(o) && #[trigger] w.maps[o].dom().contains(k)
                            ==> w.maps[o][k].allows(v) {
                        if c.dom().contains(k) {
                            assert forall|o: int|
                                mask.contains(o) && #[trigger] w.maps[o].dom().contains(k) implies w.maps[o][k].allows(
                                v,
                            ) by {
                                assert(next.contains(o));
                            }
                        }
                        if w.maps[i].dom().contains(k) {
                            assert(next.contains(i));
                        }
                    }
                }
            }
            lemma_sums_up(w, at + 1, next, d, leaf, k, v);
        }
    }
}

/// What a segment leaves possible in a column is exactly what all of its members leave possible
/// there; a column that none of them constrains is left alone.
pub proof fn law_segments_ask_for_what_their_members_ask(
    w: Walk,
    leaf: CellModel,
    k: Seq<char>,
    v: YamlModel,
)
    requires
        w.fits(),
        w.coherent(),
        w.feasible().contains(leaf),
    ensures
        leaf.constraints.dom().contains(k) <==> exists|i: int|
            leaf.mask.contains(i) && #[trigger] w.maps[i].dom().contains(k),
        leaf.constraints.dom().contains(k) ==> (leaf.constraints[k].allows(v) <==> forall|i: int|
            leaf.mask.contains(i) && #[trigger] w.maps[i].dom().contains(k)
                ==> w.maps[i][k].allows(v)),
{
    let none = Map::<Seq<char>, FieldConstraintsModel>::empty();
    assert(w.sums_up(Set::empty(), none, k, v));
    lemma_sums_up(w, 0, Set::empty(), none, leaf, k, v);
}

/// A path of a member of `mask`.
pub open spec fn path_of_member(members: Seq<LowerCoverMember>, mask: Set<int>, path: Seq<char>) -> bool {
    exists|i: int| #[trigger] mask.contains(i) && members[i].path@ == path
}

/// A segment stands for a cell: it has the rows of the cell and its constraints, and names exactly
/// the members of the cell.
pub open spec fn stands_for(
    seg: SegmentModel,
    members: Seq<LowerCoverMember>,
    cell: CellModel,
    rows: int,
) -> bool {
    &&& seg.rows == rows
    &&& seg.field_constraints == cell.constraints
    &&& forall|p: Seq<char>|
        seg.members.contains(p) <==> #[trigger] path_of_member(members, cell.mask, p)
}

proof fn lemma_cell_segment(members: Seq<LowerCoverMember>, cell: Cell, seg: SegmentModel, n: nat)
    requires
        cell.wf(n),
        seg.members == member_paths(members, cell.ones@),
        seg.field_constraints == constraint_models(cell.constraints@),
    ensures
        stands_for(seg, members, cell.model(), seg.rows),
{
    let mask = cell.model().mask;
    let at = cell.ones@;
    assert forall|p: Seq<char>| seg.members.contains(p) <==> #[trigger] path_of_member(
        members,
        mask,
        p,
    ) by {
        if path_of_member(members, mask, p) {
            let i = choose|i: int| #[trigger] mask.contains(i) && members[i].path@ == p;
            let a = choose|a: int| 0 <= a < at.len() && #[trigger] at[a] == i;
            assert(seg.members[a] == p);
        }
        if seg.members.contains(p) {
            let a = choose|a: int| 0 <= a < seg.members.len() && seg.members[a] == p;
            assert(mask.contains(at[a] as int));
        }
    }
}

/// Segment `s` stands for cell `c`, which has rows.
pub open spec fn fills(
    segs: Seq<SegmentModel>,
    members: Seq<LowerCoverMember>,
    cells: Seq<Cell>,
    counts: Seq<usize>,
    s: int,
    c: int,
) -> bool {
    &&& counts[c] > 0
    &&& stands_for(segs[s], members, cells[c].model(), counts[c] as int)
}

/// Every cell with rows has a segment that stands for it, and every segment stands for such a
/// cell.
pub proof fn law_segments_stand_for_cells(
    members: Seq<LowerCoverMember>,
    cells: Seq<Cell>,
    counts: Seq<usize>,
    n: int,
    x: int,
)
    requires
        0 <= n <= cells.len(),
        cells_wf(cells, members.len()),
    ensures
        0 <= x < n && counts[x] > 0 ==> exists|s: int|
            0 <= s < filled_segments(members, cells, counts, n).len() && #[trigger] fills(
                filled_segments(members, cells, counts, n),
                members,
                cells,
                counts,
                s,
                x,
            ),
        0 <= x < filled_segments(members, cells, counts, n).len() ==> exists|c: int|
            0 <= c < n && #[trigger] fills(
                filled_segments(members, cells, counts, n),
                members,
                cells,
                counts,
                x,
                c,
            ),
    decreases n,
{
    if n > 0 {
        law_segments_stand_for_cells(members, cells, counts, n - 1, x);
        let rest = filled_segments(members, cells, counts, n - 1);
        let all = filled_segments(members, cells, counts, n);
        assert(cells[n - 1].wf(members.len()));
        if counts[n - 1] > 0 {
            lemma_cell_segment(members, cells[n - 1], all.last(), members.len());
            assert(fills(all, members, cells, counts, rest.len() as int, n - 1));
        }
        if 0 <= x < n - 1 && counts[x] > 0 {
            let s = choose|s: int|
                0 <= s < rest.len() && #[trigger] fills(rest, members, cells, counts, s, x);
            assert(all[s] == rest[s]);
            assert(fills(all, members, cells, counts, s, x));
        }
        if 0 <= x < rest.len() {
            let c = choose|c: int|
                0 <= c < n - 1 && #[trigger] fills(rest, members, cells, counts, x, c);
            assert(all[x] == rest[x]);
            assert(fills(all, members, cells, counts, x, c));
        }
    }
}

/// The leftover of the rounding goes to the largest fractions: a cell never gets one more where a
/// cell with a larger fraction, or an earlier one with the same, does not.
pub proof fn law_largest_fractions_come_first(
    floors: Seq<usize>,
    fracs: Seq<Num>,
    total: int,
    i: int,
    j: int,
)
    requires
        floors.len() == fracs.len(),
        0 <= i < fracs.len(),
        0 <= j < fracs.len(),
        fracs[j].key < fracs[i].key || (fracs[j].key == fracs[i].key && i < j),
        rounded(floors, fracs, total, j) > floors[j],
    ensures
        rounded(floors, fracs, total, i) > floors[i],
{
    lemma_served_before(fracs, i);
    lemma_served_before(fracs, j);
    assert(served_before(fracs, i).subset_of(served_before(fracs, j)));
    lemma_len_subset(served_before(fracs, i), served_before(fracs, j));
}

} // verus!
