//! One segment of a lower cover as a whole: which columns it shares, and where every column of the
//! parent and of each member comes from.
use vstd::prelude::*;

use crate::assembly::{
    atom_columns, atom_source, atom_source_of, atoms_model, build_segment_atom_schema,
    columns_model, dataset_columns, generate_batch, member_columns, opt_columns, parent_columns,
    project_member_columns, project_parent_columns_from_atom, providers, ready_columns,
    AtomColumn, AtomColumnModel, AtomSource, AtomSourceModel, ColumnPlan, ColumnPlanModel,
};
use crate::constraints::FieldConstraintsModel;
use crate::cover::{clone_member, member_model, members_model, MemberModel};
use crate::draws::{slot_tags, tag_draws};
use crate::message::{PartModel, Problem};
use crate::models::{fields_model, CountSpec, Field, FieldModel};
use crate::run::{real_members, segment_role, SegmentRun};
use crate::segment::{constraint_models, LowerCoverMember, Segment};
use crate::text::{clone_texts, texts};

verus! {

// ---------------------------------------------------------------------------
// Rows of a segment
// ---------------------------------------------------------------------------

/// How many rows a segment has: those of its part of the imported file, where there is one; none
/// where it is left out.
pub open spec fn segment_rows(planned: usize, imported: Option<usize>) -> Option<usize> {
    if planned == 0 {
        None
    } else {
        match imported {
            Some(n) => if n == 0 {
                None
            } else {
                Some(n)
            },
            None => Some(planned),
        }
    }
}

impl SegmentRun {
    /// Comes to a segment: its rows, if it is generated at all. Where the imported file has no
    /// rows for it, the slots that were planned for it stay empty.
    pub fn enter_segment(&mut self, planned: usize, imported: Option<usize>) -> (r: Option<usize>)
        requires
            old(self).slot_offset + planned <= usize::MAX,
        ensures
            r == segment_rows(planned, imported),
            final(self).slot_offset == old(self).slot_offset + if imported == Some(0usize) {
                planned as int
            } else {
                0
            },
            final(self).witness_batches@ == old(self).witness_batches@,
            final(self).other_batches@ == old(self).other_batches@,
            final(self).ordered_batches@ == old(self).ordered_batches@,
    {
        if planned == 0 {
            return None;
        }
        match imported {
            Some(n) => if n == 0 {
                self.advance_slot_offset(planned);
                None
            } else {
                Some(n)
            },
            None => Some(planned),
        }
    }
}

/// Every count, but at least one.
pub open spec fn at_least_one(counts: Seq<usize>) -> Seq<usize> {
    Seq::new(
        counts.len(),
        |i: int|
            if counts[i] == 0 {
                1
            } else {
                counts[i]
            },
    )
}

/// The rows of an expanded member: which row of the segment each one belongs to, and its slot.
pub fn expand_slots(slot_offset: usize, drawn: &Vec<usize>) -> (r: (Vec<u32>, Vec<u32>))
    requires
        slot_offset + drawn.len() <= u32::MAX,
    ensures
        r.0@ == slot_tags(0, at_least_one(drawn@), drawn.len() as int),
        r.1@ == slot_tags(slot_offset as int, at_least_one(drawn@), drawn.len() as int),
{
    let mut counts: Vec<usize> = Vec::new();
    let mut i: usize = 0;
    while i < drawn.len()
        invariant
            i <= drawn.len(),
            counts@ == at_least_one(drawn@).subrange(0, i as int),
        decreases drawn.len() - i,
    {
        let c: usize = if drawn[i] == 0 {
            1
        } else {
            drawn[i]
        };
        counts.push(c);
        i += 1;
        assert(counts@ =~= at_least_one(drawn@).subrange(0, i as int));
    }
    assert(counts@ =~= at_least_one(drawn@));
    (tag_draws(0, &counts), tag_draws(slot_offset, &counts))
}

/// An expanded member has rows for every slot of the segment.
pub proof fn law_every_slot_is_expanded(start: int, drawn: Seq<usize>, n: int, i: int)
    requires
        0 <= i < n <= drawn.len(),
    ensures
        slot_tags(start, at_least_one(drawn), n).contains((start + i) as u32),
    decreases n,
{
    let counts = at_least_one(drawn);
    let before = slot_tags(start, counts, n - 1);
    let all = slot_tags(start, counts, n);
    if i == n - 1 {
        assert(counts[n - 1] >= 1);
        assert(all[before.len() as int] == (start + i) as u32);
    } else {
        law_every_slot_is_expanded(start, drawn, n - 1, i);
        let k = choose|k: int| 0 <= k < before.len() && before[k] == (start + i) as u32;
        assert(all[k] == before[k]);
    }
}

// ---------------------------------------------------------------------------
// Rows of a member
// ---------------------------------------------------------------------------

/// Where the rows of a member in a segment come from.
#[derive(Debug, Clone, Copy, PartialEq, Eq, Structural)]
pub enum MemberRows {
    /// They exist already and are taken as they are.
    Reused,
    /// Each row of the segment becomes several rows.
    Expanded(CountSpec),
    /// One for each row of the segment.
    Plain,
}

/// Where the rows of a member come from: a member with a cardinality is expanded, one whose rows
/// exist already is reused.
pub open spec fn rows_for(m: MemberModel, ready: bool) -> MemberRows {
    match m.cardinality {
        Some(c) => MemberRows::Expanded(c),
        None => if ready {
            MemberRows::Reused
        } else {
            MemberRows::Plain
        },
    }
}

/// One member of a segment.
#[derive(Debug)]
pub struct MemberPlan {
    /// The member, by its position in the lower cover.
    pub member: usize,
    pub rows: MemberRows,
    /// Its columns; none where its rows are reused.
    pub columns: Vec<ColumnPlan>,
}

/// What a [`MemberPlan`] says, free of representation.
pub struct MemberPlanModel {
    pub member: usize,
    pub rows: MemberRows,
    pub columns: Seq<ColumnPlanModel>,
}

impl MemberPlan {
    /// The content of this value, free of representation.
    pub open spec fn model(self) -> MemberPlanModel {
        MemberPlanModel {
            member: self.member,
            rows: self.rows,
            columns: columns_model(self.columns@),
        }
    }
}

/// The models of a list of member plans.
pub open spec fn member_plans_model(s: Seq<MemberPlan>) -> Seq<MemberPlanModel> {
    Seq::new(s.len(), |i: int| s[i].model())
}

/// What becomes of one member.
pub open spec fn member_plan(
    member: usize,
    m: MemberModel,
    ready: bool,
    shared: Seq<Seq<char>>,
) -> Result<MemberPlanModel, Seq<PartModel>> {
    let rows = rows_for(m, ready);
    if rows is Reused {
        Ok(MemberPlanModel { member, rows, columns: Seq::empty() })
    } else {
        match member_columns(m, shared, m.dataset.data.len() as int) {
            Ok(columns) => Ok(MemberPlanModel { member, rows, columns }),
            Err(e) => Err(e),
        }
    }
}

fn plan_member(member: usize, m: &LowerCoverMember, ready: bool, shared: &Vec<String>) -> (r: Result<
    MemberPlan,
    Problem,
>)
    ensures
        match r {
            Ok(p) => member_plan(member, member_model(*m), ready, texts(shared@)) == Ok::<
                MemberPlanModel,
                Seq<PartModel>,
            >(p.model()),
            Err(p) => member_plan(member, member_model(*m), ready, texts(shared@)) == Err::<
                MemberPlanModel,
                Seq<PartModel>,
            >(p.model()),
        },
{
    assert(member_model(*m).dataset.data.len() == m.dataset.data.len());
    match m.cardinality {
        Some(c) => {
            let columns = project_member_columns(m, shared)?;
            Ok(MemberPlan { member, rows: MemberRows::Expanded(c), columns })
        },
        None => if ready {
            let columns: Vec<ColumnPlan> = Vec::new();
            assert(columns_model(columns@) =~= Seq::empty());
            Ok(MemberPlan { member, rows: MemberRows::Reused, columns })
        } else {
            let columns = project_member_columns(m, shared)?;
            Ok(MemberPlan { member, rows: MemberRows::Plain, columns })
        },
    }
}

// ---------------------------------------------------------------------------
// The segment
// ---------------------------------------------------------------------------

/// How the rows of a segment come about.
#[derive(Debug)]
pub struct SegmentPlan {
    /// The columns that the parent shares with members.
    pub shared: Vec<AtomColumn>,
    /// Where the values of each of them come from. A member is given by its position among the
    /// members of the segment.
    pub sources: Vec<AtomSource>,
    /// The members that get rows.
    pub members: Vec<MemberPlan>,
    /// The columns of the parent.
    pub parent: Vec<ColumnPlan>,
}

/// What a [`SegmentPlan`] says, free of representation.
pub struct SegmentPlanModel {
    pub shared: Seq<AtomColumnModel>,
    pub sources: Seq<AtomSourceModel>,
    pub members: Seq<MemberPlanModel>,
    pub parent: Seq<ColumnPlanModel>,
}

/// The models of a list of sources.
pub open spec fn sources_model(s: Seq<AtomSource>) -> Seq<AtomSourceModel> {
    Seq::new(s.len(), |i: int| s[i].model())
}

impl SegmentPlan {
    /// The content of this value, free of representation.
    pub open spec fn model(self) -> SegmentPlanModel {
        SegmentPlanModel {
            shared: atoms_model(self.shared@),
            sources: sources_model(self.sources@),
            members: member_plans_model(self.members@),
            parent: columns_model(self.parent@),
        }
    }
}

/// What is known of a lower cover when one of its segments is planned.
pub struct Situation {
    pub parent: Seq<FieldModel>,
    pub members: Seq<MemberModel>,
    /// For each member, the columns of its rows, if they exist.
    pub ready: Seq<Option<Seq<Seq<char>>>>,
    /// The columns of the segment's part of the imported file.
    pub import_columns: Option<Seq<Seq<char>>>,
    pub constraints: Map<Seq<char>, FieldConstraintsModel>,
}

/// The names of shared columns.
pub open spec fn atom_names(s: Seq<AtomColumnModel>) -> Seq<Seq<char>> {
    Seq::new(s.len(), |i: int| s[i].field.name)
}

impl Situation {
    /// The given members only.
    pub open spec fn chosen(self, who: Seq<usize>) -> Seq<MemberModel> {
        Seq::new(who.len(), |i: int| self.members[who[i] as int])
    }

    /// The columns of the given members.
    pub open spec fn chosen_ready(self, who: Seq<usize>) -> Seq<Option<Seq<Seq<char>>>> {
        Seq::new(who.len(), |i: int| self.ready[who[i] as int])
    }

    /// The columns that the parent shares with the given members.
    pub open spec fn atoms(self, who: Seq<usize>) -> Seq<AtomColumnModel> {
        atom_columns(self.parent, self.chosen(who), self.constraints, self.parent.len() as int)
    }

    /// Where the values of the shared columns come from.
    pub open spec fn sources(self, who: Seq<usize>) -> Seq<AtomSourceModel> {
        let atoms = self.atoms(who);
        Seq::new(
            atoms.len(),
            |i: int|
                atom_source_of(
                    atoms[i],
                    self.chosen(who),
                    self.chosen_ready(who),
                    self.import_columns,
                ),
        )
    }

    /// The plans of the first `n` of the given members.
    pub open spec fn member_plans(self, who: Seq<usize>, n: int) -> Result<
        Seq<MemberPlanModel>,
        Seq<PartModel>,
    >
        decreases n,
    {
        if n <= 0 {
            Ok(Seq::empty())
        } else {
            match self.member_plans(who, n - 1) {
                Err(e) => Err(e),
                Ok(before) => match member_plan(
                    who[n - 1],
                    self.members[who[n - 1] as int],
                    self.ready[who[n - 1] as int] is Some,
                    atom_names(self.atoms(who)),
                ) {
                    Err(e) => Err(e),
                    Ok(p) => Ok(before.push(p)),
                },
            }
        }
    }

    /// How the rows of a segment with the given members come about. Without members the parent is
    /// generated alone.
    pub open spec fn plan(self, who: Seq<usize>) -> Result<SegmentPlanModel, Seq<PartModel>> {
        if who.len() == 0 {
            match dataset_columns(
                self.parent,
                self.constraints,
                self.import_columns,
                self.parent.len() as int,
            ) {
                Err(e) => Err(e),
                Ok(parent) => Ok(
                    SegmentPlanModel {
                        shared: Seq::empty(),
                        sources: Seq::empty(),
                        members: Seq::empty(),
                        parent,
                    },
                ),
            }
        } else {
            match self.member_plans(who, who.len() as int) {
                Err(e) => Err(e),
                Ok(members) => Ok(
                    SegmentPlanModel {
                        shared: self.atoms(who),
                        sources: self.sources(who),
                        members,
                        parent: parent_columns(
                            self.parent,
                            atom_names(self.atoms(who)),
                            self.constraints,
                            self.import_columns,
                            self.parent.len() as int,
                        ),
                    },
                ),
            }
        }
    }
}

/// The situation that the arguments of [`plan_segment`] describe.
pub open spec fn situation(
    parent: Seq<Field>,
    members: Seq<LowerCoverMember>,
    ready: Seq<Option<Vec<String>>>,
    import_columns: Option<&Vec<String>>,
    seg: Segment,
) -> Situation {
    Situation {
        parent: fields_model(parent),
        members: members_model(members),
        ready: ready_columns(ready),
        import_columns: match import_columns {
            Some(v) => Some(texts(v@)),
            None => None,
        },
        constraints: constraint_models(seg.field_constraints@),
    }
}

proof fn lemma_providers_below(members: Seq<MemberModel>, column: Seq<char>, n: int)
    requires
        0 <= n <= members.len(),
        n <= usize::MAX,
    ensures
        forall|k: int|
            0 <= k < providers(members, column, n).len() ==> #[trigger] providers(
                members,
                column,
                n,
            )[k] < n,
    decreases n,
{
    if n > 0 {
        lemma_providers_below(members, column, n - 1);
        let before = providers(members, column, n - 1);
        let all = providers(members, column, n);
        assert forall|k: int| 0 <= k < all.len() implies #[trigger] all[k] < n by {
            if k < before.len() {
                assert(all[k] == before[k]);
            }
        }
    }
}

proof fn lemma_atoms_below(
    parent: Seq<FieldModel>,
    members: Seq<MemberModel>,
    constraints: Map<Seq<char>, FieldConstraintsModel>,
    n: int,
    a: int,
)
    requires
        0 <= n <= parent.len(),
        members.len() <= usize::MAX,
        0 <= a < atom_columns(parent, members, constraints, n).len(),
    ensures
        forall|k: int|
            0 <= k < atom_columns(parent, members, constraints, n)[a].providers.len()
                ==> #[trigger] atom_columns(parent, members, constraints, n)[a].providers[k]
                < members.len(),
    decreases n,
{
    if n > 0 {
        let before = atom_columns(parent, members, constraints, n - 1);
        if a < before.len() {
            lemma_atoms_below(parent, members, constraints, n - 1, a);
        } else {
            lemma_providers_below(members, parent[n - 1].name, members.len() as int);
        }
    }
}

proof fn lemma_member_error_stays(s: Situation, who: Seq<usize>, a: int, b: int)
    requires
        0 <= a <= b,
    ensures
        s.member_plans(who, a) is Err ==> s.member_plans(who, b) == s.member_plans(who, a),
    decreases b,
{
    if a < b {
        lemma_member_error_stays(s, who, a, b - 1);
    }
}

fn choose_members(members: &Vec<LowerCoverMember>, who: &Vec<usize>) -> (r: Vec<LowerCoverMember>)
    requires
        forall|k: int| 0 <= k < who.len() ==> #[trigger] who[k] < members.len(),
    ensures
        members_model(r@) == Seq::new(
            who@.len(),
            |i: int| members_model(members@)[who@[i] as int],
        ),
        r.len() == who.len(),
{
    let ghost want = Seq::new(who@.len(), |i: int| members_model(members@)[who@[i] as int]);
    let mut r: Vec<LowerCoverMember> = Vec::new();
    let mut i: usize = 0;
    while i < who.len()
        invariant
            i <= who.len(),
            forall|k: int| 0 <= k < who.len() ==> #[trigger] who[k] < members.len(),
            want == Seq::new(who@.len(), |i: int| members_model(members@)[who@[i] as int]),
            r.len() == i,
            members_model(r@) == want.subrange(0, i as int),
        decreases who.len() - i,
    {
        assert(who[i as int] < members.len());
        let m = clone_member(&members[who[i]]);
        let ghost before = r@;
        r.push(m);
        i += 1;
        assert(members_model(r@) =~= members_model(before).push(member_model(m)));
        assert(members_model(r@) =~= want.subrange(0, i as int));
    }
    assert(members_model(r@) =~= want);
    r
}

fn choose_ready(ready: &Vec<Option<Vec<String>>>, who: &Vec<usize>) -> (r: Vec<Option<Vec<String>>>)
    requires
        forall|k: int| 0 <= k < who.len() ==> #[trigger] who[k] < ready.len(),
    ensures
        ready_columns(r@) == Seq::new(
            who@.len(),
            |i: int| ready_columns(ready@)[who@[i] as int],
        ),
        r.len() == who.len(),
{
    let ghost want = Seq::new(who@.len(), |i: int| ready_columns(ready@)[who@[i] as int]);
    let mut r: Vec<Option<Vec<String>>> = Vec::new();
    let mut i: usize = 0;
    while i < who.len()
        invariant
            i <= who.len(),
            forall|k: int| 0 <= k < who.len() ==> #[trigger] who[k] < ready.len(),
            want == Seq::new(who@.len(), |i: int| ready_columns(ready@)[who@[i] as int]),
            r.len() == i,
            ready_columns(r@) == want.subrange(0, i as int),
        decreases who.len() - i,
    {
        assert(who[i as int] < ready.len());
        let c = match &ready[who[i]] {
            Some(v) => Some(clone_texts(v)),
            None => None,
        };
        assert(opt_columns(c) == opt_columns(ready@[who@[i as int] as int]));
        let ghost before = r@;
        r.push(c);
        i += 1;
        assert(ready_columns(r@) =~= ready_columns(before).push(opt_columns(c)));
        assert(ready_columns(r@) =~= want.subrange(0, i as int));
    }
    assert(ready_columns(r@) =~= want);
    r
}

fn names_of_atoms(atoms: &Vec<AtomColumn>) -> (r: Vec<String>)
    ensures
        texts(r@) == atom_names(atoms_model(atoms@)),
{
    let mut r: Vec<String> = Vec::new();
    let mut i: usize = 0;
    while i < atoms.len()
        invariant
            i <= atoms.len(),
            texts(r@) == atom_names(atoms_model(atoms@)).subrange(0, i as int),
        decreases atoms.len() - i,
    {
        let ghost before = r@;
        r.push(atoms[i].field.name.clone());
        i += 1;
        assert(texts(r@) =~= texts(before).push(atoms[i - 1].field.name@));
        assert(texts(r@) =~= atom_names(atoms_model(atoms@)).subrange(0, i as int));
    }
    assert(texts(r@) =~= atom_names(atoms_model(atoms@)));
    r
}

fn give_sources(
    atoms: &Vec<AtomColumn>,
    members: &Vec<LowerCoverMember>,
    ready: &Vec<Option<Vec<String>>>,
    import_columns: Option<&Vec<String>>,
) -> (r: Vec<AtomSource>)
    requires
        ready.len() == members.len(),
        forall|a: int, k: int|
            0 <= a < atoms.len() && 0 <= k < atoms[a].providers.len()
                ==> #[trigger] atoms[a].providers@[k] < members.len(),
    ensures
        sources_model(r@) == Seq::new(
            atoms@.len(),
            |i: int|
                atom_source_of(
                    atoms_model(atoms@)[i],
                    members_model(members@),
                    ready_columns(ready@),
                    match import_columns {
                        Some(v) => Some(texts(v@)),
                        None => None,
                    },
                ),
        ),
{
    let ghost im = match import_columns {
        Some(v) => Some(texts(v@)),
        None => None,
    };
    let ghost mm = members_model(members@);
    let ghost rm = ready_columns(ready@);
    let ghost want = Seq::new(
        atoms@.len(),
        |i: int| atom_source_of(atoms_model(atoms@)[i], mm, rm, im),
    );
    let mut r: Vec<AtomSource> = Vec::new();
    assert(sources_model(r@) =~= want.subrange(0, 0));
    let mut i: usize = 0;
    while i < atoms.len()
        invariant
            i <= atoms.len(),
            ready.len() == members.len(),
            forall|a: int, k: int|
                0 <= a < atoms.len() && 0 <= k < atoms[a].providers.len()
                    ==> #[trigger] atoms[a].providers@[k] < members.len(),
            im == match import_columns {
                Some(v) => Some(texts(v@)),
                None => None,
            },
            mm == members_model(members@),
            rm == ready_columns(ready@),
            want == Seq::new(
                atoms@.len(),
                |i: int| atom_source_of(atoms_model(atoms@)[i], mm, rm, im),
            ),
            r.len() == i,
            sources_model(r@) == want.subrange(0, i as int),
        decreases atoms.len() - i,
    {
        assert forall|k: int| 0 <= k < atoms[i as int].providers.len() implies #[trigger] atoms[
        i as int].providers[k] < members.len() by {
            assert(atoms[i as int].providers@[k] < members.len());
        }
        let source = atom_source(&atoms[i], members, ready, import_columns);
        let ghost before = r@;
        r.push(source);
        i += 1;
        assert(sources_model(r@) =~= sources_model(before).push(source.model()));
        assert(sources_model(r@) =~= want.subrange(0, i as int));
    }
    assert(sources_model(r@) =~= want);
    r
}

/// How the rows of a segment come about.
pub fn plan_segment(
    parent_schema: &Vec<Field>,
    members: &Vec<LowerCoverMember>,
    ready: &Vec<Option<Vec<String>>>,
    import_columns: Option<&Vec<String>>,
    seg: &Segment,
) -> (r: Result<SegmentPlan, Problem>)
    requires
        ready.len() == members.len(),
        seg.field_constraints.wf(),
    ensures
        ({
            let want = situation(
                parent_schema@,
                members@,
                ready@,
                import_columns,
                *seg,
            ).plan(real_members(members_model(members@), texts(seg.members@), seg.members.len() as int));
            match r {
                Ok(p) => want == Ok::<SegmentPlanModel, Seq<PartModel>>(p.model()),
                Err(p) => want == Err::<SegmentPlanModel, Seq<PartModel>>(p.model()),
            }
        }),
{
    let ghost s = situation(parent_schema@, members@, ready@, import_columns, *seg);
    let role = segment_role(seg, members);
    let who = role.real_members;
    assert(s.parent.len() == parent_schema.len());
    if who.len() == 0 {
        let parent = generate_batch(parent_schema, &seg.field_constraints, import_columns)?;
        let p = SegmentPlan {
            shared: Vec::new(),
            sources: Vec::new(),
            members: Vec::new(),
            parent,
        };
        assert(atoms_model(p.shared@) =~= Seq::empty());
        assert(sources_model(p.sources@) =~= Seq::empty());
        assert(member_plans_model(p.members@) =~= Seq::empty());
        return Ok(p);
    }
    assert forall|k: int| 0 <= k < who.len() implies #[trigger] who[k] < ready.len() by {
        assert(who[k] < members.len());
    }
    let taking = choose_members(members, &who);
    let known = choose_ready(ready, &who);
    let atoms = build_segment_atom_schema(parent_schema, &taking, &seg.field_constraints);
    let shared = names_of_atoms(&atoms);
    proof {
        assert(members_model(taking@) =~= s.chosen(who@));
        assert(ready_columns(known@) =~= s.chosen_ready(who@));
        assert(atoms_model(atoms@) == s.atoms(who@));
        assert(s.chosen(who@).len() == taking.len());
        assert forall|a: int, k: int|
            0 <= a < atoms.len() && 0 <= k < atoms[a].providers.len() implies #[trigger] atoms[
            a].providers@[k] < taking.len() by {
            lemma_atoms_below(
                s.parent,
                s.chosen(who@),
                s.constraints,
                s.parent.len() as int,
                a,
            );
            assert(atoms_model(atoms@)[a] == atoms[a].model());
            assert(s.atoms(who@)[a].providers[k] < s.chosen(who@).len());
        }
    }
    let sources = give_sources(&atoms, &taking, &known, import_columns);
    assert(sources_model(sources@) =~= s.sources(who@));
    let mut plans: Vec<MemberPlan> = Vec::new();
    assert(member_plans_model(plans@) =~= Seq::empty());
    let mut i: usize = 0;
    while i < who.len()
        invariant
            i <= who.len(),
            s == situation(parent_schema@, members@, ready@, import_columns, *seg),
            ready.len() == members.len(),
            who.len() > 0,
            who@ == real_members(
                members_model(members@),
                texts(seg.members@),
                seg.members.len() as int,
            ),
            forall|k: int| 0 <= k < who.len() ==> #[trigger] who[k] < members.len(),
            texts(shared@) == atom_names(s.atoms(who@)),
            s.member_plans(who@, i as int) == Ok::<Seq<MemberPlanModel>, Seq<PartModel>>(
                member_plans_model(plans@),
            ),
        decreases who.len() - i,
    {
        assert(who[i as int] < members.len());
        let m: usize = who[i];
        assert(s.members[m as int] == member_model(members@[m as int]));
        assert(s.ready[m as int] == opt_columns(ready@[m as int]));
        match plan_member(m, &members[m], ready[m].is_some(), &shared) {
            Ok(p) => {
                let ghost before = plans@;
                plans.push(p);
                assert(member_plans_model(plans@) =~= member_plans_model(before).push(p.model()));
            },
            Err(e) => {
                proof {
                    assert(s.member_plans(who@, i + 1) == Err::<
                        Seq<MemberPlanModel>,
                        Seq<PartModel>,
                    >(e.model()));
                    lemma_member_error_stays(s, who@, i + 1, who.len() as int);
                }
                return Err(e);
            },
        }
        i += 1;
    }
    let parent = project_parent_columns_from_atom(
        parent_schema,
        &shared,
        &seg.field_constraints,
        import_columns,
    );
    Ok(SegmentPlan { shared: atoms, sources, members: plans, parent })
}

// ---------------------------------------------------------------------------
// Laws
// ---------------------------------------------------------------------------

proof fn lemma_shared_in_member(m: MemberModel, shared: Seq<Seq<char>>, n: int, c: int)
    requires
        member_columns(m, shared, n) is Ok,
        0 <= c < member_columns(m, shared, n)->Ok_0.len(),
    ensures
        member_columns(m, shared, n)->Ok_0[c] matches ColumnPlanModel::Shared { column, .. }
            ==> shared.contains(column),
    decreases n,
{
    if n > 0 {
        let before = member_columns(m, shared, n - 1);
        assert(before is Ok);
        if c < before->Ok_0.len() {
            lemma_shared_in_member(m, shared, n - 1, c);
        }
    }
}

proof fn lemma_plan_of_member(s: Situation, who: Seq<usize>, n: int, k: int)
    requires
        s.member_plans(who, n) is Ok,
        0 <= n <= who.len(),
        0 <= k < s.member_plans(who, n)->Ok_0.len(),
    ensures
        s.member_plans(who, n)->Ok_0.len() == n,
        member_plan(
            who[k],
            s.members[who[k] as int],
            s.ready[who[k] as int] is Some,
            atom_names(s.atoms(who)),
        ) == Ok::<MemberPlanModel, Seq<PartModel>>(s.member_plans(who, n)->Ok_0[k]),
    decreases n,
{
    if n > 0 {
        let before = s.member_plans(who, n - 1);
        assert(before is Ok);
        if n - 1 > 0 {
            lemma_plan_of_member(s, who, n - 1, if k < before->Ok_0.len() { k } else { 0 });
        } else {
            assert(before->Ok_0.len() == 0);
        }
    }
}

/// What a member shares with the parent exists once in the segment: every shared column of a
/// member is among the shared columns of the segment.
pub proof fn law_members_refer_to_shared_columns(s: Situation, who: Seq<usize>, k: int, c: int)
    requires
        s.plan(who) is Ok,
        0 <= k < s.plan(who)->Ok_0.members.len(),
        0 <= c < s.plan(who)->Ok_0.members[k].columns.len(),
    ensures
        s.plan(who)->Ok_0.members[k].columns[c] matches ColumnPlanModel::Shared { column, .. }
            ==> exists|i: int|
            0 <= i < s.plan(who)->Ok_0.shared.len() && (#[trigger] s.plan(
                who,
            )->Ok_0.shared[i]).field.name == column,
{
    lemma_plan_of_member(s, who, who.len() as int, k);
    let m = s.members[who[k] as int];
    let names = atom_names(s.atoms(who));
    let columns = s.plan(who)->Ok_0.members[k].columns;
    lemma_shared_in_member(m, names, m.dataset.data.len() as int, c);
    match columns[c] {
        ColumnPlanModel::Shared { column, .. } => {
            let i = choose|i: int| 0 <= i < names.len() && names[i] == column;
            assert(s.plan(who)->Ok_0.shared[i].field.name == column);
        },
        _ => {},
    }
}

proof fn lemma_parent_shares(
    parent: Seq<FieldModel>,
    shared: Seq<Seq<char>>,
    constraints: Map<Seq<char>, FieldConstraintsModel>,
    import_columns: Option<Seq<Seq<char>>>,
    n: int,
    i: int,
)
    requires
        0 <= i < n <= parent.len(),
        parent[i].is_direct(),
        shared.contains(parent[i].name),
    ensures
        parent_columns(parent, shared, constraints, import_columns, n).contains(
            (ColumnPlanModel::Shared { name: parent[i].name, column: parent[i].name }),
        ),
    decreases n,
{
    let before = parent_columns(parent, shared, constraints, import_columns, n - 1);
    let all = parent_columns(parent, shared, constraints, import_columns, n);
    let want = ColumnPlanModel::Shared { name: parent[i].name, column: parent[i].name };
    if i == n - 1 {
        assert(all[all.len() - 1] == want);
    } else {
        lemma_parent_shares(parent, shared, constraints, import_columns, n - 1, i);
        let k = choose|k: int| 0 <= k < before.len() && before[k] == want;
        assert(all[k] == want);
    }
}

/// The parent takes every shared column from the segment too: parent and members have the same
/// values in it, row by row.
pub proof fn law_parent_uses_shared_columns(s: Situation, who: Seq<usize>, k: int)
    requires
        s.plan(who) is Ok,
        0 <= k < s.plan(who)->Ok_0.shared.len(),
    ensures
        s.plan(who)->Ok_0.parent.contains(
            (ColumnPlanModel::Shared {
                name: s.plan(who)->Ok_0.shared[k].field.name,
                column: s.plan(who)->Ok_0.shared[k].field.name,
            }),
        ),
{
    let n = s.parent.len() as int;
    let names = atom_names(s.atoms(who));
    crate::assembly::law_shared_columns_are_referred_to(
        s.parent,
        s.chosen(who),
        s.constraints,
        n,
        k,
    );
    let i = choose|i: int|
        0 <= i < n && (#[trigger] s.parent[i]).is_direct() && s.parent[i].name == s.atoms(
            who,
        )[k].field.name;
    assert(names[k] == s.parent[i].name);
    lemma_parent_shares(s.parent, names, s.constraints, s.import_columns, n, i);
}

} // verus!
