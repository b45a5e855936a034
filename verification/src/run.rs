//! The run of a plan: what every step needs, what it leaves behind, and what is written in the
//! end. Batches of rows are known here by number only.
use vstd::prelude::*;

use crate::cover::{member_model, members_model, MemberModel};
use crate::message::{join3, join5, problem, said, PartModel, Problem};
use crate::models::{outputs_model, Format, SyntheticDataset, SyntheticDatasetModel};
use crate::plan::{
    specs_model, ExecutionStep, StepModel, WitnessSpec, WitnessSpecModel,
};
use crate::segment::{LowerCoverMember, Segment};
use crate::text::{holds_text, same_text, texts};

verus! {

// ---------------------------------------------------------------------------
// Segments of a lower cover
// ---------------------------------------------------------------------------

/// A list field of the lower cover goes by this path.
pub open spec fn is_witness_path(members: Seq<MemberModel>, path: Seq<char>) -> bool {
    exists|i: int|
        0 <= i < members.len() && (#[trigger] members[i]).is_witness_source && members[i].path
            == path
}

/// The position of the first member with the given path, from `i` on.
pub open spec fn member_position(members: Seq<MemberModel>, path: Seq<char>, i: int) -> Option<int>
    decreases members.len() - i,
{
    if i < 0 || i >= members.len() {
        None
    } else if members[i].path == path {
        Some(i)
    } else {
        member_position(members, path, i + 1)
    }
}

/// The members with rows of their own among the first `n` paths of a segment.
pub open spec fn real_members(members: Seq<MemberModel>, paths: Seq<Seq<char>>, n: int) -> Seq<usize>
    decreases n,
{
    if n <= 0 {
        Seq::empty()
    } else {
        let before = real_members(members, paths, n - 1);
        if is_witness_path(members, paths[n - 1]) {
            before
        } else {
            match member_position(members, paths[n - 1], 0) {
                Some(i) => before.push(i as usize),
                None => before,
            }
        }
    }
}

/// Some path of a segment belongs to a list field.
pub open spec fn has_witness(members: Seq<MemberModel>, paths: Seq<Seq<char>>) -> bool {
    exists|i: int| 0 <= i < paths.len() && is_witness_path(members, #[trigger] paths[i])
}

fn witness_path(members: &Vec<LowerCoverMember>, path: &str) -> (r: bool)
    ensures
        r == is_witness_path(members_model(members@), path@),
{
    let ghost mm = members_model(members@);
    let mut i: usize = 0;
    while i < members.len()
        invariant
            i <= members.len(),
            mm == members_model(members@),
            forall|j: int|
                0 <= j < i ==> !((#[trigger] mm[j]).is_witness_source && mm[j].path == path@),
        decreases members.len() - i,
    {
        assert(mm[i as int] == member_model(members[i as int]));
        if members[i].is_witness_source && same_text(&members[i].path, path) {
            return true;
        }
        i += 1;
    }
    false
}

fn find_member(members: &Vec<LowerCoverMember>, path: &str) -> (r: Option<usize>)
    ensures
        match r {
            Some(i) => i < members.len() && member_position(members_model(members@), path@, 0)
                == Some(i as int),
            None => member_position(members_model(members@), path@, 0) is None,
        },
{
    let ghost mm = members_model(members@);
    let mut i: usize = 0;
    while i < members.len()
        invariant
            i <= members.len(),
            mm == members_model(members@),
            member_position(mm, path@, 0) == member_position(mm, path@, i as int),
        decreases members.len() - i,
    {
        assert(mm[i as int] == member_model(members[i as int]));
        if same_text(&members[i].path, path) {
            return Some(i);
        }
        i += 1;
    }
    None
}

/// Who takes part in a segment.
#[derive(Debug)]
pub struct SegmentRole {
    /// A list field draws from these rows.
    pub has_witness: bool,
    /// The members that get these rows. Without any, the parent is generated alone.
    pub real_members: Vec<usize>,
}

/// Who takes part in a segment.
pub fn segment_role(seg: &Segment, members: &Vec<LowerCoverMember>) -> (r: SegmentRole)
    ensures
        r.has_witness == has_witness(members_model(members@), texts(seg.members@)),
        r.real_members@ == real_members(
            members_model(members@),
            texts(seg.members@),
            seg.members.len() as int,
        ),
        forall|k: int|
            0 <= k < r.real_members.len() ==> #[trigger] r.real_members[k] < members.len(),
{
    let ghost mm = members_model(members@);
    let ghost pm = texts(seg.members@);
    let mut witness = false;
    let mut taking: Vec<usize> = Vec::new();
    let mut i: usize = 0;
    while i < seg.members.len()
        invariant
            i <= seg.members.len(),
            mm == members_model(members@),
            pm == texts(seg.members@),
            witness ==> has_witness(mm, pm),
            !witness ==> forall|j: int| 0 <= j < i ==> !is_witness_path(mm, #[trigger] pm[j]),
            taking@ == real_members(mm, pm, i as int),
            forall|k: int| 0 <= k < taking.len() ==> #[trigger] taking[k] < members.len(),
        decreases seg.members.len() - i,
    {
        assert(pm[i as int] == seg.members[i as int]@);
        if witness_path(members, &seg.members[i]) {
            witness = true;
        } else if let Some(m) = find_member(members, &seg.members[i]) {
            taking.push(m);
        }
        i += 1;
    }
    SegmentRole { has_witness: witness, real_members: taking }
}

/// The batches of a lower cover as its segments are generated.
#[derive(Debug)]
pub struct SegmentRun {
    /// Parent batches of segments that a list field draws from.
    pub witness_batches: Vec<usize>,
    /// Parent batches of all other segments.
    pub other_batches: Vec<usize>,
    /// Parent batches of a parent with list fields, in the order of the segments.
    pub ordered_batches: Vec<usize>,
    /// The slot of the next parent row.
    pub slot_offset: usize,
}

/// How the parent's batches become one.
#[derive(Debug)]
pub enum ParentOrder {
    /// One after the other, as they are.
    InOrder(Vec<usize>),
    /// The first ones as they are, the rest shuffled behind them.
    WitnessFirst { first: Vec<usize>, rest: Vec<usize> },
    /// All shuffled.
    Shuffled(Vec<usize>),
}

impl SegmentRun {
    /// Nothing generated yet.
    pub fn new() -> (r: Self)
        ensures
            r.witness_batches@ == Seq::<usize>::empty(),
            r.other_batches@ == Seq::<usize>::empty(),
            r.ordered_batches@ == Seq::<usize>::empty(),
            r.slot_offset == 0,
    {
        SegmentRun {
            witness_batches: Vec::new(),
            other_batches: Vec::new(),
            ordered_batches: Vec::new(),
            slot_offset: 0,
        }
    }

    /// Adds the parent batch of a segment.
    pub fn push_parent_batch(&mut self, batch: usize, is_staging: bool, has_witness: bool)
        ensures
            final(self).ordered_batches@ == if is_staging {
                old(self).ordered_batches@.push(batch)
            } else {
                old(self).ordered_batches@
            },
            final(self).witness_batches@ == if !is_staging && has_witness {
                old(self).witness_batches@.push(batch)
            } else {
                old(self).witness_batches@
            },
            final(self).other_batches@ == if !is_staging && !has_witness {
                old(self).other_batches@.push(batch)
            } else {
                old(self).other_batches@
            },
            final(self).slot_offset == old(self).slot_offset,
    {
        if is_staging {
            self.ordered_batches.push(batch);
        } else if has_witness {
            self.witness_batches.push(batch);
        } else {
            self.other_batches.push(batch);
        }
    }

    /// Moves on by the rows of a segment.
    pub fn advance_slot_offset(&mut self, n_rows: usize)
        requires
            old(self).slot_offset + n_rows <= usize::MAX,
        ensures
            final(self).slot_offset == old(self).slot_offset + n_rows,
            final(self).witness_batches@ == old(self).witness_batches@,
            final(self).other_batches@ == old(self).other_batches@,
            final(self).ordered_batches@ == old(self).ordered_batches@,
    {
        self.slot_offset = self.slot_offset + n_rows;
    }

    /// How the parent's batches become one: in order for a parent with list fields, rows that a
    /// list field draws from first where there are any, and shuffled otherwise.
    pub fn finalise(self, is_staging: bool, has_witness_sources: bool) -> (r: ParentOrder)
        ensures
            if is_staging {
                r matches ParentOrder::InOrder(v) && v@ == self.ordered_batches@
            } else if has_witness_sources && self.witness_batches@.len() > 0 {
                r matches ParentOrder::WitnessFirst { first, rest } && first@
                    == self.witness_batches@ && rest@ == self.other_batches@
            } else {
                r matches ParentOrder::Shuffled(v) && v@ == self.witness_batches@
                    + self.other_batches@
            },
    {
        if is_staging {
            ParentOrder::InOrder(self.ordered_batches)
        } else if has_witness_sources && self.witness_batches.len() > 0 {
            ParentOrder::WitnessFirst { first: self.witness_batches, rest: self.other_batches }
        } else {
            let mut all = self.witness_batches;
            let mut rest = self.other_batches;
            all.append(&mut rest);
            ParentOrder::Shuffled(all)
        }
    }
}

/// What becomes of a member's rows behind the segments.
#[derive(Debug, Clone, Copy, PartialEq, Eq, Structural)]
pub enum MemberFinish {
    /// It has no rows of its own.
    Skip,
    /// It was written before; its expanded rows replace what is known of it.
    Replace,
    /// It was written before, and stays.
    Keep,
    /// Its rows are put together, computed and written.
    Write,
}

/// What becomes of a member's rows, by whether it has been generated as a parent before and has
/// batches here.
pub open spec fn finish_of(m: MemberModel, was_parent: bool, has_batches: bool) -> MemberFinish {
    if m.is_witness_source {
        MemberFinish::Skip
    } else if was_parent {
        if m.cardinality is Some && has_batches {
            MemberFinish::Replace
        } else {
            MemberFinish::Keep
        }
    } else {
        MemberFinish::Write
    }
}

/// What becomes of a member's rows behind the segments.
pub fn member_finish(m: &LowerCoverMember, was_parent: bool, has_batches: bool) -> (r: MemberFinish)
    ensures
        r == finish_of(member_model(*m), was_parent, has_batches),
{
    if m.is_witness_source {
        MemberFinish::Skip
    } else if was_parent {
        if m.cardinality.is_some() && has_batches {
            MemberFinish::Replace
        } else {
            MemberFinish::Keep
        }
    } else {
        MemberFinish::Write
    }
}

// ---------------------------------------------------------------------------
// State of a run
// ---------------------------------------------------------------------------

/// A batch that is to be written, with its rows.
#[derive(Debug, Clone, Copy, PartialEq, Eq, Structural)]
pub struct Emitted {
    pub batch: usize,
    pub rows: usize,
}

/// What has been gathered for one output file.
#[derive(Debug)]
pub struct SharedFile {
    pub file: String,
    pub format: Format,
    pub batches: Vec<Emitted>,
}

/// What a [`SharedFile`] says, free of representation.
pub struct SharedFileModel {
    pub file: Seq<char>,
    pub format: Format,
    pub batches: Seq<Emitted>,
}

impl SharedFile {
    /// The content of this value, free of representation.
    pub open spec fn model(self) -> SharedFileModel {
        SharedFileModel { file: self.file@, format: self.format, batches: self.batches@ }
    }
}

/// The models of a list of files.
pub open spec fn files_model(s: Seq<SharedFile>) -> Seq<SharedFileModel> {
    Seq::new(s.len(), |i: int| s[i].model())
}

/// A column that values have been gathered in.
#[derive(Debug)]
pub struct GatheredColumn {
    pub path: String,
    pub column: String,
}

/// The columns that values have been gathered in.
pub open spec fn gathered_model(s: Seq<GatheredColumn>) -> Seq<(Seq<char>, Seq<char>)> {
    Seq::new(s.len(), |i: int| (s[i].path@, s[i].column@))
}

/// What a run has done so far.
#[derive(Debug)]
pub struct RunState {
    /// Paths whose rows exist.
    pub computed: Vec<String>,
    /// Paths whose rows were generated with their lower cover.
    pub parents: Vec<String>,
    /// Columns that values have been gathered in.
    pub gathered: Vec<GatheredColumn>,
    /// What has been gathered for the output files.
    pub shared: Vec<SharedFile>,
}

/// What a [`RunState`] says, free of representation.
pub struct RunModel {
    pub computed: Seq<Seq<char>>,
    pub parents: Seq<Seq<char>>,
    pub gathered: Seq<(Seq<char>, Seq<char>)>,
    pub shared: Seq<SharedFileModel>,
}

/// What a step has to do.
#[derive(Debug)]
pub enum StepAction {
    /// Generate a dataset; `staging` leaves out everything but scalar columns, `write` writes it.
    Generate { staging: bool, write: bool },
    /// Generate a dataset with its lower cover.
    GenerateGroup { staging: bool, write: bool },
    /// Draw the rows behind a list field.
    Draw,
    /// Fold drawn rows into list columns, compute, and write.
    Assemble,
    /// Gather values in a column, which does so for the first time or again.
    Gather { first: bool },
    /// Write a dataset.
    Emit,
    /// Put these batches together, shuffle them and write them.
    Write(Vec<Emitted>),
    /// Nothing.
    Skip,
}

/// What a [`StepAction`] says, free of representation.
pub enum ActionModel {
    Generate { staging: bool, write: bool },
    GenerateGroup { staging: bool, write: bool },
    Draw,
    Assemble,
    Gather { first: bool },
    Emit,
    Write(Seq<Emitted>),
    Skip,
}

impl StepAction {
    /// The content of this value, free of representation.
    pub open spec fn model(self) -> ActionModel {
        match self {
            StepAction::Generate { staging, write } => ActionModel::Generate { staging, write },
            StepAction::GenerateGroup { staging, write } => {
                ActionModel::GenerateGroup { staging, write }
            },
            StepAction::Draw => ActionModel::Draw,
            StepAction::Assemble => ActionModel::Assemble,
            StepAction::Gather { first } => ActionModel::Gather { first },
            StepAction::Emit => ActionModel::Emit,
            StepAction::Write(v) => ActionModel::Write(v@),
            StepAction::Skip => ActionModel::Skip,
        }
    }
}

/// The first list field, from `i` on, whose drawn rows do not exist.
pub open spec fn missing_witness(
    computed: Seq<Seq<char>>,
    specs: Seq<WitnessSpecModel>,
    i: int,
) -> Option<int>
    decreases specs.len() - i,
{
    if i < 0 || i >= specs.len() {
        None
    } else if !computed.contains(specs[i].key) {
        Some(i)
    } else {
        missing_witness(computed, specs, i + 1)
    }
}

/// The position of a file, from `i` on.
pub open spec fn file_position(s: Seq<SharedFileModel>, file: Seq<char>, i: int) -> Option<int>
    decreases s.len() - i,
{
    if i < 0 || i >= s.len() {
        None
    } else if s[i].file == file {
        Some(i)
    } else {
        file_position(s, file, i + 1)
    }
}

/// Some batch has rows.
pub open spec fn any_rows(s: Seq<Emitted>) -> bool {
    exists|i: int| 0 <= i < s.len() && (#[trigger] s[i]).rows > 0
}

/// The files with a batch added to one of them; a new file comes last.
pub open spec fn with_batch(
    s: Seq<SharedFileModel>,
    file: Seq<char>,
    format: Format,
    e: Emitted,
) -> Seq<SharedFileModel> {
    match file_position(s, file, 0) {
        Some(i) => s.update(i, SharedFileModel { batches: s[i].batches.push(e), ..s[i] }),
        None => s.push(SharedFileModel { file, format, batches: seq![e] }),
    }
}

/// The files after a batch has been added to the first `n` outputs of a dataset.
pub open spec fn emitted_to(
    s: Seq<SharedFileModel>,
    ds: SyntheticDatasetModel,
    e: Emitted,
    n: int,
) -> Seq<SharedFileModel>
    decreases n,
{
    if n <= 0 {
        s
    } else {
        with_batch(emitted_to(s, ds, e, n - 1), ds.all_outputs()[n - 1].file, ds.format, e)
    }
}

impl RunModel {
    /// What a step has to do, or what it lacks.
    pub open spec fn action(self, step: StepModel) -> Result<ActionModel, Seq<PartModel>> {
        match step {
            StepModel::GenerateStagingNode { .. } => Ok(
                ActionModel::Generate { staging: true, write: false },
            ),
            StepModel::GenerateDataset { defer_emit, .. } => Ok(
                ActionModel::Generate { staging: false, write: !defer_emit },
            ),
            StepModel::GenerateStagingLowerCoverGroup { .. } => Ok(
                ActionModel::GenerateGroup { staging: true, write: false },
            ),
            StepModel::GenerateLowerCoverGroup { defer_emit, .. } => Ok(
                ActionModel::GenerateGroup { staging: false, write: !defer_emit },
            ),
            StepModel::GenerateWitness { staging_path, list_field, linked_path, .. } => {
                if !self.computed.contains(staging_path) {
                    Err(said("witness '"@ + list_field + "': staging batch not yet computed"@))
                } else if !self.computed.contains(linked_path) {
                    Err(said("witness '"@ + list_field + "': linked-slot batch not yet computed"@))
                } else {
                    Ok(ActionModel::Draw)
                }
            },
            StepModel::AssembleFromWitness { staging_path, dataset, specs } => {
                if !self.computed.contains(staging_path) {
                    Err(
                        said(
                            "assemble from witness '"@ + dataset.name
                                + "': staging batch not yet computed"@,
                        ),
                    )
                } else {
                    match missing_witness(self.computed, specs, 0) {
                        Some(i) => Err(
                            said(
                                "assemble from witness '"@ + dataset.name
                                    + "': witness segment for '"@ + specs[i].field
                                    + "' not computed"@,
                            ),
                        ),
                        None => Ok(ActionModel::Assemble),
                    }
                }
            },
            StepModel::AccumulateToLinked { source_path, linked_path, linked_field, .. } => {
                if !self.computed.contains(source_path) {
                    Err(
                        said(
                            "AccumulateToLinked: source batch '"@ + source_path
                                + "' not computed"@,
                        ),
                    )
                } else if !self.computed.contains(linked_path) {
                    Err(
                        said(
                            "AccumulateToLinked: linked batch '"@ + linked_path
                                + "' not computed"@,
                        ),
                    )
                } else {
                    Ok(
                        ActionModel::Gather {
                            first: !self.gathered.contains((linked_path, linked_field)),
                        },
                    )
                }
            },
            StepModel::EmitDataset { path, .. } => {
                if !self.computed.contains(path) {
                    Err(said("EmitDataset: batch at '"@ + path + "' not computed"@))
                } else {
                    Ok(ActionModel::Emit)
                }
            },
            StepModel::WriteSharedOutput { output_file, .. } => {
                match file_position(self.shared, output_file, 0) {
                    None => Ok(ActionModel::Skip),
                    Some(i) => if any_rows(self.shared[i].batches) {
                        Ok(ActionModel::Write(self.shared[i].batches))
                    } else {
                        Ok(ActionModel::Skip)
                    },
                }
            },
        }
    }

    /// The state after a batch of a dataset has been handed to its outputs.
    pub open spec fn emitted(self, ds: SyntheticDatasetModel, e: Emitted) -> RunModel {
        RunModel {
            shared: emitted_to(self.shared, ds, e, ds.all_outputs().len() as int),
            ..self
        }
    }
}

/// The list with a text added, unless it is there already.
pub open spec fn with_text(s: Seq<Seq<char>>, t: Seq<char>) -> Seq<Seq<char>> {
    if s.contains(t) {
        s
    } else {
        s.push(t)
    }
}

fn add_text(v: &mut Vec<String>, t: &str)
    ensures
        texts(final(v)@) == with_text(texts(old(v)@), t@),
{
    if !holds_text(v, t) {
        let ghost before = v@;
        v.push(t.to_owned());
        assert(texts(v@) =~= texts(before).push(t@));
    }
}

fn find_missing(computed: &Vec<String>, specs: &Vec<WitnessSpec>) -> (r: Option<usize>)
    ensures
        match r {
            Some(i) => i < specs.len() && missing_witness(texts(computed@), specs_model(specs@), 0)
                == Some(i as int),
            None => missing_witness(texts(computed@), specs_model(specs@), 0) is None,
        },
{
    let ghost cm = texts(computed@);
    let ghost sm = specs_model(specs@);
    let mut i: usize = 0;
    while i < specs.len()
        invariant
            i <= specs.len(),
            cm == texts(computed@),
            sm == specs_model(specs@),
            missing_witness(cm, sm, 0) == missing_witness(cm, sm, i as int),
        decreases specs.len() - i,
    {
        assert(sm[i as int] == specs[i as int].model());
        if !holds_text(computed, &specs[i].key) {
            return Some(i);
        }
        i += 1;
    }
    None
}

impl RunState {
    /// The content of this state, free of representation.
    pub open spec fn model(self) -> RunModel {
        RunModel {
            computed: texts(self.computed@),
            parents: texts(self.parents@),
            gathered: gathered_model(self.gathered@),
            shared: files_model(self.shared@),
        }
    }

    /// Nothing done yet.
    pub fn new() -> (r: Self)
        ensures
            r.model() == (RunModel {
                computed: Seq::empty(),
                parents: Seq::empty(),
                gathered: Seq::empty(),
                shared: Seq::empty(),
            }),
    {
        let r = RunState {
            computed: Vec::new(),
            parents: Vec::new(),
            gathered: Vec::new(),
            shared: Vec::new(),
        };
        proof {
            assert(r.model().computed =~= Seq::empty());
            assert(r.model().parents =~= Seq::empty());
            assert(r.model().gathered =~= Seq::empty());
            assert(r.model().shared =~= Seq::empty());
        }
        r
    }

    fn find_file(&self, file: &str) -> (r: Option<usize>)
        ensures
            match r {
                Some(i) => i < self.shared.len() && file_position(self.model().shared, file@, 0)
                    == Some(i as int),
                None => file_position(self.model().shared, file@, 0) is None,
            },
    {
        let ghost sm = self.model().shared;
        let mut i: usize = 0;
        while i < self.shared.len()
            invariant
                i <= self.shared.len(),
                sm == self.model().shared,
                file_position(sm, file@, 0) == file_position(sm, file@, i as int),
            decreases self.shared.len() - i,
        {
            assert(sm[i as int] == self.shared[i as int].model());
            if same_text(&self.shared[i].file, file) {
                return Some(i);
            }
            i += 1;
        }
        None
    }

    fn has_gathered(&self, path: &str, column: &str) -> (r: bool)
        ensures
            r == self.model().gathered.contains((path@, column@)),
    {
        let ghost gm = self.model().gathered;
        let mut i: usize = 0;
        while i < self.gathered.len()
            invariant
                i <= self.gathered.len(),
                gm == self.model().gathered,
                forall|j: int| 0 <= j < i ==> #[trigger] gm[j] != (path@, column@),
            decreases self.gathered.len() - i,
        {
            assert(gm[i as int] == (self.gathered[i as int].path@, self.gathered[i as int].column@));
            if same_text(&self.gathered[i].path, path) && same_text(
                &self.gathered[i].column,
                column,
            ) {
                return true;
            }
            i += 1;
        }
        false
    }

    /// What a step has to do, or what it lacks.
    pub fn begin(&self, step: &ExecutionStep) -> (r: Result<StepAction, Problem>)
        ensures
            match r {
                Ok(a) => self.model().action(step.model()) == Ok::<ActionModel, Seq<PartModel>>(
                    a.model(),
                ),
                Err(p) => self.model().action(step.model()) == Err::<ActionModel, Seq<PartModel>>(
                    p.model(),
                ),
            },
    {
        match step {
            ExecutionStep::GenerateStagingNode { .. } => Ok(
                StepAction::Generate { staging: true, write: false },
            ),
            ExecutionStep::GenerateDataset { defer_emit, .. } => Ok(
                StepAction::Generate { staging: false, write: !*defer_emit },
            ),
            ExecutionStep::GenerateStagingLowerCoverGroup { .. } => Ok(
                StepAction::GenerateGroup { staging: true, write: false },
            ),
            ExecutionStep::GenerateLowerCoverGroup { defer_emit, .. } => Ok(
                StepAction::GenerateGroup { staging: false, write: !*defer_emit },
            ),
            ExecutionStep::GenerateWitness { staging_path, list_field, linked_path, .. } => {
                if !holds_text(&self.computed, staging_path) {
                    Err(
                        problem(
                            join3("witness '", list_field, "': staging batch not yet computed"),
                        ),
                    )
                } else if !holds_text(&self.computed, linked_path) {
                    Err(
                        problem(
                            join3("witness '", list_field, "': linked-slot batch not yet computed"),
                        ),
                    )
                } else {
                    Ok(StepAction::Draw)
                }
            },
            ExecutionStep::AssembleFromWitness { staging_path, dataset, specs } => {
                if !holds_text(&self.computed, staging_path) {
                    return Err(
                        problem(
                            join3(
                                "assemble from witness '",
                                &dataset.name,
                                "': staging batch not yet computed",
                            ),
                        ),
                    );
                }
                match find_missing(&self.computed, specs) {
                    Some(i) => {
                        assert(specs_model(specs@)[i as int] == specs[i as int].model());
                        Err(
                            problem(
                                join5(
                                    "assemble from witness '",
                                    &dataset.name,
                                    "': witness segment for '",
                                    &specs[i].field,
                                    "' not computed",
                                ),
                            ),
                        )
                    },
                    None => Ok(StepAction::Assemble),
                }
            },
            ExecutionStep::AccumulateToLinked {
                source_path,
                linked_path,
                linked_field,
                ..
            } => {
                if !holds_text(&self.computed, source_path) {
                    Err(
                        problem(
                            join3(
                                "AccumulateToLinked: source batch '",
                                source_path,
                                "' not computed",
                            ),
                        ),
                    )
                } else if !holds_text(&self.computed, linked_path) {
                    Err(
                        problem(
                            join3(
                                "AccumulateToLinked: linked batch '",
                                linked_path,
                                "' not computed",
                            ),
                        ),
                    )
                } else {
                    let again = self.has_gathered(linked_path, linked_field);
                    Ok(StepAction::Gather { first: !again })
                }
            },
            ExecutionStep::EmitDataset { path, .. } => {
                if !holds_text(&self.computed, path) {
                    Err(problem(join3("EmitDataset: batch at '", path, "' not computed")))
                } else {
                    Ok(StepAction::Emit)
                }
            },
            ExecutionStep::WriteSharedOutput { output_file, .. } => {
                match self.find_file(output_file) {
                    None => Ok(StepAction::Skip),
                    Some(i) => {
                        let b = &self.shared[i].batches;
                        assert(self.model().shared[i as int] == self.shared[i as int].model());
                        let mut copy: Vec<Emitted> = Vec::new();
                        let mut rows = false;
                        let mut k: usize = 0;
                        while k < b.len()
                            invariant
                                k <= b.len(),
                                copy@ == b@.subrange(0, k as int),
                                rows ==> any_rows(b@),
                                !rows ==> forall|j: int|
                                    0 <= j < k ==> (#[trigger] b@[j]).rows == 0,
                            decreases b.len() - k,
                        {
                            if b[k].rows > 0 {
                                rows = true;
                            }
                            copy.push(b[k]);
                            k += 1;
                            assert(copy@ =~= b@.subrange(0, k as int));
                        }
                        assert(copy@ =~= b@);
                        if rows {
                            Ok(StepAction::Write(copy))
                        } else {
                            Ok(StepAction::Skip)
                        }
                    },
                }
            },
        }
    }

    /// Notes that the rows of a path exist.
    pub fn mark_computed(&mut self, path: &str)
        ensures
            final(self).model() == (RunModel {
                computed: with_text(old(self).model().computed, path@),
                ..old(self).model()
            }),
    {
        add_text(&mut self.computed, path);
    }

    /// Notes that the rows of a path were generated with their lower cover.
    pub fn mark_parent(&mut self, path: &str)
        ensures
            final(self).model() == (RunModel {
                parents: with_text(old(self).model().parents, path@),
                ..old(self).model()
            }),
    {
        add_text(&mut self.parents, path);
    }

    /// True when the rows of a path were generated with their lower cover.
    pub fn was_parent(&self, path: &str) -> (r: bool)
        ensures
            r == self.model().parents.contains(path@),
    {
        holds_text(&self.parents, path)
    }

    /// True when the rows of a path exist.
    pub fn is_computed(&self, path: &str) -> (r: bool)
        ensures
            r == self.model().computed.contains(path@),
    {
        holds_text(&self.computed, path)
    }

    /// Notes that values have been gathered in a column; true when that was the first time.
    pub fn mark_gathered(&mut self, path: &str, column: &str) -> (r: bool)
        ensures
            r == !old(self).model().gathered.contains((path@, column@)),
            final(self).model() == (RunModel {
                gathered: if r {
                    old(self).model().gathered.push((path@, column@))
                } else {
                    old(self).model().gathered
                },
                ..old(self).model()
            }),
    {
        if self.has_gathered(path, column) {
            return false;
        }
        let ghost before = self.gathered@;
        self.gathered.push(GatheredColumn { path: path.to_owned(), column: column.to_owned() });
        assert(gathered_model(self.gathered@) =~= gathered_model(before).push((path@, column@)));
        true
    }

    fn add_to_file(&mut self, file: &str, format: Format, e: Emitted)
        ensures
            final(self).model() == (RunModel {
                shared: with_batch(old(self).model().shared, file@, format, e),
                ..old(self).model()
            }),
    {
        let ghost sm = files_model(self.shared@);
        match self.find_file(file) {
            Some(i) => {
                assert(sm[i as int] == self.shared[i as int].model());
                let mut batches: Vec<Emitted> = Vec::new();
                let b = &self.shared[i].batches;
                let mut k: usize = 0;
                while k < b.len()
                    invariant
                        k <= b.len(),
                        batches@ == b@.subrange(0, k as int),
                    decreases b.len() - k,
                {
                    batches.push(b[k]);
                    k += 1;
                    assert(batches@ =~= b@.subrange(0, k as int));
                }
                assert(batches@ =~= b@);
                batches.push(e);
                let f = SharedFile {
                    file: self.shared[i].file.clone(),
                    format: self.shared[i].format,
                    batches,
                };
                self.shared.set(i, f);
                assert(files_model(self.shared@) =~= sm.update(i as int, f.model()));
            },
            None => {
                let mut batches: Vec<Emitted> = Vec::new();
                batches.push(e);
                assert(batches@ =~= seq![e]);
                let f = SharedFile { file: file.to_owned(), format, batches };
                self.shared.push(f);
                assert(files_model(self.shared@) =~= sm.push(f.model()));
            },
        }
    }

    /// Hands a batch of a dataset to all its outputs.
    pub fn emit_batch(&mut self, dataset: &SyntheticDataset, batch: usize, rows: usize)
        ensures
            final(self).model() == old(self).model().emitted(
                dataset.model(),
                (Emitted { batch, rows }),
            ),
    {
        let ghost start = self.model();
        let ghost dm = dataset.model();
        let e = Emitted { batch, rows };
        let outs = dataset.resolved_outputs();
        assert(outputs_model(outs@).len() == outs.len());
        let mut i: usize = 0;
        while i < outs.len()
            invariant
                i <= outs.len(),
                dm == dataset.model(),
                outputs_model(outs@) == dm.all_outputs(),
                self.model() == (RunModel {
                    shared: emitted_to(start.shared, dm, e, i as int),
                    ..start
                }),
            decreases outs.len() - i,
        {
            assert(dm.all_outputs()[i as int] == outs[i as int].model());
            self.add_to_file(&outs[i].file, dataset.format, e);
            i += 1;
        }
    }
}

/// Nothing that has been handed to an output is lost: a batch that a file holds stays there, in
/// its place.
pub proof fn law_emitted_batches_stay(
    s: Seq<SharedFileModel>,
    ds: SyntheticDatasetModel,
    e: Emitted,
    n: int,
    i: int,
    k: int,
)
    requires
        0 <= i < s.len(),
        0 <= k < s[i].batches.len(),
    ensures
        emitted_to(s, ds, e, n).len() >= s.len(),
        emitted_to(s, ds, e, n)[i].file == s[i].file,
        k < emitted_to(s, ds, e, n)[i].batches.len(),
        emitted_to(s, ds, e, n)[i].batches[k] == s[i].batches[k],
    decreases n,
{
    if n > 0 {
        law_emitted_batches_stay(s, ds, e, n - 1, i, k);
        lemma_file_position(emitted_to(s, ds, e, n - 1), ds.all_outputs()[n - 1].file, 0);
    }
}

proof fn lemma_file_position(s: Seq<SharedFileModel>, file: Seq<char>, i: int)
    requires
        0 <= i,
    ensures
        match file_position(s, file, i) {
            Some(p) => i <= p < s.len() && s[p].file == file,
            None => true,
        },
    decreases s.len() - i,
{
    if i < s.len() {
        lemma_file_position(s, file, i + 1);
    }
}

} // verus!
