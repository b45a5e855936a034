//! What a run promises: no step starts before its rows exist, and every batch reaches every output
//! of its dataset.
use vstd::prelude::*;

use crate::cover::MemberModel;
use crate::models::{OutputSpecModel, SyntheticDatasetModel};
use crate::plan::StepModel;
use crate::run::{
    emitted_to, file_position, finish_of, missing_witness, with_batch, with_text, ActionModel,
    Emitted, MemberFinish, RunModel, SharedFileModel,
};

verus! {

// ---------------------------------------------------------------------------
// Steps
// ---------------------------------------------------------------------------

/// A dataset is generated whenever its turn comes: with its scalar columns only where lists are
/// added later, and written at once unless that is put off.
pub proof fn law_datasets_are_generated_at_once(r: RunModel, step: StepModel)
    ensures
        step is GenerateStagingNode ==> r.action(step) == Ok::<
            ActionModel,
            Seq<crate::message::PartModel>,
        >((ActionModel::Generate { staging: true, write: false })),
        step is GenerateDataset ==> r.action(step) == Ok::<
            ActionModel,
            Seq<crate::message::PartModel>,
        >(
            (ActionModel::Generate { staging: false, write: !step->GenerateDataset_defer_emit }),
        ),
        step is GenerateStagingLowerCoverGroup ==> r.action(step) == Ok::<
            ActionModel,
            Seq<crate::message::PartModel>,
        >((ActionModel::GenerateGroup { staging: true, write: false })),
        step is GenerateLowerCoverGroup ==> r.action(step) == Ok::<
            ActionModel,
            Seq<crate::message::PartModel>,
        >(
            (ActionModel::GenerateGroup {
                staging: false,
                write: !step->GenerateLowerCoverGroup_defer_emit,
            }),
        ),
{
}

proof fn lemma_missing(computed: Seq<Seq<char>>, r: StepModel, from: int)
    requires
        r is AssembleFromWitness,
        0 <= from <= r->specs.len(),
    ensures
        match missing_witness(computed, r->specs, from) {
            Some(i) => from <= i < r->specs.len() && !computed.contains(r->specs[i].key),
            None => forall|i: int|
                from <= i < r->specs.len() ==> computed.contains((#[trigger] r->specs[i]).key),
        },
    decreases r->specs.len() - from,
{
    if from < r->specs.len() {
        lemma_missing(computed, r, from + 1);
    }
}

/// Rows are drawn exactly where both the rows that have the list and the linked rows exist.
pub proof fn law_draws_wait_for_both_sides(r: RunModel, step: StepModel)
    requires
        step is GenerateWitness,
    ensures
        r.action(step) is Ok <==> r.computed.contains(step->GenerateWitness_staging_path)
            && r.computed.contains(step->GenerateWitness_linked_path),
        r.action(step) is Ok ==> r.action(step)->Ok_0 is Draw,
{
}

/// Lists are folded exactly where the rows that have them and all drawn rows exist.
pub proof fn law_folding_waits_for_every_list(r: RunModel, step: StepModel)
    requires
        step is AssembleFromWitness,
    ensures
        r.action(step) is Ok <==> r.computed.contains(step->AssembleFromWitness_staging_path)
            && forall|i: int|
            0 <= i < step->specs.len() ==> r.computed.contains((#[trigger] step->specs[i]).key),
        r.action(step) is Ok ==> r.action(step)->Ok_0 is Assemble,
{
    lemma_missing(r.computed, step, 0);
}

/// Values are gathered exactly where both sides exist, from scratch the first time a column is
/// gathered and never again.
pub proof fn law_gathering_waits_for_both_sides(r: RunModel, step: StepModel)
    requires
        step is AccumulateToLinked,
    ensures
        r.action(step) is Ok <==> r.computed.contains(step->source_path) && r.computed.contains(
            step->AccumulateToLinked_linked_path,
        ),
        r.action(step) is Ok ==> r.action(step)->Ok_0 is Gather && (r.action(step)->Ok_0->first
            <==> forall|i: int|
            0 <= i < r.gathered.len() ==> #[trigger] r.gathered[i] != (
                step->AccumulateToLinked_linked_path,
                step->linked_field,
            )),
{
    if r.action(step) is Ok {
        let want = (step->AccumulateToLinked_linked_path, step->linked_field);
        if r.gathered.contains(want) {
            let i = choose|i: int| 0 <= i < r.gathered.len() && r.gathered[i] == want;
            assert(r.gathered[i] == want);
        }
    }
}

/// A dataset is handed to its outputs exactly where its rows exist.
pub proof fn law_emitting_waits_for_the_rows(r: RunModel, step: StepModel)
    requires
        step is EmitDataset,
    ensures
        r.action(step) is Ok <==> r.computed.contains(step->EmitDataset_path),
        r.action(step) is Ok ==> r.action(step)->Ok_0 is Emit,
{
}

proof fn lemma_file(s: Seq<SharedFileModel>, file: Seq<char>, from: int)
    requires
        0 <= from <= s.len(),
    ensures
        match file_position(s, file, from) {
            Some(p) => from <= p < s.len() && s[p].file == file && forall|j: int|
                from <= j < p ==> (#[trigger] s[j]).file != file,
            None => forall|j: int| from <= j < s.len() ==> (#[trigger] s[j]).file != file,
        },
    decreases s.len() - from,
{
    if from < s.len() {
        lemma_file(s, file, from + 1);
    }
}

/// No file is known twice.
pub open spec fn files_differ(s: Seq<SharedFileModel>) -> bool {
    forall|i: int, j: int|
        0 <= i < j < s.len() ==> (#[trigger] s[i]).file != (#[trigger] s[j]).file
}

/// A file is written with exactly the batches that it was handed, where one of them has rows, and
/// is left out otherwise; writing never fails.
pub proof fn law_files_are_written_with_their_batches(r: RunModel, step: StepModel, p: int)
    requires
        step is WriteSharedOutput,
        files_differ(r.shared),
        0 <= p < r.shared.len(),
        r.shared[p].file == step->output_file,
    ensures
        (exists|i: int|
            0 <= i < r.shared[p].batches.len() && (#[trigger] r.shared[p].batches[i]).rows > 0)
            ==> r.action(step) == Ok::<ActionModel, Seq<crate::message::PartModel>>(
            ActionModel::Write(r.shared[p].batches),
        ),
        (forall|i: int|
            0 <= i < r.shared[p].batches.len() ==> (#[trigger] r.shared[p].batches[i]).rows == 0)
            ==> r.action(step) == Ok::<ActionModel, Seq<crate::message::PartModel>>(
            ActionModel::Skip,
        ),
{
    lemma_file(r.shared, step->output_file, 0);
}

/// A file that was handed nothing is not written.
pub proof fn law_other_files_are_not_written(r: RunModel, step: StepModel)
    requires
        step is WriteSharedOutput,
        forall|p: int| 0 <= p < r.shared.len() ==> (#[trigger] r.shared[p]).file != step->output_file,
    ensures
        r.action(step) == Ok::<ActionModel, Seq<crate::message::PartModel>>(ActionModel::Skip),
{
    lemma_file(r.shared, step->output_file, 0);
}

// ---------------------------------------------------------------------------
// Outputs
// ---------------------------------------------------------------------------

/// A dataset is written to its list of outputs where it has one, else to its single output; a
/// bare file name is an output without quality of its own.
pub proof fn law_outputs_are_those_declared(ds: SyntheticDatasetModel, o: int)
    ensures
        ds.outputs.len() > 0 ==> ds.all_outputs().len() == ds.outputs.len(),
        ds.outputs.len() == 0 && ds.output is Some ==> ds.all_outputs().len() == 1,
        ds.outputs.len() == 0 && ds.output is None ==> ds.all_outputs().len() == 0,
        0 <= o < ds.outputs.len() ==> match ds.outputs[o] {
            OutputSpecModel::Shorthand(file) => ds.all_outputs()[o].file == file
                && ds.all_outputs()[o].quality is None,
            OutputSpecModel::Block(block) => ds.all_outputs()[o] == block,
        },
        ds.outputs.len() == 0 && ds.output is Some ==> match ds.output->0 {
            OutputSpecModel::Shorthand(file) => ds.all_outputs()[0].file == file
                && ds.all_outputs()[0].quality is None,
            OutputSpecModel::Block(block) => ds.all_outputs()[0] == block,
        },
{
}

/// Some file of this name holds the batch.
pub open spec fn received(s: Seq<SharedFileModel>, file: Seq<char>, e: Emitted) -> bool {
    exists|i: int|
        0 <= i < s.len() && (#[trigger] s[i]).file == file && s[i].batches.contains(e)
}

proof fn lemma_with_batch(s: Seq<SharedFileModel>, ds: SyntheticDatasetModel, file: Seq<char>, e: Emitted)
    ensures
        received(with_batch(s, file, ds.format, e), file, e),
        forall|g: Seq<char>, d: Emitted|
            received(s, g, d) ==> #[trigger] received(with_batch(s, file, ds.format, e), g, d),
        forall|g: Seq<char>, d: Emitted| #[trigger]
            received(with_batch(s, file, ds.format, e), g, d) ==> received(s, g, d) || (g == file
                && d == e),
        files_differ(s) ==> files_differ(with_batch(s, file, ds.format, e)),
{
    lemma_file(s, file, 0);
    let t = with_batch(s, file, ds.format, e);
    match file_position(s, file, 0) {
        Some(p) => {
            assert(t[p].batches[s[p].batches.len() as int] == e);
            assert(t[p].file == file);
        },
        None => {
            assert(t[s.len() as int].batches[0] == e);
        },
    }
    assert forall|g: Seq<char>, d: Emitted| received(s, g, d) implies #[trigger] received(
        t,
        g,
        d,
    ) by {
        let i = choose|i: int|
            0 <= i < s.len() && (#[trigger] s[i]).file == g && s[i].batches.contains(d);
        let b = choose|b: int| 0 <= b < s[i].batches.len() && s[i].batches[b] == d;
        assert(t[i].file == g);
        assert(t[i].batches[b] == d);
    }
    assert forall|g: Seq<char>, d: Emitted| #[trigger] received(t, g, d) implies received(s, g, d)
        || (g == file && d == e) by {
        let i = choose|i: int|
            0 <= i < t.len() && (#[trigger] t[i]).file == g && t[i].batches.contains(d);
        let b = choose|b: int| 0 <= b < t[i].batches.len() && t[i].batches[b] == d;
        if i < s.len() {
            assert(s[i].file == g);
            if b < s[i].batches.len() {
                assert(s[i].batches[b] == d);
            }
        }
    }
}

/// A batch of a dataset reaches every output of the dataset, whatever was handed out before stays,
/// and no other file receives anything.
pub proof fn law_batches_reach_every_output(
    s: Seq<SharedFileModel>,
    ds: SyntheticDatasetModel,
    e: Emitted,
    n: int,
    file: Seq<char>,
    d: Emitted,
)
    requires
        0 <= n <= ds.all_outputs().len(),
    ensures
        received(emitted_to(s, ds, e, n), file, d) <==> received(s, file, d) || (d == e && exists|
            o: int,
        |
            0 <= o < n && (#[trigger] ds.all_outputs()[o]).file == file),
        files_differ(s) ==> files_differ(emitted_to(s, ds, e, n)),
    decreases n,
{
    if n > 0 {
        law_batches_reach_every_output(s, ds, e, n - 1, file, d);
        let before = emitted_to(s, ds, e, n - 1);
        let last = ds.all_outputs()[n - 1].file;
        lemma_with_batch(before, ds, last, e);
        if received(emitted_to(s, ds, e, n), file, d) && !received(before, file, d) {
            assert(ds.all_outputs()[n - 1].file == file);
        }
        if d == e && (exists|o: int|
            0 <= o < n && (#[trigger] ds.all_outputs()[o]).file == file) && !received(
            before,
            file,
            d,
        ) {
            let o = choose|o: int| 0 <= o < n && (#[trigger] ds.all_outputs()[o]).file == file;
            assert(o == n - 1);
        }
    }
}

/// A new file has the format of the dataset that is handed to it first.
pub proof fn law_new_files_have_the_format_of_their_dataset(
    s: Seq<SharedFileModel>,
    ds: SyntheticDatasetModel,
    e: Emitted,
    n: int,
    i: int,
)
    requires
        0 <= n <= ds.all_outputs().len(),
        0 <= i < emitted_to(s, ds, e, n).len(),
    ensures
        i < s.len() ==> emitted_to(s, ds, e, n)[i].format == s[i].format,
        i >= s.len() ==> emitted_to(s, ds, e, n)[i].format == ds.format,
        emitted_to(s, ds, e, n).len() >= s.len(),
    decreases n,
{
    if n > 0 {
        let before = emitted_to(s, ds, e, n - 1);
        lemma_file(before, ds.all_outputs()[n - 1].file, 0);
        if i < before.len() {
            law_new_files_have_the_format_of_their_dataset(s, ds, e, n - 1, i);
        } else if before.len() > 0 {
            law_new_files_have_the_format_of_their_dataset(s, ds, e, n - 1, before.len() - 1);
        } else {
            lemma_grows(s, ds, e, n - 1);
        }
    }
}

proof fn lemma_grows(s: Seq<SharedFileModel>, ds: SyntheticDatasetModel, e: Emitted, n: int)
    ensures
        emitted_to(s, ds, e, n).len() >= s.len(),
    decreases n,
{
    if n > 0 {
        lemma_grows(s, ds, e, n - 1);
        lemma_file(emitted_to(s, ds, e, n - 1), ds.all_outputs()[n - 1].file, 0);
    }
}

/// A path that was noted is known from now on, what was known before still is, and nothing else
/// becomes known.
pub proof fn law_noted_paths_are_known(s: Seq<Seq<char>>, t: Seq<char>, u: Seq<char>)
    ensures
        with_text(s, t).contains(u) <==> s.contains(u) || u == t,
{
    let now = with_text(s, t);
    if s.contains(u) {
        let i = choose|i: int| 0 <= i < s.len() && s[i] == u;
        assert(now[i] == u);
    }
    if !s.contains(t) {
        assert(now[s.len() as int] == t);
    }
}

// ---------------------------------------------------------------------------
// Members
// ---------------------------------------------------------------------------

/// A member that stands for a list field is never written; one with rows of its own is written
/// once: here, unless it was generated as a parent before.
pub proof fn law_members_are_written_once(m: MemberModel, was_parent: bool, has_batches: bool)
    ensures
        m.is_witness_source <==> finish_of(m, was_parent, has_batches) == MemberFinish::Skip,
        !m.is_witness_source && !was_parent <==> finish_of(m, was_parent, has_batches)
            == MemberFinish::Write,
        !m.is_witness_source && was_parent && m.cardinality is Some && has_batches <==> finish_of(
            m,
            was_parent,
            has_batches,
        ) == MemberFinish::Replace,
{
}

/// Handing a batch over changes nothing but the files, and reaches all outputs of the dataset.
pub proof fn law_handing_over_changes_files_only(
    r: RunModel,
    ds: SyntheticDatasetModel,
    e: Emitted,
    file: Seq<char>,
)
    ensures
        r.emitted(ds, e).computed == r.computed,
        r.emitted(ds, e).parents == r.parents,
        r.emitted(ds, e).gathered == r.gathered,
        received(r.emitted(ds, e).shared, file, e) <==> received(r.shared, file, e) || exists|
            o: int,
        |
            0 <= o < ds.all_outputs().len() && (#[trigger] ds.all_outputs()[o]).file == file,
{
    law_batches_reach_every_output(r.shared, ds, e, ds.all_outputs().len() as int, file, e);
}

} // verus!
