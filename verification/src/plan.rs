//! The execution plan: the ordered steps that generate, assemble and write the datasets.
use vstd::prelude::*;

use crate::cover::{
    clone_members, clone_segments, covered_paths, group, groups_model, build_lower_cover_groups,
    lower_cover_set, member_model, members_model, variant_key, variant_key_of, witness_key,
    witness_key_of, MemberModel,
};
use crate::expand_variants::{deep_merge_schemas, merged_schemas};
use crate::graph::{
    acyclic, graph_edges, graph_nodes, respects_edges, topo_walk, DatasetGraph,
};
use crate::message::{join3, join5, problem, problem_of, said, PartModel, Problem};
use crate::models::{
    binding_refs_model, clone_fields, clone_opt_data_quality, dataset_position,
    eligible_linked_rows, eligible_rows, entries_model, feeds_list, field_position, fields_model,
    find_dataset, find_field, find_link, is_list_source, lemma_content_model, link_position,
    list_source, opt_data_quality_model, outputs_model, ref_parts, split_ref, CountSpec,
    DataQuality, DataQualityModel, DatasetEntry, DatasetEntryModel, Field, FieldModel, Format,
    Include, IncludeModel, OutputSpec, OutputSpecModel, Reducer, RefBinding, RefBindingModel,
    SyntheticDataset, SyntheticDatasetModel, VariantSchema, VariantSchemaModel, YamlModel,
    YamlValue,
};
use crate::rewrite::{apply_locale_to_schema, stamped_all};
use crate::segment::{
    round_shares, rounded, segments_model, segments_wf, total_of, LowerCoverMember, Segment,
    SegmentModel,
};
use crate::text::{decimal, decimal_text, holds_text, opt_text, same_text, texts};

verus! {

// ---------------------------------------------------------------------------
// Steps
// ---------------------------------------------------------------------------

/// A column that is taken over from rows that exist already.
#[derive(Debug)]
pub struct InheritedField {
    /// Path of the dataset that has the rows.
    pub from_path: String,
    /// Column there.
    pub from_column: String,
    /// Column that it fills.
    pub into_column: String,
}

/// What an [`InheritedField`] says, free of representation.
pub struct InheritedModel {
    pub from_path: Seq<char>,
    pub from_column: Seq<char>,
    pub into_column: Seq<char>,
}

impl InheritedField {
    /// The content of this value, free of representation.
    pub open spec fn model(self) -> InheritedModel {
        InheritedModel {
            from_path: self.from_path@,
            from_column: self.from_column@,
            into_column: self.into_column@,
        }
    }
}

/// The models of a list of inherited fields.
pub open spec fn inherited_model(s: Seq<InheritedField>) -> Seq<InheritedModel> {
    Seq::new(s.len(), |i: int| s[i].model())
}

/// A list field with the key of its witness rows and the column it projects.
#[derive(Debug)]
pub struct WitnessSpec {
    pub field: String,
    pub key: String,
    pub project_col: Option<String>,
}

/// What a [`WitnessSpec`] says, free of representation.
pub struct WitnessSpecModel {
    pub field: Seq<char>,
    pub key: Seq<char>,
    pub project_col: Option<Seq<char>>,
}

impl WitnessSpec {
    /// The content of this value, free of representation.
    pub open spec fn model(self) -> WitnessSpecModel {
        WitnessSpecModel {
            field: self.field@,
            key: self.key@,
            project_col: opt_text(self.project_col),
        }
    }
}

/// The models of a list of witness specifications.
pub open spec fn specs_model(s: Seq<WitnessSpec>) -> Seq<WitnessSpecModel> {
    Seq::new(s.len(), |i: int| s[i].model())
}

/// One unit of work.
#[derive(Debug)]
pub enum ExecutionStep {
    /// Generate one dataset and write it, unless writing is put off.
    GenerateDataset {
        path: String,
        dataset: SyntheticDataset,
        rows: usize,
        inherited: Vec<InheritedField>,
        defer_emit: bool,
    },
    /// Generate the scalar fields of a dataset that has list fields.
    GenerateStagingNode {
        path: String,
        dataset: SyntheticDataset,
        rows: usize,
        inherited: Vec<InheritedField>,
    },
    /// Generate a parent by segments and hand the rows to its lower cover.
    GenerateLowerCoverGroup {
        path: String,
        dataset: SyntheticDataset,
        segments: Vec<Segment>,
        members: Vec<LowerCoverMember>,
        defer_emit: bool,
    },
    /// The same for a parent that has list fields.
    GenerateStagingLowerCoverGroup {
        path: String,
        dataset: SyntheticDataset,
        segments: Vec<Segment>,
        members: Vec<LowerCoverMember>,
    },
    /// Generate the rows behind one list field.
    GenerateWitness {
        key: String,
        staging_path: String,
        list_field: String,
        inner_fields: Vec<Field>,
        link: Include,
        cardinality: CountSpec,
        linked_path: String,
    },
    /// Fold the witness rows into list columns, and write.
    AssembleFromWitness {
        staging_path: String,
        dataset: SyntheticDataset,
        specs: Vec<WitnessSpec>,
    },
    /// Gather values of one dataset in a column of another.
    AccumulateToLinked {
        source_path: String,
        source_field: String,
        linked_path: String,
        linked_field: String,
        group_by: String,
        reducer: Reducer,
        default_val: YamlValue,
    },
    /// Write a dataset whose writing was put off.
    EmitDataset { path: String, dataset: SyntheticDataset },
    /// Write what has been gathered for one output file.
    WriteSharedOutput {
        output_file: String,
        format: Format,
        quality: Option<DataQuality>,
        schema: Vec<Field>,
    },
}

/// What an [`ExecutionStep`] says, free of representation.
pub enum StepModel {
    GenerateDataset {
        path: Seq<char>,
        dataset: SyntheticDatasetModel,
        rows: usize,
        inherited: Seq<InheritedModel>,
        defer_emit: bool,
    },
    GenerateStagingNode {
        path: Seq<char>,
        dataset: SyntheticDatasetModel,
        rows: usize,
        inherited: Seq<InheritedModel>,
    },
    GenerateLowerCoverGroup {
        path: Seq<char>,
        dataset: SyntheticDatasetModel,
        segments: Seq<SegmentModel>,
        members: Seq<MemberModel>,
        defer_emit: bool,
    },
    GenerateStagingLowerCoverGroup {
        path: Seq<char>,
        dataset: SyntheticDatasetModel,
        segments: Seq<SegmentModel>,
        members: Seq<MemberModel>,
    },
    GenerateWitness {
        key: Seq<char>,
        staging_path: Seq<char>,
        list_field: Seq<char>,
        inner_fields: Seq<FieldModel>,
        link: IncludeModel,
        cardinality: CountSpec,
        linked_path: Seq<char>,
    },
    AssembleFromWitness {
        staging_path: Seq<char>,
        dataset: SyntheticDatasetModel,
        specs: Seq<WitnessSpecModel>,
    },
    AccumulateToLinked {
        source_path: Seq<char>,
        source_field: Seq<char>,
        linked_path: Seq<char>,
        linked_field: Seq<char>,
        group_by: Seq<char>,
        reducer: Reducer,
        default_val: YamlModel,
    },
    EmitDataset { path: Seq<char>, dataset: SyntheticDatasetModel },
    WriteSharedOutput {
        output_file: Seq<char>,
        format: Format,
        quality: Option<DataQualityModel>,
        schema: Seq<FieldModel>,
    },
}

impl ExecutionStep {
    /// The content of this step, free of representation.
    pub open spec fn model(self) -> StepModel {
        match self {
            ExecutionStep::GenerateDataset { path, dataset, rows, inherited, defer_emit } => {
                StepModel::GenerateDataset {
                    path: path@,
                    dataset: dataset.model(),
                    rows,
                    inherited: inherited_model(inherited@),
                    defer_emit,
                }
            },
            ExecutionStep::GenerateStagingNode { path, dataset, rows, inherited } => {
                StepModel::GenerateStagingNode {
                    path: path@,
                    dataset: dataset.model(),
                    rows,
                    inherited: inherited_model(inherited@),
                }
            },
            ExecutionStep::GenerateLowerCoverGroup {
                path,
                dataset,
                segments,
                members,
                defer_emit,
            } => {
                StepModel::GenerateLowerCoverGroup {
                    path: path@,
                    dataset: dataset.model(),
                    segments: segments_model(segments@),
                    members: members_model(members@),
                    defer_emit,
                }
            },
            ExecutionStep::GenerateStagingLowerCoverGroup { path, dataset, segments, members } => {
                StepModel::GenerateStagingLowerCoverGroup {
                    path: path@,
                    dataset: dataset.model(),
                    segments: segments_model(segments@),
                    members: members_model(members@),
                }
            },
            ExecutionStep::GenerateWitness {
                key,
                staging_path,
                list_field,
                inner_fields,
                link,
                cardinality,
                linked_path,
            } => {
                StepModel::GenerateWitness {
                    key: key@,
                    staging_path: staging_path@,
                    list_field: list_field@,
                    inner_fields: fields_model(inner_fields@),
                    link: link.model(),
                    cardinality,
                    linked_path: linked_path@,
                }
            },
            ExecutionStep::AssembleFromWitness { staging_path, dataset, specs } => {
                StepModel::AssembleFromWitness {
                    staging_path: staging_path@,
                    dataset: dataset.model(),
                    specs: specs_model(specs@),
                }
            },
            ExecutionStep::AccumulateToLinked {
                source_path,
                source_field,
                linked_path,
                linked_field,
                group_by,
                reducer,
                default_val,
            } => {
                StepModel::AccumulateToLinked {
                    source_path: source_path@,
                    source_field: source_field@,
                    linked_path: linked_path@,
                    linked_field: linked_field@,
                    group_by: group_by@,
                    reducer,
                    default_val: default_val.model(),
                }
            },
            ExecutionStep::EmitDataset { path, dataset } => {
                StepModel::EmitDataset { path: path@, dataset: dataset.model() }
            },
            ExecutionStep::WriteSharedOutput { output_file, format, quality, schema } => {
                StepModel::WriteSharedOutput {
                    output_file: output_file@,
                    format,
                    quality: opt_data_quality_model(quality),
                    schema: fields_model(schema@),
                }
            },
        }
    }
}

/// The models of a list of steps.
pub open spec fn steps_model(s: Seq<ExecutionStep>) -> Seq<StepModel> {
    Seq::new(s.len(), |i: int| s[i].model())
}

/// The steps of a run, in order.
#[derive(Debug)]
pub struct ExecutionPlan {
    pub steps: Vec<ExecutionStep>,
}

fn push_step(steps: &mut Vec<ExecutionStep>, step: ExecutionStep)
    ensures
        steps_model(final(steps)@) == steps_model(old(steps)@).push(step.model()),
{
    let ghost before = steps@;
    steps.push(step);
    assert(steps_model(steps@) =~= steps_model(before).push(step.model()));
}

// ---------------------------------------------------------------------------
// Variants
// ---------------------------------------------------------------------------

/// Splits rows over shares, given the whole rows of each share and the fractions left over, so
/// that the counts add up to all rows.
pub fn distribute_rows(parent_rows: usize, floors: &Vec<usize>, fracs: &Vec<crate::models::Num>) -> (r:
    Vec<usize>)
    requires
        floors.len() == fracs.len(),
        total_of(floors@) <= parent_rows <= total_of(floors@) + floors.len(),
    ensures
        r.len() == floors.len(),
        forall|i: int|
            0 <= i < r.len() ==> #[trigger] r[i] == rounded(
                floors@,
                fracs@,
                parent_rows as int,
                i,
            ),
        total_of(r@) == parent_rows,
{
    let r = round_shares(floors, fracs, parent_rows);
    proof {
        crate::segment::law_rounding_conserves_total(floors@, fracs@, parent_rows as int, r@);
    }
    r
}

/// The locale of a variant: its own, else that of the dataset.
pub open spec fn variant_locale(
    ds: SyntheticDatasetModel,
    v: VariantSchemaModel,
) -> Option<crate::models::Locale> {
    if v.locale is Some {
        v.locale
    } else {
        ds.locale
    }
}

/// A dataset that writes under its own name where it has no output.
pub open spec fn with_default_output(ds: SyntheticDatasetModel, name: Seq<char>) -> SyntheticDatasetModel {
    if ds.all_outputs().len() == 0 {
        SyntheticDatasetModel { output: Some(OutputSpecModel::Shorthand(name)), ..ds }
    } else {
        ds
    }
}

/// The dataset that one variant stands for: the variant's fields override those of the dataset.
pub open spec fn concrete(
    ds: SyntheticDatasetModel,
    v: VariantSchemaModel,
    i: int,
    rows: usize,
) -> SyntheticDatasetModel {
    let locale = variant_locale(ds, v);
    let data = match locale {
        Some(l) => stamped_all(v.data, l),
        None => v.data,
    };
    with_default_output(
        SyntheticDatasetModel {
            name: ds.name + "__v"@ + decimal_text(i as nat),
            locale,
            rows: Some(rows),
            data: merged_schemas(ds.data, data, data.len() as int),
            variants: Seq::empty(),
            ..ds
        },
        ds.name,
    )
}

fn merge_variant_fields(base: &Vec<Field>, variant_data: &Vec<Field>) -> (r: Vec<Field>)
    ensures
        fields_model(r@) == merged_schemas(
            fields_model(base@),
            fields_model(variant_data@),
            variant_data.len() as int,
        ),
{
    deep_merge_schemas(base, variant_data)
}

fn default_output(ds: &mut SyntheticDataset, name: &str)
    ensures
        final(ds).model() == with_default_output(old(ds).model(), name@),
{
    let outs = ds.resolved_outputs();
    assert(outputs_model(outs@).len() == outs.len());
    if outs.len() == 0 {
        ds.output = Some(OutputSpec::Shorthand(name.to_owned()));
        assert(ds.model() == with_default_output(old(ds).model(), name@));
    }
}

/// The dataset that one variant stands for.
pub fn expand_variant_dataset(
    base: &SyntheticDataset,
    variant: &VariantSchema,
    variant_index: usize,
    rows: usize,
) -> (r: SyntheticDataset)
    ensures
        r.model() == concrete(base.model(), variant.model(), variant_index as int, rows),
{
    let locale = if variant.locale.is_some() {
        variant.locale
    } else {
        base.locale
    };
    let mut fields = clone_fields(&variant.data);
    if let Some(l) = locale {
        apply_locale_to_schema(&mut fields, &l);
    }
    let mut r = base.clone();
    r.name = join3(&base.name, "__v", &decimal(variant_index as u64));
    r.locale = locale;
    r.rows = Some(rows);
    r.data = merge_variant_fields(&base.data, &fields);
    r.variants = Vec::new();
    proof {
        let bm = base.model();
        let vm = variant.model();
        assert(fields_model(fields@).len() == fields.len());
        assert(r.model().variants =~= Seq::empty());
        assert(r.model() == (SyntheticDatasetModel {
            name: bm.name + "__v"@ + decimal_text(variant_index as nat),
            locale: variant_locale(bm, vm),
            rows: Some(rows),
            data: merged_schemas(bm.data, fields_model(fields@), fields.len() as int),
            variants: Seq::empty(),
            ..bm
        }));
    }
    default_output(&mut r, &base.name);
    r
}

/// A member that writes under its own name where it has rows but no output.
pub open spec fn writing_member(m: MemberModel) -> MemberModel {
    if m.is_witness_source {
        m
    } else {
        MemberModel { dataset: with_default_output(m.dataset, m.dataset.name), ..m }
    }
}

/// Members that write under their own names where they have no output.
pub open spec fn writing_members(s: Seq<MemberModel>) -> Seq<MemberModel> {
    Seq::new(s.len(), |i: int| writing_member(s[i]))
}

fn members_with_output(members: &Vec<LowerCoverMember>) -> (r: Vec<LowerCoverMember>)
    ensures
        members_model(r@) == writing_members(members_model(members@)),
{
    let mut r: Vec<LowerCoverMember> = Vec::new();
    let mut i: usize = 0;
    while i < members.len()
        invariant
            i <= members.len(),
            r.len() == i,
            forall|j: int|
                0 <= j < i ==> member_model(#[trigger] r[j]) == writing_member(
                    member_model(members[j]),
                ),
        decreases members.len() - i,
    {
        let mut m = crate::cover::clone_member(&members[i]);
        if !m.is_witness_source {
            let mut ds = m.dataset.clone();
            default_output(&mut ds, &members[i].dataset.name);
            m.dataset = ds;
        }
        r.push(m);
        i += 1;
    }
    assert(members_model(r@) =~= writing_members(members_model(members@)));
    r
}

// ---------------------------------------------------------------------------
// Shared outputs
// ---------------------------------------------------------------------------

/// What is written to one output file.
#[derive(Debug)]
pub struct SharedOutput {
    pub file: String,
    pub format: Format,
    pub quality: Option<DataQuality>,
    pub schema: Vec<Field>,
}

/// What a [`SharedOutput`] says, free of representation.
pub struct SharedModel {
    pub file: Seq<char>,
    pub format: Format,
    pub quality: Option<DataQualityModel>,
    pub schema: Seq<FieldModel>,
}

impl SharedOutput {
    /// The content of this value, free of representation.
    pub open spec fn model(self) -> SharedModel {
        SharedModel {
            file: self.file@,
            format: self.format,
            quality: opt_data_quality_model(self.quality),
            schema: fields_model(self.schema@),
        }
    }
}

/// The models of a list of shared outputs.
pub open spec fn shared_model(s: Seq<SharedOutput>) -> Seq<SharedModel> {
    Seq::new(s.len(), |i: int| s[i].model())
}

/// Some output of the list has this file.
pub open spec fn has_file(s: Seq<SharedModel>, file: Seq<char>) -> bool {
    exists|i: int| 0 <= i < s.len() && (#[trigger] s[i]).file == file
}

/// The list with the first `n` outputs of a dataset added; a file that is there already stays.
pub open spec fn noted(s: Seq<SharedModel>, ds: SyntheticDatasetModel, n: int) -> Seq<SharedModel>
    decreases n,
{
    if n <= 0 {
        s
    } else {
        let before = noted(s, ds, n - 1);
        let o = ds.all_outputs()[n - 1];
        if has_file(before, o.file) {
            before
        } else {
            before.push(
                SharedModel {
                    file: o.file,
                    format: ds.format,
                    quality: o.quality,
                    schema: ds.data,
                },
            )
        }
    }
}

/// The list with all outputs of a dataset added.
pub open spec fn noted_all(s: Seq<SharedModel>, ds: SyntheticDatasetModel) -> Seq<SharedModel> {
    noted(s, ds, ds.all_outputs().len() as int)
}

fn knows_file(s: &Vec<SharedOutput>, file: &str) -> (r: bool)
    ensures
        r == has_file(shared_model(s@), file@),
{
    let ghost sm = shared_model(s@);
    let mut i: usize = 0;
    while i < s.len()
        invariant
            i <= s.len(),
            sm == shared_model(s@),
            forall|j: int| 0 <= j < i ==> (#[trigger] sm[j]).file != file@,
        decreases s.len() - i,
    {
        assert(sm[i as int] == s[i as int].model());
        if same_text(&s[i].file, file) {
            return true;
        }
        i += 1;
    }
    false
}

fn track_shared(dataset: &SyntheticDataset, outputs: &mut Vec<SharedOutput>)
    ensures
        shared_model(final(outputs)@) == noted_all(
            shared_model(old(outputs)@),
            dataset.model(),
        ),
{
    let ghost start = shared_model(outputs@);
    let ghost dm = dataset.model();
    let outs = dataset.resolved_outputs();
    assert(outputs_model(outs@).len() == outs.len());
    let mut i: usize = 0;
    while i < outs.len()
        invariant
            i <= outs.len(),
            dm == dataset.model(),
            outputs_model(outs@) == dm.all_outputs(),
            shared_model(outputs@) == noted(start, dm, i as int),
        decreases outs.len() - i,
    {
        assert(dm.all_outputs()[i as int] == outs[i as int].model());
        if !knows_file(outputs, &outs[i].file) {
            let ghost prior = outputs@;
            let s = SharedOutput {
                file: outs[i].file.clone(),
                format: dataset.format,
                quality: clone_opt_data_quality(&outs[i].quality),
                schema: clone_fields(&dataset.data),
            };
            outputs.push(s);
            assert(shared_model(outputs@) =~= shared_model(prior).push(s.model()));
        }
        i += 1;
    }
}

/// The list with the outputs of the first `n` members added.
pub open spec fn noted_members(s: Seq<SharedModel>, members: Seq<MemberModel>, n: int) -> Seq<
    SharedModel,
>
    decreases n,
{
    if n <= 0 {
        s
    } else {
        noted_all(noted_members(s, members, n - 1), members[n - 1].dataset)
    }
}

fn track_members(members: &Vec<LowerCoverMember>, outputs: &mut Vec<SharedOutput>)
    ensures
        shared_model(final(outputs)@) == noted_members(
            shared_model(old(outputs)@),
            members_model(members@),
            members.len() as int,
        ),
{
    let ghost start = shared_model(outputs@);
    let ghost mm = members_model(members@);
    let mut i: usize = 0;
    while i < members.len()
        invariant
            i <= members.len(),
            mm == members_model(members@),
            shared_model(outputs@) == noted_members(start, mm, i as int),
        decreases members.len() - i,
    {
        assert(mm[i as int] == member_model(members[i as int]));
        track_shared(&members[i].dataset, outputs);
        i += 1;
    }
}

// ---------------------------------------------------------------------------
// Restrictions
// ---------------------------------------------------------------------------

/// Some item field gathers values in another dataset.
pub open spec fn any_collects(items: Seq<FieldModel>) -> bool {
    exists|i: int| 0 <= i < items.len() && (#[trigger] items[i]).collects().len() > 0
}

fn items_collect(items: &Vec<Field>) -> (r: bool)
    ensures
        r == any_collects(fields_model(items@)),
{
    let ghost im = fields_model(items@);
    let mut i: usize = 0;
    while i < items.len()
        invariant
            i <= items.len(),
            im == fields_model(items@),
            forall|j: int| 0 <= j < i ==> (#[trigger] im[j]).collects().len() == 0,
        decreases items.len() - i,
    {
        assert(im[i as int] == items[i as int].model());
        let b = items[i].collect_bindings();
        assert(binding_refs_model(b@).len() == b.len());
        if b.len() > 0 {
            return true;
        }
        i += 1;
    }
    false
}

/// Some member has rows of its own.
pub open spec fn has_flat_member(members: Seq<MemberModel>) -> bool {
    exists|i: int| 0 <= i < members.len() && !(#[trigger] members[i]).is_witness_source
}

fn any_flat_member(members: &Vec<LowerCoverMember>) -> (r: bool)
    ensures
        r == has_flat_member(members_model(members@)),
{
    let ghost mm = members_model(members@);
    let mut i: usize = 0;
    while i < members.len()
        invariant
            i <= members.len(),
            mm == members_model(members@),
            forall|j: int| 0 <= j < i ==> (#[trigger] mm[j]).is_witness_source,
        decreases members.len() - i,
    {
        assert(mm[i as int] == member_model(members[i as int]));
        if !members[i].is_witness_source {
            return true;
        }
        i += 1;
    }
    false
}

/// The link that a list field draws from, where it is declared.
pub open spec fn source_link(ds: SyntheticDatasetModel, f: FieldModel) -> Option<int> {
    match list_source(f) {
        Some(from) => link_position(ds.links, from, 0),
        None => None,
    }
}

fn find_source_link(ds: &SyntheticDataset, f: &Field) -> (r: Option<usize>)
    ensures
        match r {
            Some(l) => l < ds.links.len() && source_link(ds.model(), f.model()) == Some(l as int)
                && f.content is Some && f.content->0.from is Some,
            None => source_link(ds.model(), f.model()) is None,
        },
{
    match &f.content {
        Some(c) => {
            proof {
                lemma_content_model(*f);
            }
            match &c.from {
                Some(from) => find_link(&ds.links, from),
                None => None,
            }
        },
        None => None,
    }
}

/// A list field gathers values in a dataset that is also segmented for a member with rows of its
/// own.
pub open spec fn collect_conflict(
    all: Seq<DatasetEntryModel>,
    ds: SyntheticDatasetModel,
    f: FieldModel,
) -> bool {
    match source_link(ds, f) {
        None => false,
        Some(l) => any_collects(f.content->0.item.fields) && match ds.links[l].resolved {
            None => false,
            Some(p) => match dataset_position(all, p, 0) {
                None => false,
                Some(t) => has_flat_member(group(all, t)),
            },
        },
    }
}

/// The message about such a list field.
pub open spec fn collect_message(ds: SyntheticDatasetModel, f: FieldModel) -> Seq<PartModel> {
    said(
        "dataset '"@ + ds.name + "': list-link collect on field '"@ + f.name
            + "' is not supported when the linked dataset is jointly segmented with another lower cover member; use a top-level junction dataset instead"@,
    )
}

/// The first message about the fields of a dataset, from `i` on.
pub open spec fn collect_problem_in(
    all: Seq<DatasetEntryModel>,
    ds: SyntheticDatasetModel,
    i: int,
) -> Option<Seq<PartModel>>
    decreases ds.data.len() - i,
{
    if i < 0 || i >= ds.data.len() {
        None
    } else if collect_conflict(all, ds, ds.data[i]) {
        Some(collect_message(ds, ds.data[i]))
    } else {
        collect_problem_in(all, ds, i + 1)
    }
}

/// The first message about a list field that gathers values, from dataset `d` on.
pub open spec fn collect_problem(all: Seq<DatasetEntryModel>, d: int) -> Option<Seq<PartModel>>
    decreases all.len() - d,
{
    if d < 0 || d >= all.len() {
        None
    } else {
        match collect_problem_in(all, all[d].dataset, 0) {
            Some(m) => Some(m),
            None => collect_problem(all, d + 1),
        }
    }
}

fn collect_problem_of(
    datasets: &Vec<DatasetEntry>,
    groups: &Vec<Vec<LowerCoverMember>>,
    ds: &SyntheticDataset,
) -> (r: Result<(), Problem>)
    requires
        groups.len() == datasets.len(),
        groups_model(groups@) == Seq::new(
            datasets@.len(),
            |i: int| group(entries_model(datasets@), i),
        ),
    ensures
        problem_of(r) == collect_problem_in(entries_model(datasets@), ds.model(), 0),
{
    let ghost all = entries_model(datasets@);
    let ghost dm = ds.model();
    let mut i: usize = 0;
    while i < ds.data.len()
        invariant
            i <= ds.data.len(),
            all == entries_model(datasets@),
            dm == ds.model(),
            groups.len() == datasets.len(),
            groups_model(groups@) == Seq::new(datasets@.len(), |i: int| group(all, i)),
            collect_problem_in(all, dm, 0) == collect_problem_in(all, dm, i as int),
        decreases ds.data.len() - i,
    {
        let f = &ds.data[i];
        assert(dm.data[i as int] == f.model());
        let mut bad = false;
        if let Some(l) = find_source_link(ds, f) {
            assert(dm.links[l as int] == ds.links[l as int].model());
            if let Some(c) = &f.content {
                proof {
                    lemma_content_model(*f);
                }
                if items_collect(&c.item.fields) {
                    if let Some(p) = &ds.links[l].resolved {
                        if let Some(t) = find_dataset(datasets, p) {
                            assert(groups_model(groups@)[t as int] == members_model(
                                groups[t as int]@,
                            ));
                            bad = any_flat_member(&groups[t]);
                        }
                    }
                }
            }
        }
        assert(bad == collect_conflict(all, dm, f.model()));
        if bad {
            return Err(
                problem(
                    join5(
                        "dataset '",
                        &ds.name,
                        "': list-link collect on field '",
                        &f.name,
                        "' is not supported when the linked dataset is jointly segmented with another lower cover member; use a top-level junction dataset instead",
                    ),
                ),
            );
        }
        i += 1;
    }
    Ok(())
}

/// Checks that no list field gathers values in a dataset that is segmented for another member.
pub fn check_collect_segmentation_restrictions(
    datasets: &Vec<DatasetEntry>,
    groups: &Vec<Vec<LowerCoverMember>>,
) -> (r: Result<(), Problem>)
    requires
        groups.len() == datasets.len(),
        groups_model(groups@) == Seq::new(
            datasets@.len(),
            |i: int| group(entries_model(datasets@), i),
        ),
    ensures
        problem_of(r) == collect_problem(entries_model(datasets@), 0),
{
    let ghost all = entries_model(datasets@);
    let mut d: usize = 0;
    while d < datasets.len()
        invariant
            d <= datasets.len(),
            all == entries_model(datasets@),
            groups.len() == datasets.len(),
            groups_model(groups@) == Seq::new(datasets@.len(), |i: int| group(all, i)),
            collect_problem(all, 0) == collect_problem(all, d as int),
        decreases datasets.len() - d,
    {
        assert(all[d as int].dataset == datasets[d as int].dataset.model());
        match collect_problem_of(datasets, groups, &datasets[d].dataset) {
            Ok(_) => {},
            Err(p) => {
                return Err(p);
            },
        }
        d += 1;
    }
    Ok(())
}

/// The most items that a count can give, if there is a bound.
pub open spec fn count_bound(spec: CountSpec) -> Option<usize> {
    match spec {
        CountSpec::Fixed(n) => Some(n),
        CountSpec::Uniform { max, .. } => Some(max),
        CountSpec::Normal { .. } => None,
    }
}

/// The most items that a count can give, if there is a bound.
pub fn max_cardinality_bound(spec: &CountSpec) -> (r: Option<usize>)
    ensures
        r == count_bound(*spec),
{
    match *spec {
        CountSpec::Fixed(n) => Some(n),
        CountSpec::Uniform { max, .. } => Some(max),
        CountSpec::Normal { .. } => None,
    }
}

/// The rows of the dataset at a path; none where there is no such dataset.
pub open spec fn rows_of(all: Seq<DatasetEntryModel>, rows: Seq<usize>, path: Seq<char>) -> nat {
    match dataset_position(all, path, 0) {
        Some(t) => rows[t] as nat,
        None => 0,
    }
}

/// The rows that a link may draw, given the product of its ratio and the linked rows.
pub open spec fn pool_size(
    all: Seq<DatasetEntryModel>,
    rows: Seq<usize>,
    link: IncludeModel,
    scaled: usize,
) -> nat {
    eligible_rows(
        rows_of(all, rows, link.resolved->0),
        if link.ratio is Some {
            Some(scaled as nat)
        } else {
            None
        },
    )
}

/// A link draws without replacement.
pub open spec fn without_replacement(link: IncludeModel) -> bool {
    link.reinforcement is Some && link.reinforcement->0.key == 0
}

/// The message about a list field whose draw without replacement may run dry.
pub open spec fn list_draw_problem(
    all: Seq<DatasetEntryModel>,
    rows: Seq<usize>,
    scaled: Seq<usize>,
    ds: SyntheticDatasetModel,
    f: FieldModel,
) -> Option<Seq<PartModel>> {
    match source_link(ds, f) {
        None => None,
        Some(l) => {
            let link = ds.links[l];
            if without_replacement(link) && link.resolved is Some {
                let n = pool_size(all, rows, link, scaled[l]);
                let card = match link.cardinality {
                    Some(c) => c,
                    None => CountSpec::Fixed(1),
                };
                match count_bound(card) {
                    None => Some(
                        said(
                            "dataset '"@ + ds.name + "' field '"@ + f.name
                                + "': `reinforcement: 0` (without-replacement) is not compatible with `Normal` cardinality — the count is unbounded"@,
                        ),
                    ),
                    Some(m) => if m > n {
                        Some(
                            said(
                                "dataset '"@ + ds.name + "' field '"@ + f.name
                                    + ("': `reinforcement: 0` requires cardinality ≤ eligible pool size ("@
                                    + decimal_text(n) + "), but max cardinality is "@
                                    + decimal_text(m as nat)),
                            ),
                        )
                    } else {
                        None
                    },
                }
            } else {
                None
            }
        },
    }
}

/// The message about a junction link whose draw without replacement runs dry.
pub open spec fn junction_problem(
    all: Seq<DatasetEntryModel>,
    rows: Seq<usize>,
    scaled: Seq<usize>,
    d: int,
    l: int,
) -> Option<Seq<PartModel>> {
    let ds = all[d].dataset;
    let link = ds.links[l];
    if !feeds_list(ds.data, link.reference) && without_replacement(link) && link.resolved is Some {
        let n = pool_size(all, rows, link, scaled[l]);
        if rows[d] > n {
            Some(
                said(
                    "dataset '"@ + ds.name + "': `reinforcement: 0` on link '"@ + link.reference
                        + ("' requires junction rows ("@ + decimal_text(rows[d] as nat)
                        + ") ≤ eligible pool rows ("@ + decimal_text(n) + ")"@),
                ),
            )
        } else {
            None
        }
    } else {
        None
    }
}

/// The first message about the list fields of a dataset, from `i` on.
pub open spec fn list_draw_problems(
    all: Seq<DatasetEntryModel>,
    rows: Seq<usize>,
    scaled: Seq<usize>,
    ds: SyntheticDatasetModel,
    i: int,
) -> Option<Seq<PartModel>>
    decreases ds.data.len() - i,
{
    if i < 0 || i >= ds.data.len() {
        None
    } else {
        match list_draw_problem(all, rows, scaled, ds, ds.data[i]) {
            Some(m) => Some(m),
            None => list_draw_problems(all, rows, scaled, ds, i + 1),
        }
    }
}

/// The first message about the links of a dataset, from `l` on.
pub open spec fn junction_problems(
    all: Seq<DatasetEntryModel>,
    rows: Seq<usize>,
    scaled: Seq<usize>,
    d: int,
    l: int,
) -> Option<Seq<PartModel>>
    decreases all[d].dataset.links.len() - l,
{
    if l < 0 || l >= all[d].dataset.links.len() {
        None
    } else {
        match junction_problem(all, rows, scaled, d, l) {
            Some(m) => Some(m),
            None => junction_problems(all, rows, scaled, d, l + 1),
        }
    }
}

/// The first message about a draw without replacement, from dataset `d` on.
pub open spec fn draw_problem(
    all: Seq<DatasetEntryModel>,
    rows: Seq<usize>,
    scaled: Seq<Vec<usize>>,
    d: int,
) -> Option<Seq<PartModel>>
    decreases all.len() - d,
{
    if d < 0 || d >= all.len() {
        None
    } else {
        match list_draw_problems(all, rows, scaled[d]@, all[d].dataset, 0) {
            Some(m) => Some(m),
            None => match junction_problems(all, rows, scaled[d]@, d, 0) {
                Some(m) => Some(m),
                None => draw_problem(all, rows, scaled, d + 1),
            },
        }
    }
}

fn pool_of(datasets: &Vec<DatasetEntry>, rows: &Vec<usize>, link: &Include, scaled: usize) -> (r:
    usize)
    requires
        rows.len() == datasets.len(),
        link.resolved is Some,
    ensures
        r as nat == pool_size(entries_model(datasets@), rows@, link.model(), scaled),
{
    let linked: usize = match &link.resolved {
        Some(p) => match find_dataset(datasets, p) {
            Some(t) => rows[t],
            None => 0,
        },
        None => 0,
    };
    eligible_linked_rows(
        linked,
        if link.ratio.is_some() {
            Some(scaled)
        } else {
            None
        },
    )
}

fn draws_once(link: &Include) -> (r: bool)
    ensures
        r == without_replacement(link.model()),
{
    match link.reinforcement {
        Some(n) => n.key == 0,
        None => false,
    }
}

fn list_draw_problem_of(
    datasets: &Vec<DatasetEntry>,
    rows: &Vec<usize>,
    scaled: &Vec<usize>,
    ds: &SyntheticDataset,
    f: &Field,
) -> (r: Result<(), Problem>)
    requires
        rows.len() == datasets.len(),
        scaled.len() == ds.links.len(),
    ensures
        problem_of(r) == list_draw_problem(
            entries_model(datasets@),
            rows@,
            scaled@,
            ds.model(),
            f.model(),
        ),
{
    let l = match find_source_link(ds, f) {
        Some(l) => l,
        None => {
            return Ok(());
        },
    };
    let link = &ds.links[l];
    assert(ds.model().links[l as int] == link.model());
    if !draws_once(link) || link.resolved.is_none() {
        return Ok(());
    }
    let n: usize = pool_of(datasets, rows, link, scaled[l]);
    let card = match link.cardinality {
        Some(c) => c,
        None => CountSpec::Fixed(1),
    };
    match max_cardinality_bound(&card) {
        None => Err(
            problem(
                join5(
                    "dataset '",
                    &ds.name,
                    "' field '",
                    &f.name,
                    "': `reinforcement: 0` (without-replacement) is not compatible with `Normal` cardinality — the count is unbounded",
                ),
            ),
        ),
        Some(m) => if m > n {
            let tail = crate::message::join4(
                "': `reinforcement: 0` requires cardinality ≤ eligible pool size (",
                &decimal(n as u64),
                "), but max cardinality is ",
                &decimal(m as u64),
            );
            Err(problem(join5("dataset '", &ds.name, "' field '", &f.name, &tail)))
        } else {
            Ok(())
        },
    }
}

fn junction_problem_of(
    datasets: &Vec<DatasetEntry>,
    rows: &Vec<usize>,
    scaled: &Vec<usize>,
    d: usize,
    l: usize,
) -> (r: Result<(), Problem>)
    requires
        d < datasets.len(),
        rows.len() == datasets.len(),
        l < datasets[d as int].dataset.links.len(),
        scaled.len() == datasets[d as int].dataset.links.len(),
    ensures
        problem_of(r) == junction_problem(
            entries_model(datasets@),
            rows@,
            scaled@,
            d as int,
            l as int,
        ),
{
    let ds = &datasets[d].dataset;
    let link = &ds.links[l];
    proof {
        assert(entries_model(datasets@)[d as int].dataset == ds.model());
        assert(ds.model().links[l as int] == link.model());
    }
    if is_list_source(&ds.data, &link.reference) || !draws_once(link) || link.resolved.is_none() {
        return Ok(());
    }
    let n: usize = pool_of(datasets, rows, link, scaled[l]);
    if rows[d] > n {
        let tail = join5(
            "' requires junction rows (",
            &decimal(rows[d] as u64),
            ") ≤ eligible pool rows (",
            &decimal(n as u64),
            ")",
        );
        Err(
            problem(
                join5(
                    "dataset '",
                    &ds.name,
                    "': `reinforcement: 0` on link '",
                    &link.reference,
                    &tail,
                ),
            ),
        )
    } else {
        Ok(())
    }
}

/// Checks that every draw without replacement has enough rows to draw from. `scaled` holds, for
/// each link of each dataset, the rounded product of its ratio and the linked rows.
pub fn check_reinforcement_zero_feasibility(
    datasets: &Vec<DatasetEntry>,
    row_counts: &Vec<usize>,
    scaled: &Vec<Vec<usize>>,
) -> (r: Result<(), Problem>)
    requires
        row_counts.len() == datasets.len(),
        scaled.len() == datasets.len(),
        forall|d: int|
            0 <= d < datasets.len() ==> (#[trigger] scaled[d]).len()
                == datasets[d].dataset.links.len(),
    ensures
        problem_of(r) == draw_problem(entries_model(datasets@), row_counts@, scaled@, 0),
{
    let ghost all = entries_model(datasets@);
    let mut d: usize = 0;
    while d < datasets.len()
        invariant
            d <= datasets.len(),
            all == entries_model(datasets@),
            row_counts.len() == datasets.len(),
            scaled.len() == datasets.len(),
            forall|d: int|
                0 <= d < datasets.len() ==> (#[trigger] scaled[d]).len()
                    == datasets[d].dataset.links.len(),
            draw_problem(all, row_counts@, scaled@, 0) == draw_problem(
                all,
                row_counts@,
                scaled@,
                d as int,
            ),
        decreases datasets.len() - d,
    {
        let ds = &datasets[d].dataset;
        let ghost dm = ds.model();
        assert(all[d as int].dataset == dm);
        let s = &scaled[d];
        assert(s.len() == ds.links.len());
        let mut i: usize = 0;
        while i < ds.data.len()
            invariant
                i <= ds.data.len(),
                all == entries_model(datasets@),
                dm == ds.model(),
                row_counts.len() == datasets.len(),
                s.len() == ds.links.len(),
                d < datasets.len(),
                all[d as int].dataset == dm,
                *s == scaled[d as int],
                draw_problem(all, row_counts@, scaled@, 0) == draw_problem(
                    all,
                    row_counts@,
                    scaled@,
                    d as int,
                ),
                list_draw_problems(all, row_counts@, s@, dm, 0) == list_draw_problems(
                    all,
                    row_counts@,
                    s@,
                    dm,
                    i as int,
                ),
            decreases ds.data.len() - i,
        {
            assert(dm.data[i as int] == ds.data[i as int].model());
            match list_draw_problem_of(datasets, row_counts, s, ds, &ds.data[i]) {
                Ok(_) => {},
                Err(p) => {
                    return Err(p);
                },
            }
            i += 1;
        }
        let mut l: usize = 0;
        while l < ds.links.len()
            invariant
                l <= ds.links.len(),
                all == entries_model(datasets@),
                dm == ds.model(),
                d < datasets.len(),
                *ds == datasets[d as int].dataset,
                row_counts.len() == datasets.len(),
                s.len() == ds.links.len(),
                all[d as int].dataset == dm,
                *s == scaled[d as int],
                list_draw_problems(all, row_counts@, s@, dm, 0) is None,
                draw_problem(all, row_counts@, scaled@, 0) == draw_problem(
                    all,
                    row_counts@,
                    scaled@,
                    d as int,
                ),
                junction_problems(all, row_counts@, s@, d as int, 0) == junction_problems(
                    all,
                    row_counts@,
                    s@,
                    d as int,
                    l as int,
                ),
            decreases ds.links.len() - l,
        {
            match junction_problem_of(datasets, row_counts, s, d, l) {
                Ok(_) => {},
                Err(p) => {
                    return Err(p);
                },
            }
            l += 1;
        }
        d += 1;
    }
    Ok(())
}

// ---------------------------------------------------------------------------
// Gathering values in linked datasets
// ---------------------------------------------------------------------------

/// The dataset whose column a binding gathers values in.
pub open spec fn bind_target(ds: SyntheticDatasetModel, b: RefBindingModel) -> Option<Seq<char>> {
    match b.bind {
        None => None,
        Some(t) => match ref_parts(t) {
            None => None,
            Some((name, _)) => match link_position(ds.links, name, 0) {
                None => None,
                Some(l) => ds.links[l].resolved,
            },
        },
    }
}

fn resolve_collect_bind_target<'a>(ds: &'a SyntheticDataset, binding: &RefBinding) -> (r: Option<
    &'a String,
>)
    ensures
        match r {
            Some(p) => bind_target(ds.model(), binding.model()) == Some(p@),
            None => bind_target(ds.model(), binding.model()) is None,
        },
{
    let bind = match &binding.bind {
        Some(b) => b,
        None => {
            return None;
        },
    };
    let (name, _) = match split_ref(bind) {
        Some(p) => p,
        None => {
            return None;
        },
    };
    match find_link(&ds.links, name) {
        Some(l) => {
            assert(ds.model().links[l as int] == ds.links[l as int].model());
            match &ds.links[l].resolved {
                Some(p) => Some(p),
                None => None,
            }
        },
        None => None,
    }
}

/// Some binding gathers values in the dataset at `path`.
pub open spec fn binds_to(
    ds: SyntheticDatasetModel,
    bindings: Seq<RefBindingModel>,
    path: Seq<char>,
) -> bool {
    exists|k: int|
        0 <= k < bindings.len() && bind_target(ds, #[trigger] bindings[k]) == Some(path)
}

/// Some item field gathers values in the dataset at `path`.
pub open spec fn items_bind_to(
    ds: SyntheticDatasetModel,
    items: Seq<FieldModel>,
    path: Seq<char>,
) -> bool {
    exists|c: int| 0 <= c < items.len() && binds_to(ds, (#[trigger] items[c]).collects(), path)
}

/// A field, or one of its list items, gathers values in the dataset at `path`.
pub open spec fn field_binds_to(ds: SyntheticDatasetModel, f: FieldModel, path: Seq<char>) -> bool {
    binds_to(ds, f.collects(), path) || (f.list_link() && items_bind_to(
        ds,
        f.content->0.item.fields,
        path,
    ))
}

/// Some field of a dataset gathers values in the dataset at `path`.
pub open spec fn dataset_binds_to(ds: SyntheticDatasetModel, path: Seq<char>) -> bool {
    exists|i: int| 0 <= i < ds.data.len() && field_binds_to(ds, #[trigger] ds.data[i], path)
}

/// Values are gathered in the dataset at `path`.
pub open spec fn collect_target(all: Seq<DatasetEntryModel>, path: Seq<char>) -> bool {
    exists|d: int| 0 <= d < all.len() && dataset_binds_to((#[trigger] all[d]).dataset, path)
}

fn field_targets(ds: &SyntheticDataset, f: &Field, path: &str) -> (r: bool)
    ensures
        r == binds_to(ds.model(), f.model().collects(), path@),
{
    let b = f.collect_bindings();
    let ghost bm = binding_refs_model(b@);
    let mut k: usize = 0;
    while k < b.len()
        invariant
            k <= b.len(),
            bm == binding_refs_model(b@),
            bm == f.model().collects(),
            forall|j: int| 0 <= j < k ==> bind_target(ds.model(), #[trigger] bm[j]) != Some(path@),
        decreases b.len() - k,
    {
        assert(bm[k as int] == b[k as int].model());
        if let Some(p) = resolve_collect_bind_target(ds, b[k]) {
            if same_text(p, path) {
                return true;
            }
        }
        k += 1;
    }
    false
}

fn items_target(ds: &SyntheticDataset, items: &Vec<Field>, path: &str) -> (r: bool)
    ensures
        r == items_bind_to(ds.model(), fields_model(items@), path@),
{
    let ghost im = fields_model(items@);
    let mut c: usize = 0;
    while c < items.len()
        invariant
            c <= items.len(),
            im == fields_model(items@),
            forall|j: int|
                0 <= j < c ==> !binds_to(ds.model(), (#[trigger] im[j]).collects(), path@),
        decreases items.len() - c,
    {
        assert(im[c as int] == items[c as int].model());
        if field_targets(ds, &items[c], path) {
            return true;
        }
        c += 1;
    }
    false
}

fn dataset_targets(ds: &SyntheticDataset, path: &str) -> (r: bool)
    ensures
        r == dataset_binds_to(ds.model(), path@),
{
    let ghost dm = ds.model();
    let mut i: usize = 0;
    while i < ds.data.len()
        invariant
            i <= ds.data.len(),
            dm == ds.model(),
            forall|j: int| 0 <= j < i ==> !field_binds_to(dm, #[trigger] dm.data[j], path@),
        decreases ds.data.len() - i,
    {
        let f = &ds.data[i];
        assert(dm.data[i as int] == f.model());
        let mut hit = field_targets(ds, f, path);
        if let Some(c) = &f.content {
            proof {
                lemma_content_model(*f);
            }
            if c.from.is_some() && items_target(ds, &c.item.fields, path) {
                hit = true;
            }
        }
        if hit {
            assert(field_binds_to(dm, dm.data[i as int], path@));
            return true;
        }
        i += 1;
    }
    false
}

/// Marks every dataset in which values are gathered.
pub fn scan_collect_targets(datasets: &Vec<DatasetEntry>) -> (r: Vec<bool>)
    ensures
        r@ == Seq::new(
            datasets@.len(),
            |i: int| collect_target(entries_model(datasets@), datasets@[i].path@),
        ),
{
    let ghost all = entries_model(datasets@);
    let mut r: Vec<bool> = Vec::new();
    let mut i: usize = 0;
    while i < datasets.len()
        invariant
            i <= datasets.len(),
            all == entries_model(datasets@),
            r.len() == i,
            forall|j: int| 0 <= j < i ==> #[trigger] r[j] == collect_target(all, datasets[j].path@),
        decreases datasets.len() - i,
    {
        let mut hit = false;
        let mut d: usize = 0;
        while d < datasets.len()
            invariant
                d <= datasets.len(),
                i < datasets.len(),
                all == entries_model(datasets@),
                hit ==> collect_target(all, datasets[i as int].path@),
                !hit ==> forall|j: int|
                    0 <= j < d ==> !dataset_binds_to(
                        (#[trigger] all[j]).dataset,
                        datasets[i as int].path@,
                    ),
            decreases datasets.len() - d,
        {
            assert(all[d as int].dataset == datasets[d as int].dataset.model());
            if dataset_targets(&datasets[d].dataset, &datasets[i].path) {
                hit = true;
            }
            d += 1;
        }
        r.push(hit);
        i += 1;
    }
    assert(r@ =~= Seq::new(datasets@.len(), |i: int| collect_target(all, datasets@[i].path@)));
    r
}

/// The declared default of a column of the dataset at `path`; null where there is none.
pub open spec fn default_of(all: Seq<DatasetEntryModel>, path: Seq<char>, column: Seq<char>) -> YamlModel {
    match dataset_position(all, path, 0) {
        None => YamlModel::Null,
        Some(t) => match field_position(all[t].dataset.data, column, 0) {
            None => YamlModel::Null,
            Some(c) => match all[t].dataset.data[c].default {
                Some(v) => v,
                None => YamlModel::Null,
            },
        },
    }
}

/// The declared default of a column of the dataset at `linked_path`.
pub fn linked_field_default(linked_path: &str, field_name: &str, datasets: &Vec<DatasetEntry>) -> (r:
    YamlValue)
    ensures
        r.model() == default_of(entries_model(datasets@), linked_path@, field_name@),
{
    let ghost all = entries_model(datasets@);
    if let Some(t) = find_dataset(datasets, linked_path) {
        assert(all[t as int].dataset == datasets[t as int].dataset.model());
        let ds = &datasets[t].dataset;
        if let Some(c) = find_field(&ds.data, field_name) {
            assert(ds.model().data[c as int] == ds.data[c as int].model());
            if let Some(v) = &ds.data[c].default {
                return v.clone();
            }
        }
    }
    YamlValue::Null
}

/// The step that gathers the values of one column in a column of another dataset.
pub open spec fn accumulate(
    all: Seq<DatasetEntryModel>,
    source: Seq<char>,
    column: Seq<char>,
    linked: Seq<char>,
    linked_column: Seq<char>,
    reducer: Option<Reducer>,
) -> StepModel {
    StepModel::AccumulateToLinked {
        source_path: source,
        source_field: column,
        linked_path: linked,
        linked_field: linked_column,
        group_by: "_linked_idx"@,
        reducer: match reducer {
            Some(r) => r,
            None => Reducer::Collect,
        },
        default_val: default_of(all, linked, linked_column),
    }
}

fn accumulate_step(
    datasets: &Vec<DatasetEntry>,
    source: &str,
    column: &str,
    linked: &str,
    linked_column: &str,
    reducer: Option<Reducer>,
) -> (r: ExecutionStep)
    ensures
        r.model() == accumulate(
            entries_model(datasets@),
            source@,
            column@,
            linked@,
            linked_column@,
            reducer,
        ),
{
    ExecutionStep::AccumulateToLinked {
        source_path: source.to_owned(),
        source_field: column.to_owned(),
        linked_path: linked.to_owned(),
        linked_field: linked_column.to_owned(),
        group_by: "_linked_idx".to_owned(),
        reducer: match reducer {
            Some(r) => r,
            None => Reducer::Collect,
        },
        default_val: linked_field_default(linked, linked_column, datasets),
    }
}

// ---------------------------------------------------------------------------
// List fields
// ---------------------------------------------------------------------------

/// The gathering steps of the first `n` bindings of an item field.
pub open spec fn item_steps(
    all: Seq<DatasetEntryModel>,
    key: Seq<char>,
    linked: Seq<char>,
    column: Seq<char>,
    bindings: Seq<RefBindingModel>,
    n: int,
) -> Seq<StepModel>
    decreases n,
{
    if n <= 0 {
        Seq::empty()
    } else {
        let before = item_steps(all, key, linked, column, bindings, n - 1);
        let b = bindings[n - 1];
        match b.bind {
            None => before,
            Some(t) => match ref_parts(t) {
                None => before,
                Some((_, c)) => before.push(accumulate(all, key, column, linked, c, b.reducer)),
            },
        }
    }
}

/// The gathering steps of the first `n` item fields.
pub open spec fn items_steps(
    all: Seq<DatasetEntryModel>,
    key: Seq<char>,
    linked: Seq<char>,
    items: Seq<FieldModel>,
    n: int,
) -> Seq<StepModel>
    decreases n,
{
    if n <= 0 {
        Seq::empty()
    } else {
        let f = items[n - 1];
        items_steps(all, key, linked, items, n - 1) + item_steps(
            all,
            key,
            linked,
            f.name,
            f.collects(),
            f.collects().len() as int,
        )
    }
}

/// The step that writes the dataset at `path`, if there is one.
pub open spec fn emit_steps(all: Seq<DatasetEntryModel>, path: Seq<char>) -> Seq<StepModel> {
    match dataset_position(all, path, 0) {
        Some(t) => seq![StepModel::EmitDataset { path, dataset: all[t].dataset }],
        None => Seq::empty(),
    }
}

/// The link of a list field and the dataset it leads to, where both are there.
pub open spec fn witness_link(ds: SyntheticDatasetModel, f: FieldModel) -> Option<(int, Seq<char>)> {
    match source_link(ds, f) {
        None => None,
        Some(l) => match ds.links[l].resolved {
            None => None,
            Some(p) => Some((l, p)),
        },
    }
}

/// The steps of one list field: its witness rows, what they gather in the linked dataset, and the
/// writing of that dataset.
pub open spec fn witness_part(
    all: Seq<DatasetEntryModel>,
    ds: SyntheticDatasetModel,
    path: Seq<char>,
    f: FieldModel,
) -> Seq<StepModel> {
    match witness_link(ds, f) {
        None => Seq::empty(),
        Some((l, linked)) => {
            let key = witness_key_of(path, f.name);
            let items = f.content->0.item.fields;
            let first = StepModel::GenerateWitness {
                key,
                staging_path: path,
                list_field: f.name,
                inner_fields: items,
                link: ds.links[l],
                cardinality: match ds.links[l].cardinality {
                    Some(c) => c,
                    None => CountSpec::Fixed(1),
                },
                linked_path: linked,
            };
            let gathered = items_steps(all, key, linked, items, items.len() as int);
            seq![first] + gathered + if gathered.len() > 0 {
                emit_steps(all, linked)
            } else {
                Seq::empty()
            }
        },
    }
}

/// The steps of the first `n` fields of a dataset that draw list items.
pub open spec fn witness_parts(
    all: Seq<DatasetEntryModel>,
    ds: SyntheticDatasetModel,
    path: Seq<char>,
    n: int,
) -> Seq<StepModel>
    decreases n,
{
    if n <= 0 {
        Seq::empty()
    } else {
        witness_parts(all, ds, path, n - 1) + witness_part(all, ds, path, ds.data[n - 1])
    }
}

/// The list fields among the first `n` fields that have witness rows.
pub open spec fn witness_specs(ds: SyntheticDatasetModel, path: Seq<char>, n: int) -> Seq<
    WitnessSpecModel,
>
    decreases n,
{
    if n <= 0 {
        Seq::empty()
    } else {
        let before = witness_specs(ds, path, n - 1);
        let f = ds.data[n - 1];
        if witness_link(ds, f) is Some {
            before.push(
                WitnessSpecModel {
                    field: f.name,
                    key: witness_key_of(path, f.name),
                    project_col: f.content->0.projected(),
                },
            )
        } else {
            before
        }
    }
}

/// The steps that follow the generation of a dataset with list fields.
pub open spec fn witness_steps(
    all: Seq<DatasetEntryModel>,
    ds: SyntheticDatasetModel,
    path: Seq<char>,
) -> Seq<StepModel> {
    let n = ds.data.len() as int;
    let specs = witness_specs(ds, path, n);
    witness_parts(all, ds, path, n) + if specs.len() > 0 {
        seq![StepModel::AssembleFromWitness { staging_path: path, dataset: ds, specs }]
    } else {
        Seq::empty()
    }
}

fn push_item_steps(
    datasets: &Vec<DatasetEntry>,
    key: &str,
    linked: &str,
    f: &Field,
    steps: &mut Vec<ExecutionStep>,
)
    ensures
        steps_model(final(steps)@) == steps_model(old(steps)@) + item_steps(
            entries_model(datasets@),
            key@,
            linked@,
            f.name@,
            f.model().collects(),
            f.model().collects().len() as int,
        ),
{
    let ghost start = steps_model(steps@);
    let ghost all = entries_model(datasets@);
    let b = f.collect_bindings();
    let ghost bm = f.model().collects();
    assert(binding_refs_model(b@).len() == b.len());
    let mut k: usize = 0;
    assert(steps_model(steps@) =~= start + item_steps(all, key@, linked@, f.name@, bm, 0));
    while k < b.len()
        invariant
            k <= b.len(),
            all == entries_model(datasets@),
            bm == binding_refs_model(b@),
            steps_model(steps@) == start + item_steps(
                all,
                key@,
                linked@,
                f.name@,
                bm,
                k as int,
            ),
        decreases b.len() - k,
    {
        assert(bm[k as int] == b[k as int].model());
        if let Some(t) = &b[k].bind {
            if let Some((_, c)) = split_ref(t) {
                let step = accumulate_step(datasets, key, &f.name, linked, c, b[k].reducer);
                push_step(steps, step);
            }
        }
        k += 1;
        assert(steps_model(steps@) =~= start + item_steps(
            all,
            key@,
            linked@,
            f.name@,
            bm,
            k as int,
        ));
    }
}

fn push_emit(datasets: &Vec<DatasetEntry>, path: &str, steps: &mut Vec<ExecutionStep>)
    ensures
        steps_model(final(steps)@) == steps_model(old(steps)@) + emit_steps(
            entries_model(datasets@),
            path@,
        ),
{
    let ghost start = steps_model(steps@);
    let ghost all = entries_model(datasets@);
    if let Some(t) = find_dataset(datasets, path) {
        assert(all[t as int].dataset == datasets[t as int].dataset.model());
        let step = ExecutionStep::EmitDataset {
            path: path.to_owned(),
            dataset: datasets[t].dataset.clone(),
        };
        push_step(steps, step);
    }
    assert(steps_model(steps@) =~= start + emit_steps(all, path@));
}

fn push_witness_part(
    datasets: &Vec<DatasetEntry>,
    ds: &SyntheticDataset,
    path: &str,
    f: &Field,
    steps: &mut Vec<ExecutionStep>,
    specs: &mut Vec<WitnessSpec>,
)
    ensures
        steps_model(final(steps)@) == steps_model(old(steps)@) + witness_part(
            entries_model(datasets@),
            ds.model(),
            path@,
            f.model(),
        ),
        specs_model(final(specs)@) == if witness_link(ds.model(), f.model()) is Some {
            specs_model(old(specs)@).push(
                (WitnessSpecModel {
                    field: f.name@,
                    key: witness_key_of(path@, f.name@),
                    project_col: f.model().content->0.projected(),
                }),
            )
        } else {
            specs_model(old(specs)@)
        },
{
    let ghost start = steps_model(steps@);
    let ghost all = entries_model(datasets@);
    let ghost dm = ds.model();
    let ghost fm = f.model();
    let l = match find_source_link(ds, f) {
        Some(l) => l,
        None => {
            assert(steps_model(steps@) =~= start + witness_part(all, dm, path@, fm));
            return;
        },
    };
    assert(dm.links[l as int] == ds.links[l as int].model());
    let linked = match &ds.links[l].resolved {
        Some(p) => p,
        None => {
            assert(steps_model(steps@) =~= start + witness_part(all, dm, path@, fm));
            return;
        },
    };
    if let Some(c) = &f.content {
        proof {
            lemma_content_model(*f);
        }
        let key = witness_key(path, &f.name);
        let items = &c.item.fields;
        let ghost im = fields_model(items@);
        let step = ExecutionStep::GenerateWitness {
            key: key.clone(),
            staging_path: path.to_owned(),
            list_field: f.name.clone(),
            inner_fields: clone_fields(items),
            link: ds.links[l].clone(),
            cardinality: match ds.links[l].cardinality {
                Some(c) => c,
                None => CountSpec::Fixed(1),
            },
            linked_path: linked.clone(),
        };
        let ghost first = step.model();
        push_step(steps, step);
        let spec = WitnessSpec {
            field: f.name.clone(),
            key: key.clone(),
            project_col: c.project_col(),
        };
        let ghost prior = specs@;
        specs.push(spec);
        assert(specs_model(specs@) =~= specs_model(prior).push(spec.model()));
        let before: usize = steps.len();
        let ghost head = start.push(first);
        let mut k: usize = 0;
        assert(steps_model(steps@) =~= head + items_steps(all, key@, linked@, im, 0));
        while k < items.len()
            invariant
                k <= items.len(),
                all == entries_model(datasets@),
                im == fields_model(items@),
                steps_model(steps@) == head + items_steps(all, key@, linked@, im, k as int),
            decreases items.len() - k,
        {
            assert(im[k as int] == items[k as int].model());
            push_item_steps(datasets, &key, linked, &items[k], steps);
            k += 1;
            assert(steps_model(steps@) =~= head + items_steps(all, key@, linked@, im, k as int));
        }
        let ghost gathered = items_steps(all, key@, linked@, im, im.len() as int);
        assert(steps_model(steps@).len() == steps.len());
        assert(steps.len() == before + gathered.len());
        if steps.len() > before {
            push_emit(datasets, linked, steps);
        }
        assert(steps_model(steps@) =~= start + witness_part(all, dm, path@, fm));
    }
}

fn emit_witness_steps(
    datasets: &Vec<DatasetEntry>,
    ds: &SyntheticDataset,
    path: &str,
    steps: &mut Vec<ExecutionStep>,
)
    ensures
        steps_model(final(steps)@) == steps_model(old(steps)@) + witness_steps(
            entries_model(datasets@),
            ds.model(),
            path@,
        ),
{
    let ghost start = steps_model(steps@);
    let ghost all = entries_model(datasets@);
    let ghost dm = ds.model();
    let mut specs: Vec<WitnessSpec> = Vec::new();
    let mut i: usize = 0;
    assert(specs_model(specs@) =~= Seq::empty());
    assert(steps_model(steps@) =~= start + witness_parts(all, dm, path@, 0));
    while i < ds.data.len()
        invariant
            i <= ds.data.len(),
            all == entries_model(datasets@),
            dm == ds.model(),
            specs_model(specs@) == witness_specs(dm, path@, i as int),
            steps_model(steps@) == start + witness_parts(all, dm, path@, i as int),
        decreases ds.data.len() - i,
    {
        assert(dm.data[i as int] == ds.data[i as int].model());
        push_witness_part(datasets, ds, path, &ds.data[i], steps, &mut specs);
        i += 1;
        assert(steps_model(steps@) =~= start + witness_parts(all, dm, path@, i as int));
    }
    assert(specs_model(specs@).len() == specs.len());
    if specs.len() > 0 {
        let step = ExecutionStep::AssembleFromWitness {
            staging_path: path.to_owned(),
            dataset: ds.clone(),
            specs,
        };
        push_step(steps, step);
    }
    assert(steps_model(steps@) =~= start + witness_steps(all, dm, path@));
}

// ---------------------------------------------------------------------------
// Junctions
// ---------------------------------------------------------------------------

/// Where a binding of a junction dataset gathers values: the path and the column.
pub open spec fn junction_target(ds: SyntheticDatasetModel, b: RefBindingModel) -> Option<
    (Seq<char>, Seq<char>),
> {
    match b.bind {
        None => None,
        Some(t) => match ref_parts(t) {
            None => None,
            Some((name, column)) => match link_position(ds.links, name, 0) {
                None => None,
                Some(l) => if feeds_list(ds.data, ds.links[l].reference) {
                    None
                } else {
                    match ds.links[l].resolved {
                        None => None,
                        Some(p) => Some((p, column)),
                    }
                },
            },
        },
    }
}

/// The gathering steps of the first `n` bindings of a field of a junction dataset.
pub open spec fn junction_field_steps(
    all: Seq<DatasetEntryModel>,
    ds: SyntheticDatasetModel,
    path: Seq<char>,
    f: FieldModel,
    n: int,
) -> Seq<StepModel>
    decreases n,
{
    if n <= 0 {
        Seq::empty()
    } else {
        let before = junction_field_steps(all, ds, path, f, n - 1);
        let b = f.collects()[n - 1];
        match junction_target(ds, b) {
            None => before,
            Some((p, column)) => before.push(accumulate(all, path, f.name, p, column, b.reducer)),
        }
    }
}

/// The gathering steps of the first `n` fields of a junction dataset.
pub open spec fn junction_steps(
    all: Seq<DatasetEntryModel>,
    ds: SyntheticDatasetModel,
    path: Seq<char>,
    n: int,
) -> Seq<StepModel>
    decreases n,
{
    if n <= 0 {
        Seq::empty()
    } else {
        let f = ds.data[n - 1];
        junction_steps(all, ds, path, n - 1) + junction_field_steps(
            all,
            ds,
            path,
            f,
            f.collects().len() as int,
        )
    }
}

/// The paths with those of the first `n` bindings of a field added, each once.
pub open spec fn junction_field_paths(
    ds: SyntheticDatasetModel,
    s: Seq<Seq<char>>,
    f: FieldModel,
    n: int,
) -> Seq<Seq<char>>
    decreases n,
{
    if n <= 0 {
        s
    } else {
        let before = junction_field_paths(ds, s, f, n - 1);
        match junction_target(ds, f.collects()[n - 1]) {
            None => before,
            Some((p, _)) => if before.contains(p) {
                before
            } else {
                before.push(p)
            },
        }
    }
}

/// The paths in which the first `n` fields of a junction dataset gather values, each once.
pub open spec fn junction_paths(ds: SyntheticDatasetModel, n: int) -> Seq<Seq<char>>
    decreases n,
{
    if n <= 0 {
        Seq::empty()
    } else {
        let f = ds.data[n - 1];
        junction_field_paths(ds, junction_paths(ds, n - 1), f, f.collects().len() as int)
    }
}

/// The steps that write the first `n` datasets of a list of paths.
pub open spec fn emits(all: Seq<DatasetEntryModel>, paths: Seq<Seq<char>>, n: int) -> Seq<StepModel>
    decreases n,
{
    if n <= 0 {
        Seq::empty()
    } else {
        emits(all, paths, n - 1) + emit_steps(all, paths[n - 1])
    }
}

/// The steps that follow a junction dataset: everything that it gathers in linked datasets, and
/// then the writing of each of these once.
pub open spec fn collect_steps(
    all: Seq<DatasetEntryModel>,
    ds: SyntheticDatasetModel,
    path: Seq<char>,
) -> Seq<StepModel> {
    let n = ds.data.len() as int;
    let paths = junction_paths(ds, n);
    junction_steps(all, ds, path, n) + emits(all, paths, paths.len() as int)
}

fn find_junction_target<'a>(ds: &'a SyntheticDataset, b: &'a RefBinding) -> (r: Option<
    (&'a String, &'a str),
>)
    ensures
        match r {
            Some((p, c)) => junction_target(ds.model(), b.model()) == Some((p@, c@)),
            None => junction_target(ds.model(), b.model()) is None,
        },
{
    let t = match &b.bind {
        Some(t) => t,
        None => {
            return None;
        },
    };
    let (name, column) = match split_ref(t) {
        Some(p) => p,
        None => {
            return None;
        },
    };
    let l = match find_link(&ds.links, name) {
        Some(l) => l,
        None => {
            return None;
        },
    };
    assert(ds.model().links[l as int] == ds.links[l as int].model());
    if is_list_source(&ds.data, &ds.links[l].reference) {
        return None;
    }
    match &ds.links[l].resolved {
        Some(p) => Some((p, column)),
        None => None,
    }
}

fn push_junction_field(
    datasets: &Vec<DatasetEntry>,
    ds: &SyntheticDataset,
    path: &str,
    f: &Field,
    steps: &mut Vec<ExecutionStep>,
    paths: &mut Vec<String>,
)
    ensures
        steps_model(final(steps)@) == steps_model(old(steps)@) + junction_field_steps(
            entries_model(datasets@),
            ds.model(),
            path@,
            f.model(),
            f.model().collects().len() as int,
        ),
        texts(final(paths)@) == junction_field_paths(
            ds.model(),
            texts(old(paths)@),
            f.model(),
            f.model().collects().len() as int,
        ),
{
    let ghost start = steps_model(steps@);
    let ghost known = texts(paths@);
    let ghost all = entries_model(datasets@);
    let ghost dm = ds.model();
    let ghost fm = f.model();
    let b = f.collect_bindings();
    let ghost bm = fm.collects();
    assert(binding_refs_model(b@).len() == b.len());
    let mut k: usize = 0;
    assert(steps_model(steps@) =~= start + junction_field_steps(all, dm, path@, fm, 0));
    while k < b.len()
        invariant
            k <= b.len(),
            all == entries_model(datasets@),
            dm == ds.model(),
            fm == f.model(),
            bm == fm.collects(),
            bm == binding_refs_model(b@),
            steps_model(steps@) == start + junction_field_steps(all, dm, path@, fm, k as int),
            texts(paths@) == junction_field_paths(dm, known, fm, k as int),
        decreases b.len() - k,
    {
        assert(bm[k as int] == b[k as int].model());
        if let Some((p, column)) = find_junction_target(ds, b[k]) {
            let step = accumulate_step(datasets, path, &f.name, p, column, b[k].reducer);
            push_step(steps, step);
            if !holds_text(paths, p) {
                let ghost prior = paths@;
                paths.push(p.clone());
                assert(texts(paths@) =~= texts(prior).push(p@));
            }
        }
        k += 1;
        assert(steps_model(steps@) =~= start + junction_field_steps(
            all,
            dm,
            path@,
            fm,
            k as int,
        ));
    }
}

fn emit_top_level_collect_steps(
    datasets: &Vec<DatasetEntry>,
    ds: &SyntheticDataset,
    path: &str,
    steps: &mut Vec<ExecutionStep>,
)
    ensures
        steps_model(final(steps)@) == steps_model(old(steps)@) + collect_steps(
            entries_model(datasets@),
            ds.model(),
            path@,
        ),
{
    let ghost start = steps_model(steps@);
    let ghost all = entries_model(datasets@);
    let ghost dm = ds.model();
    let mut paths: Vec<String> = Vec::new();
    let mut i: usize = 0;
    assert(texts(paths@) =~= Seq::empty());
    assert(steps_model(steps@) =~= start + junction_steps(all, dm, path@, 0));
    while i < ds.data.len()
        invariant
            i <= ds.data.len(),
            all == entries_model(datasets@),
            dm == ds.model(),
            texts(paths@) == junction_paths(dm, i as int),
            steps_model(steps@) == start + junction_steps(all, dm, path@, i as int),
        decreases ds.data.len() - i,
    {
        assert(dm.data[i as int] == ds.data[i as int].model());
        push_junction_field(datasets, ds, path, &ds.data[i], steps, &mut paths);
        i += 1;
        assert(steps_model(steps@) =~= start + junction_steps(all, dm, path@, i as int));
    }
    let ghost mid = steps_model(steps@);
    let ghost pm = texts(paths@);
    let mut k: usize = 0;
    assert(steps_model(steps@) =~= mid + emits(all, pm, 0));
    while k < paths.len()
        invariant
            k <= paths.len(),
            all == entries_model(datasets@),
            pm == texts(paths@),
            steps_model(steps@) == mid + emits(all, pm, k as int),
        decreases paths.len() - k,
    {
        assert(pm[k as int] == paths[k as int]@);
        push_emit(datasets, &paths[k], steps);
        k += 1;
        assert(steps_model(steps@) =~= mid + emits(all, pm, k as int));
    }
    assert(steps_model(steps@) =~= start + collect_steps(all, dm, path@));
}

// ---------------------------------------------------------------------------
// Inherited columns
// ---------------------------------------------------------------------------

/// The columns that the first `n` fields of a child hand up to its parent.
pub open spec fn handed_up(e: DatasetEntryModel, reference: Seq<char>, n: int) -> Seq<InheritedModel>
    decreases n,
{
    if n <= 0 {
        Seq::empty()
    } else {
        let before = handed_up(e, reference, n - 1);
        let f = e.dataset.data[n - 1];
        match f.type_ref() {
            None => before,
            Some(t) => match ref_parts(t) {
                None => before,
                Some((name, column)) => if name == reference {
                    before.push(
                        InheritedModel {
                            from_path: e.path,
                            from_column: f.name,
                            into_column: column,
                        },
                    )
                } else {
                    before
                },
            },
        }
    }
}

/// The columns that the dataset at `path` takes over from the first `n` datasets: from those that
/// are drawn from it and are no lower cover members.
pub open spec fn inherited_at(
    all: Seq<DatasetEntryModel>,
    covered: Seq<Seq<char>>,
    path: Seq<char>,
    n: int,
) -> Seq<InheritedModel>
    decreases n,
{
    if n <= 0 {
        Seq::empty()
    } else {
        let before = inherited_at(all, covered, path, n - 1);
        let e = all[n - 1];
        match e.dataset.include_spec {
            None => before,
            Some(inc) => if !covered.contains(e.path) && inc.resolved == Some(path) {
                before + handed_up(e, inc.reference, e.dataset.data.len() as int)
            } else {
                before
            },
        }
    }
}

fn push_handed_up(e: &DatasetEntry, reference: &str, out: &mut Vec<InheritedField>)
    ensures
        inherited_model(final(out)@) == inherited_model(old(out)@) + handed_up(
            e.model(),
            reference@,
            e.dataset.data.len() as int,
        ),
{
    let ghost start = inherited_model(out@);
    let ghost em = e.model();
    let data = &e.dataset.data;
    let mut i: usize = 0;
    assert(inherited_model(out@) =~= start + handed_up(em, reference@, 0));
    while i < data.len()
        invariant
            i <= data.len(),
            em == e.model(),
            *data == e.dataset.data,
            inherited_model(out@) == start + handed_up(em, reference@, i as int),
        decreases data.len() - i,
    {
        let f = &data[i];
        assert(em.dataset.data[i as int] == f.model());
        if let Some(t) = f.simple_ref() {
            if let Some((name, column)) = split_ref(t) {
                if same_text(name, reference) {
                    let h = InheritedField {
                        from_path: e.path.clone(),
                        from_column: f.name.clone(),
                        into_column: column.to_owned(),
                    };
                    let ghost prior = out@;
                    out.push(h);
                    assert(inherited_model(out@) =~= inherited_model(prior).push(h.model()));
                }
            }
        }
        i += 1;
        assert(inherited_model(out@) =~= start + handed_up(em, reference@, i as int));
    }
}

/// The columns that the dataset at `path` takes over from the datasets that are drawn from it.
pub fn compute_prefills(path: &str, datasets: &Vec<DatasetEntry>, covered: &Vec<String>) -> (r: Vec<
    InheritedField,
>)
    ensures
        inherited_model(r@) == inherited_at(
            entries_model(datasets@),
            texts(covered@),
            path@,
            datasets.len() as int,
        ),
{
    let ghost all = entries_model(datasets@);
    let mut out: Vec<InheritedField> = Vec::new();
    let mut i: usize = 0;
    assert(inherited_model(out@) =~= Seq::empty());
    while i < datasets.len()
        invariant
            i <= datasets.len(),
            all == entries_model(datasets@),
            inherited_model(out@) == inherited_at(all, texts(covered@), path@, i as int),
        decreases datasets.len() - i,
    {
        let e = &datasets[i];
        assert(all[i as int] == e.model());
        if let Some(inc) = &e.dataset.include_spec {
            if !holds_text(covered, &e.path) {
                if let Some(p) = &inc.resolved {
                    if same_text(p, path) {
                        push_handed_up(e, &inc.reference, &mut out);
                    }
                }
            }
        }
        i += 1;
    }
    out
}

// ---------------------------------------------------------------------------
// The plan
// ---------------------------------------------------------------------------

/// What is computed before planning.
#[derive(Debug)]
pub struct PlanTables {
    /// Rows of each dataset.
    pub row_counts: Vec<usize>,
    /// Rows of each variant of each dataset.
    pub variant_rows: Vec<Vec<usize>>,
    /// Segments of each dataset's lower cover: one list for each variant, or one list for a
    /// dataset without variants.
    pub segments: Vec<Vec<Vec<Segment>>>,
    /// For each link of each dataset, the rounded product of its ratio and the linked rows.
    pub scaled: Vec<Vec<usize>>,
}

/// The number of segment lists that a dataset needs.
pub open spec fn segment_lists(ds: SyntheticDatasetModel) -> nat {
    if ds.variants.len() > 0 {
        ds.variants.len()
    } else {
        1
    }
}

impl PlanTables {
    /// The tables have an entry for everything in the datasets.
    pub open spec fn wf(self, datasets: Seq<DatasetEntry>) -> bool {
        &&& self.row_counts@.len() == datasets.len()
        &&& self.variant_rows@.len() == datasets.len()
        &&& self.segments@.len() == datasets.len()
        &&& self.scaled@.len() == datasets.len()
        &&& forall|d: int|
            0 <= d < datasets.len() ==> (#[trigger] self.variant_rows@[d])@.len()
                == datasets[d].dataset.variants@.len()
        &&& forall|d: int|
            0 <= d < datasets.len() ==> (#[trigger] self.segments@[d])@.len() == segment_lists(
                datasets[d].dataset.model(),
            )
        &&& forall|d: int, v: int|
            0 <= d < datasets.len() && 0 <= v < self.segments@[d]@.len() ==> segments_wf(
                (#[trigger] self.segments@[d]@[v])@,
            )
        &&& forall|d: int|
            0 <= d < datasets.len() ==> (#[trigger] self.scaled@[d])@.len()
                == datasets[d].dataset.links@.len()
    }

    /// The planning problem that the tables and the datasets pose.
    pub open spec fn planning(self, datasets: Seq<DatasetEntry>) -> Planning {
        Planning {
            all: entries_model(datasets),
            rows: self.row_counts@,
            variant_rows: Seq::new(
                self.variant_rows@.len(),
                |d: int| self.variant_rows@[d]@,
            ),
            segments: Seq::new(
                self.segments@.len(),
                |d: int|
                    Seq::new(
                        self.segments@[d]@.len(),
                        |v: int| segments_model(self.segments@[d]@[v]@),
                    ),
            ),
        }
    }
}

/// Datasets with what is known before planning.
pub struct Planning {
    pub all: Seq<DatasetEntryModel>,
    pub rows: Seq<usize>,
    pub variant_rows: Seq<Seq<usize>>,
    pub segments: Seq<Seq<Seq<SegmentModel>>>,
}

/// The dataset has a field whose items are drawn from a link.
pub open spec fn has_lists(ds: SyntheticDatasetModel) -> bool {
    exists|i: int| 0 <= i < ds.data.len() && (#[trigger] ds.data[i]).list_link()
}

/// The steps that generate a dataset without lower cover.
pub open spec fn plain_steps(
    all: Seq<DatasetEntryModel>,
    path: Seq<char>,
    ds: SyntheticDatasetModel,
    rows: usize,
    inherited: Seq<InheritedModel>,
    defer: bool,
) -> Seq<StepModel> {
    if has_lists(ds) {
        seq![StepModel::GenerateStagingNode { path, dataset: ds, rows, inherited }]
            + witness_steps(all, ds, path)
    } else {
        seq![
            StepModel::GenerateDataset { path, dataset: ds, rows, inherited, defer_emit: defer },
        ]
    }
}

/// The steps that generate a dataset with its lower cover.
pub open spec fn cover_steps(
    all: Seq<DatasetEntryModel>,
    path: Seq<char>,
    ds: SyntheticDatasetModel,
    segments: Seq<SegmentModel>,
    members: Seq<MemberModel>,
    defer: bool,
) -> Seq<StepModel> {
    if has_lists(ds) {
        seq![StepModel::GenerateStagingLowerCoverGroup { path, dataset: ds, segments, members }]
            + witness_steps(all, ds, path)
    } else {
        seq![
            StepModel::GenerateLowerCoverGroup {
                path,
                dataset: ds,
                segments,
                members,
                defer_emit: defer,
            },
        ]
    }
}

/// What the first `n` members with rows of their own gather in linked datasets.
pub open spec fn member_steps(all: Seq<DatasetEntryModel>, members: Seq<MemberModel>, n: int) -> Seq<
    StepModel,
>
    decreases n,
{
    if n <= 0 {
        Seq::empty()
    } else {
        let before = member_steps(all, members, n - 1);
        let m = members[n - 1];
        if m.is_witness_source {
            before
        } else {
            before + collect_steps(all, m.dataset, m.path)
        }
    }
}

impl Planning {
    /// The lower cover of dataset `i`.
    pub open spec fn group(self, i: int) -> Seq<MemberModel> {
        group(self.all, i)
    }

    /// The paths of all lower cover members.
    pub open spec fn covered(self) -> Seq<Seq<char>> {
        covered_paths(self.all, self.all.len() as int)
    }

    /// Dataset `i` is generated by its parent alone.
    pub open spec fn is_pure_member(self, i: int) -> bool {
        self.covered().contains(self.all[i].path) && self.group(i).len() == 0
    }

    /// The concrete dataset of variant `v` of dataset `i`.
    pub open spec fn variant(self, i: int, v: int) -> SyntheticDatasetModel {
        let ds = self.all[i].dataset;
        concrete(ds, ds.variants[v], v, self.variant_rows[i][v])
    }

    /// The steps of the first `v` variants of dataset `i`.
    pub open spec fn variant_steps(self, i: int, v: int) -> Seq<StepModel>
        decreases v,
    {
        if v <= 0 {
            Seq::empty()
        } else {
            let key = variant_key_of(self.all[i].path, v - 1);
            let ds = self.variant(i, v - 1);
            self.variant_steps(i, v - 1) + if self.group(i).len() > 0 {
                cover_steps(
                    self.all,
                    key,
                    ds,
                    self.segments[i][v - 1],
                    writing_members(self.group(i)),
                    false,
                )
            } else {
                plain_steps(
                    self.all,
                    key,
                    ds,
                    self.variant_rows[i][v - 1],
                    Seq::empty(),
                    false,
                )
            }
        }
    }

    /// The steps of dataset `i`: none for a pure member, those of its variants where it has some,
    /// else those of its lower cover or of itself, followed by what is gathered from its rows.
    pub open spec fn node_steps(self, i: int) -> Seq<StepModel> {
        let e = self.all[i];
        let members = self.group(i);
        let defer = collect_target(self.all, e.path);
        if self.is_pure_member(i) {
            Seq::empty()
        } else if e.dataset.variants.len() > 0 {
            self.variant_steps(i, e.dataset.variants.len() as int)
        } else if members.len() > 0 {
            cover_steps(self.all, e.path, e.dataset, self.segments[i][0], members, defer)
                + member_steps(self.all, members, members.len() as int)
        } else {
            plain_steps(
                self.all,
                e.path,
                e.dataset,
                self.rows[i],
                inherited_at(self.all, self.covered(), e.path, self.all.len() as int),
                defer,
            ) + collect_steps(self.all, e.dataset, e.path)
        }
    }

    /// The outputs after the first `v` variants of dataset `i`.
    pub open spec fn variant_outputs(self, i: int, s: Seq<SharedModel>, v: int) -> Seq<SharedModel>
        decreases v,
    {
        if v <= 0 {
            s
        } else {
            let before = self.variant_outputs(i, s, v - 1);
            let members = writing_members(self.group(i));
            noted_all(
                noted_members(before, members, members.len() as int),
                self.variant(i, v - 1),
            )
        }
    }

    /// The outputs after dataset `i`.
    pub open spec fn node_outputs(self, i: int, s: Seq<SharedModel>) -> Seq<SharedModel> {
        let e = self.all[i];
        let members = self.group(i);
        if self.is_pure_member(i) {
            noted_all(s, e.dataset)
        } else if e.dataset.variants.len() > 0 {
            self.variant_outputs(i, s, e.dataset.variants.len() as int)
        } else {
            noted_all(noted_members(s, members, members.len() as int), e.dataset)
        }
    }

    /// The steps of the first `n` datasets of an order.
    pub open spec fn steps(self, order: Seq<usize>, n: int) -> Seq<StepModel>
        decreases n,
    {
        if n <= 0 {
            Seq::empty()
        } else {
            self.steps(order, n - 1) + self.node_steps(order[n - 1] as int)
        }
    }

    /// The outputs after the first `n` datasets of an order.
    pub open spec fn outputs(self, order: Seq<usize>, n: int) -> Seq<SharedModel>
        decreases n,
    {
        if n <= 0 {
            Seq::empty()
        } else {
            self.node_outputs(order[n - 1] as int, self.outputs(order, n - 1))
        }
    }

    /// The whole plan for an order: the steps of every dataset, and then one write for each
    /// output file.
    pub open spec fn plan(self, order: Seq<usize>) -> Seq<StepModel> {
        self.steps(order, order.len() as int) + writes(self.outputs(order, order.len() as int))
    }
}

/// One write for each output file.
pub open spec fn writes(s: Seq<SharedModel>) -> Seq<StepModel> {
    Seq::new(
        s.len(),
        |i: int|
            StepModel::WriteSharedOutput {
                output_file: s[i].file,
                format: s[i].format,
                quality: s[i].quality,
                schema: s[i].schema,
            },
    )
}

fn any_list_link(ds: &SyntheticDataset) -> (r: bool)
    ensures
        r == has_lists(ds.model()),
{
    let ghost dm = ds.model();
    let mut i: usize = 0;
    while i < ds.data.len()
        invariant
            i <= ds.data.len(),
            dm == ds.model(),
            forall|j: int| 0 <= j < i ==> !(#[trigger] dm.data[j]).list_link(),
        decreases ds.data.len() - i,
    {
        assert(dm.data[i as int] == ds.data[i as int].model());
        if ds.data[i].is_list_link() {
            return true;
        }
        i += 1;
    }
    false
}

fn push_plain(
    datasets: &Vec<DatasetEntry>,
    path: &str,
    ds: &SyntheticDataset,
    rows: usize,
    inherited: Vec<InheritedField>,
    defer: bool,
    steps: &mut Vec<ExecutionStep>,
)
    ensures
        steps_model(final(steps)@) == steps_model(old(steps)@) + plain_steps(
            entries_model(datasets@),
            path@,
            ds.model(),
            rows,
            inherited_model(inherited@),
            defer,
        ),
{
    let ghost start = steps_model(steps@);
    let ghost im = inherited_model(inherited@);
    if any_list_link(ds) {
        let step = ExecutionStep::GenerateStagingNode {
            path: path.to_owned(),
            dataset: ds.clone(),
            rows,
            inherited,
        };
        push_step(steps, step);
        emit_witness_steps(datasets, ds, path, steps);
    } else {
        let step = ExecutionStep::GenerateDataset {
            path: path.to_owned(),
            dataset: ds.clone(),
            rows,
            inherited,
            defer_emit: defer,
        };
        push_step(steps, step);
    }
    assert(steps_model(steps@) =~= start + plain_steps(
        entries_model(datasets@),
        path@,
        ds.model(),
        rows,
        im,
        defer,
    ));
}

fn push_cover(
    datasets: &Vec<DatasetEntry>,
    path: &str,
    ds: &SyntheticDataset,
    segments: &Vec<Segment>,
    members: &Vec<LowerCoverMember>,
    defer: bool,
    steps: &mut Vec<ExecutionStep>,
)
    requires
        segments_wf(segments@),
    ensures
        steps_model(final(steps)@) == steps_model(old(steps)@) + cover_steps(
            entries_model(datasets@),
            path@,
            ds.model(),
            segments_model(segments@),
            members_model(members@),
            defer,
        ),
{
    let ghost start = steps_model(steps@);
    if any_list_link(ds) {
        let step = ExecutionStep::GenerateStagingLowerCoverGroup {
            path: path.to_owned(),
            dataset: ds.clone(),
            segments: clone_segments(segments),
            members: clone_members(members),
        };
        push_step(steps, step);
        emit_witness_steps(datasets, ds, path, steps);
    } else {
        let step = ExecutionStep::GenerateLowerCoverGroup {
            path: path.to_owned(),
            dataset: ds.clone(),
            segments: clone_segments(segments),
            members: clone_members(members),
            defer_emit: defer,
        };
        push_step(steps, step);
    }
    assert(steps_model(steps@) =~= start + cover_steps(
        entries_model(datasets@),
        path@,
        ds.model(),
        segments_model(segments@),
        members_model(members@),
        defer,
    ));
}

fn push_member_steps(
    datasets: &Vec<DatasetEntry>,
    members: &Vec<LowerCoverMember>,
    steps: &mut Vec<ExecutionStep>,
)
    ensures
        steps_model(final(steps)@) == steps_model(old(steps)@) + member_steps(
            entries_model(datasets@),
            members_model(members@),
            members.len() as int,
        ),
{
    let ghost start = steps_model(steps@);
    let ghost all = entries_model(datasets@);
    let ghost mm = members_model(members@);
    let mut i: usize = 0;
    assert(steps_model(steps@) =~= start + member_steps(all, mm, 0));
    while i < members.len()
        invariant
            i <= members.len(),
            all == entries_model(datasets@),
            mm == members_model(members@),
            steps_model(steps@) == start + member_steps(all, mm, i as int),
        decreases members.len() - i,
    {
        assert(mm[i as int] == member_model(members[i as int]));
        if !members[i].is_witness_source {
            emit_top_level_collect_steps(datasets, &members[i].dataset, &members[i].path, steps);
        }
        i += 1;
        assert(steps_model(steps@) =~= start + member_steps(all, mm, i as int));
    }
}

fn push_variants(
    datasets: &Vec<DatasetEntry>,
    tables: &PlanTables,
    groups: &Vec<Vec<LowerCoverMember>>,
    i: usize,
    steps: &mut Vec<ExecutionStep>,
    outputs: &mut Vec<SharedOutput>,
)
    requires
        tables.wf(datasets@),
        i < datasets.len(),
        datasets[i as int].dataset.variants.len() > 0,
        groups_model(groups@) == Seq::new(
            datasets@.len(),
            |i: int| group(entries_model(datasets@), i),
        ),
    ensures
        ({
            let p = tables.planning(datasets@);
            let n = datasets[i as int].dataset.variants.len() as int;
            &&& steps_model(final(steps)@) == steps_model(old(steps)@) + p.variant_steps(i as int, n)
            &&& shared_model(final(outputs)@) == p.variant_outputs(
                i as int,
                shared_model(old(outputs)@),
                n,
            )
        }),
{
    let ghost p = tables.planning(datasets@);
    let ghost start = steps_model(steps@);
    let ghost known = shared_model(outputs@);
    let ghost all = p.all;
    let e = &datasets[i];
    let ds = &e.dataset;
    let ghost dm = ds.model();
    assert(groups.len() == datasets.len()) by {
        assert(groups_model(groups@).len() == groups.len());
    }
    assert(groups_model(groups@)[i as int] == members_model(groups[i as int]@));
    let members = members_with_output(&groups[i]);
    assert(members_model(members@).len() == members.len());
    assert(members_model(groups[i as int]@).len() == groups[i as int].len());
    assert(all[i as int] == e.model());
    assert(tables.variant_rows[i as int].len() == ds.variants.len());
    assert(tables.segments[i as int].len() == segment_lists(dm));
    let mut v: usize = 0;
    assert(steps_model(steps@) =~= start + p.variant_steps(i as int, 0));
    while v < ds.variants.len()
        invariant
            v <= ds.variants.len(),
            tables.wf(datasets@),
            i < datasets.len(),
            *e == datasets[i as int],
            *ds == e.dataset,
            dm == ds.model(),
            p == tables.planning(datasets@),
            all == p.all,
            all == entries_model(datasets@),
            all[i as int] == e.model(),
            members_model(members@) == writing_members(p.group(i as int)),
            members.len() == p.group(i as int).len(),
            tables.variant_rows[i as int].len() == ds.variants.len(),
            tables.segments[i as int].len() == ds.variants.len(),
            steps_model(steps@) == start + p.variant_steps(i as int, v as int),
            shared_model(outputs@) == p.variant_outputs(i as int, known, v as int),
        decreases ds.variants.len() - v,
    {
        let rows: usize = tables.variant_rows[i][v];
        assert(p.variant_rows[i as int][v as int] == rows);
        assert(dm.variants[v as int] == ds.variants[v as int].model());
        let key = variant_key(&e.path, v);
        let c = expand_variant_dataset(ds, &ds.variants[v], v, rows);
        assert(c.model() == p.variant(i as int, v as int));
        track_members(&members, outputs);
        track_shared(&c, outputs);
        if members.len() > 0 {
            assert(segments_wf(tables.segments@[i as int]@[v as int]@));
            assert(p.segments[i as int][v as int] == segments_model(
                tables.segments[i as int][v as int]@,
            ));
            push_cover(datasets, &key, &c, &tables.segments[i][v], &members, false, steps);
        } else {
            let none: Vec<InheritedField> = Vec::new();
            assert(inherited_model(none@) =~= Seq::empty());
            push_plain(datasets, &key, &c, rows, none, false, steps);
        }
        v += 1;
        assert(steps_model(steps@) =~= start + p.variant_steps(i as int, v as int));
    }
}

fn push_node(
    datasets: &Vec<DatasetEntry>,
    tables: &PlanTables,
    groups: &Vec<Vec<LowerCoverMember>>,
    covered: &Vec<String>,
    targets: &Vec<bool>,
    i: usize,
    steps: &mut Vec<ExecutionStep>,
    outputs: &mut Vec<SharedOutput>,
)
    requires
        tables.wf(datasets@),
        i < datasets.len(),
        groups_model(groups@) == Seq::new(
            datasets@.len(),
            |i: int| group(entries_model(datasets@), i),
        ),
        texts(covered@) == tables.planning(datasets@).covered(),
        targets@ == Seq::new(
            datasets@.len(),
            |i: int| collect_target(entries_model(datasets@), datasets@[i].path@),
        ),
    ensures
        ({
            let p = tables.planning(datasets@);
            &&& steps_model(final(steps)@) == steps_model(old(steps)@) + p.node_steps(i as int)
            &&& shared_model(final(outputs)@) == p.node_outputs(
                i as int,
                shared_model(old(outputs)@),
            )
        }),
{
    let ghost p = tables.planning(datasets@);
    let ghost start = steps_model(steps@);
    let ghost known = shared_model(outputs@);
    let e = &datasets[i];
    let ds = &e.dataset;
    assert(p.all[i as int] == e.model());
    assert(groups.len() == datasets.len()) by {
        assert(groups_model(groups@).len() == groups.len());
    }
    assert(groups_model(groups@)[i as int] == members_model(groups[i as int]@));
    assert(members_model(groups[i as int]@) == p.group(i as int));
    assert(members_model(groups[i as int]@).len() == groups[i as int].len());
    let members = &groups[i];
    let defer = targets[i];
    if members.len() == 0 && holds_text(covered, &e.path) {
        track_shared(ds, outputs);
        assert(steps_model(steps@) =~= start + p.node_steps(i as int));
        return;
    }
    if ds.variants.len() > 0 {
        push_variants(datasets, tables, groups, i, steps, outputs);
        return;
    }
    track_members(members, outputs);
    track_shared(ds, outputs);
    if members.len() > 0 {
        assert(tables.segments[i as int].len() == segment_lists(ds.model()));
        assert(segments_wf(tables.segments@[i as int]@[0]@));
        assert(p.segments[i as int][0] == segments_model(tables.segments[i as int][0]@));
        push_cover(datasets, &e.path, ds, &tables.segments[i][0], members, defer, steps);
        push_member_steps(datasets, members, steps);
    } else {
        let inherited = compute_prefills(&e.path, datasets, covered);
        push_plain(datasets, &e.path, ds, tables.row_counts[i], inherited, defer, steps);
        emit_top_level_collect_steps(datasets, ds, &e.path, steps);
    }
    assert(steps_model(steps@) =~= start + p.node_steps(i as int));
}

/// The first reason why no plan can be made.
pub open spec fn plan_problem(
    all: Seq<DatasetEntryModel>,
    rows: Seq<usize>,
    scaled: Seq<Vec<usize>>,
) -> Option<Seq<PartModel>> {
    match collect_problem(all, 0) {
        Some(m) => Some(m),
        None => draw_problem(all, rows, scaled, 0),
    }
}

/// Plans the datasets in the given order.
pub fn plan_in_order(datasets: &Vec<DatasetEntry>, order: &Vec<usize>, tables: &PlanTables) -> (r:
    Result<ExecutionPlan, Problem>)
    requires
        tables.wf(datasets@),
        forall|k: int| 0 <= k < order.len() ==> #[trigger] order[k] < datasets.len(),
    ensures
        match plan_problem(entries_model(datasets@), tables.row_counts@, tables.scaled@) {
            Some(m) => problem_of(r) == Some(m),
            None => r matches Ok(plan) && steps_model(plan.steps@) == tables.planning(
                datasets@,
            ).plan(order@),
        },
{
    let ghost p = tables.planning(datasets@);
    let groups = build_lower_cover_groups(datasets);
    let covered = lower_cover_set(datasets);
    let targets = scan_collect_targets(datasets);
    assert(groups.len() == datasets.len()) by {
        assert(groups_model(groups@).len() == groups.len());
    }
    match check_collect_segmentation_restrictions(datasets, &groups) {
        Ok(_) => {},
        Err(e) => {
            return Err(e);
        },
    }
    assert(forall|d: int|
        0 <= d < datasets.len() ==> (#[trigger] tables.scaled@[d])@.len()
            == datasets[d].dataset.links.len());
    match check_reinforcement_zero_feasibility(datasets, &tables.row_counts, &tables.scaled) {
        Ok(_) => {},
        Err(e) => {
            return Err(e);
        },
    }
    let mut steps: Vec<ExecutionStep> = Vec::new();
    let mut outputs: Vec<SharedOutput> = Vec::new();
    let mut k: usize = 0;
    assert(steps_model(steps@) =~= Seq::empty());
    assert(shared_model(outputs@) =~= Seq::empty());
    while k < order.len()
        invariant
            k <= order.len(),
            tables.wf(datasets@),
            p == tables.planning(datasets@),
            forall|k: int| 0 <= k < order.len() ==> #[trigger] order[k] < datasets.len(),
            groups_model(groups@) == Seq::new(
                datasets@.len(),
                |i: int| group(entries_model(datasets@), i),
            ),
            texts(covered@) == p.covered(),
            targets@ == Seq::new(
                datasets@.len(),
                |i: int| collect_target(entries_model(datasets@), datasets@[i].path@),
            ),
            steps_model(steps@) == p.steps(order@, k as int),
            shared_model(outputs@) == p.outputs(order@, k as int),
        decreases order.len() - k,
    {
        push_node(
            datasets,
            tables,
            &groups,
            &covered,
            &targets,
            order[k],
            &mut steps,
            &mut outputs,
        );
        k += 1;
    }
    let ghost before = steps_model(steps@);
    let ghost om = shared_model(outputs@);
    let mut o: usize = 0;
    assert(steps_model(steps@) =~= before + writes(om).subrange(0, 0));
    while o < outputs.len()
        invariant
            o <= outputs.len(),
            om == shared_model(outputs@),
            steps_model(steps@) == before + writes(om).subrange(0, o as int),
        decreases outputs.len() - o,
    {
        let s = &outputs[o];
        assert(om[o as int] == s.model());
        let step = ExecutionStep::WriteSharedOutput {
            output_file: s.file.clone(),
            format: s.format,
            quality: clone_opt_data_quality(&s.quality),
            schema: clone_fields(&s.schema),
        };
        assert(step.model() == writes(om)[o as int]);
        push_step(&mut steps, step);
        o += 1;
        assert(steps_model(steps@) =~= before + writes(om).subrange(0, o as int));
    }
    assert(writes(om).subrange(0, om.len() as int) =~= writes(om));
    Ok(ExecutionPlan { steps })
}

/// Plans the datasets in a topological order of their graph: a dataset comes behind everything
/// that is drawn from it and everything that it links to.
pub fn build_plan(dag: &DatasetGraph, datasets: &Vec<DatasetEntry>, tables: &PlanTables) -> (r: Result<
    ExecutionPlan,
    Problem,
>)
    requires
        tables.wf(datasets@),
        graph_nodes(dag.graph) == datasets.len(),
    ensures
        match plan_problem(entries_model(datasets@), tables.row_counts@, tables.scaled@) {
            Some(m) => problem_of(r) == Some(m),
            None => r matches Ok(plan) && exists|order: Seq<usize>|
                {
                    &&& respects_edges(order, graph_edges(dag.graph), datasets.len() as nat)
                    &&& acyclic(graph_edges(dag.graph), datasets.len() as nat) ==> order.len()
                        == datasets.len()
                    &&& steps_model(plan.steps@) == #[trigger] tables.planning(datasets@).plan(order)
                },
        },
{
    let order = topo_walk(&dag.graph);
    plan_in_order(datasets, &order, tables)
}

// ---------------------------------------------------------------------------
// Laws of plans
// ---------------------------------------------------------------------------

/// No step of the list writes an output file.
pub open spec fn no_writes(s: Seq<StepModel>) -> bool {
    forall|i: int| 0 <= i < s.len() ==> !((#[trigger] s[i]) is WriteSharedOutput)
}

/// Every step of the list gathers values.
pub open spec fn only_gathers(s: Seq<StepModel>) -> bool {
    forall|i: int| 0 <= i < s.len() ==> (#[trigger] s[i]) is AccumulateToLinked
}

/// Every step of the list writes a dataset whose writing was put off.
pub open spec fn only_emits(s: Seq<StepModel>) -> bool {
    forall|i: int| 0 <= i < s.len() ==> (#[trigger] s[i]) is EmitDataset
}

proof fn lemma_item_steps_gather(
    all: Seq<DatasetEntryModel>,
    key: Seq<char>,
    linked: Seq<char>,
    column: Seq<char>,
    bindings: Seq<RefBindingModel>,
    n: int,
)
    ensures
        only_gathers(item_steps(all, key, linked, column, bindings, n)),
    decreases n,
{
    if n > 0 {
        lemma_item_steps_gather(all, key, linked, column, bindings, n - 1);
    }
}

proof fn lemma_items_steps_gather(
    all: Seq<DatasetEntryModel>,
    key: Seq<char>,
    linked: Seq<char>,
    items: Seq<FieldModel>,
    n: int,
)
    ensures
        only_gathers(items_steps(all, key, linked, items, n)),
    decreases n,
{
    if n > 0 {
        lemma_items_steps_gather(all, key, linked, items, n - 1);
        let f = items[n - 1];
        lemma_item_steps_gather(all, key, linked, f.name, f.collects(), f.collects().len() as int);
    }
}

/// A step belongs to the rows behind a list field.
pub open spec fn serves_list(s: StepModel) -> bool {
    s is GenerateWitness || s is AccumulateToLinked || s is EmitDataset
}

proof fn lemma_witness_part(
    all: Seq<DatasetEntryModel>,
    ds: SyntheticDatasetModel,
    path: Seq<char>,
    f: FieldModel,
    i: int,
)
    requires
        0 <= i < witness_part(all, ds, path, f).len(),
    ensures
        serves_list(witness_part(all, ds, path, f)[i]),
{
    if let Some((l, linked)) = witness_link(ds, f) {
        let items = f.content->0.item.fields;
        let key = witness_key_of(path, f.name);
        let gathered = items_steps(all, key, linked, items, items.len() as int);
        lemma_items_steps_gather(all, key, linked, items, items.len() as int);
        if 1 <= i < 1 + gathered.len() {
            assert(witness_part(all, ds, path, f)[i] == gathered[i - 1]);
        }
    }
}

proof fn lemma_witness_parts(
    all: Seq<DatasetEntryModel>,
    ds: SyntheticDatasetModel,
    path: Seq<char>,
    n: int,
)
    requires
        0 <= n <= ds.data.len(),
    ensures
        forall|i: int|
            0 <= i < witness_parts(all, ds, path, n).len() ==> serves_list(
                #[trigger] witness_parts(all, ds, path, n)[i],
            ),
        witness_specs(ds, path, n).len() == 0 ==> witness_parts(all, ds, path, n).len() == 0,
    decreases n,
{
    if n > 0 {
        lemma_witness_parts(all, ds, path, n - 1);
        let f = ds.data[n - 1];
        let before = witness_parts(all, ds, path, n - 1);
        let part = witness_part(all, ds, path, f);
        let now = witness_parts(all, ds, path, n);
        assert forall|i: int| 0 <= i < now.len() implies serves_list(#[trigger] now[i]) by {
            if i < before.len() {
                assert(now[i] == before[i]);
            } else {
                assert(now[i] == part[i - before.len()]);
                lemma_witness_part(all, ds, path, f, i - before.len());
            }
        }
    }
}

/// A dataset with list fields is assembled once, behind all its witness rows and all that they
/// gather; without any witness rows it is not assembled.
pub proof fn law_assembly_comes_last(
    all: Seq<DatasetEntryModel>,
    ds: SyntheticDatasetModel,
    path: Seq<char>,
    i: int,
)
    requires
        0 <= i < witness_steps(all, ds, path).len(),
    ensures
        ({
            let s = witness_steps(all, ds, path);
            if i == s.len() - 1 {
                s[i] is AssembleFromWitness
            } else {
                serves_list(s[i])
            }
        }),
{
    lemma_witness_parts(all, ds, path, ds.data.len() as int);
    let parts = witness_parts(all, ds, path, ds.data.len() as int);
    if i < parts.len() {
        assert(witness_steps(all, ds, path)[i] == parts[i]);
    }
}

proof fn lemma_junction_field_gathers(
    all: Seq<DatasetEntryModel>,
    ds: SyntheticDatasetModel,
    path: Seq<char>,
    f: FieldModel,
    n: int,
)
    ensures
        only_gathers(junction_field_steps(all, ds, path, f, n)),
    decreases n,
{
    if n > 0 {
        lemma_junction_field_gathers(all, ds, path, f, n - 1);
    }
}

proof fn lemma_junction_gathers(
    all: Seq<DatasetEntryModel>,
    ds: SyntheticDatasetModel,
    path: Seq<char>,
    n: int,
)
    ensures
        only_gathers(junction_steps(all, ds, path, n)),
    decreases n,
{
    if n > 0 {
        lemma_junction_gathers(all, ds, path, n - 1);
        let f = ds.data[n - 1];
        lemma_junction_field_gathers(all, ds, path, f, f.collects().len() as int);
    }
}

proof fn lemma_emits(all: Seq<DatasetEntryModel>, paths: Seq<Seq<char>>, n: int)
    ensures
        only_emits(emits(all, paths, n)),
    decreases n,
{
    if n > 0 {
        lemma_emits(all, paths, n - 1);
    }
}

/// Behind a junction dataset, everything is gathered before anything is written.
pub proof fn law_gathering_precedes_writing(
    all: Seq<DatasetEntryModel>,
    ds: SyntheticDatasetModel,
    path: Seq<char>,
    i: int,
    j: int,
)
    requires
        0 <= i < j < collect_steps(all, ds, path).len(),
        collect_steps(all, ds, path)[j] is AccumulateToLinked,
    ensures
        collect_steps(all, ds, path)[i] is AccumulateToLinked,
{
    let n = ds.data.len() as int;
    let paths = junction_paths(ds, n);
    let a = junction_steps(all, ds, path, n);
    let b = emits(all, paths, paths.len() as int);
    lemma_junction_gathers(all, ds, path, n);
    lemma_emits(all, paths, paths.len() as int);
    if j >= a.len() {
        assert(collect_steps(all, ds, path)[j] == b[j - a.len()]);
    } else {
        assert(collect_steps(all, ds, path)[i] == a[i]);
    }
}

proof fn lemma_collect_no_writes(
    all: Seq<DatasetEntryModel>,
    ds: SyntheticDatasetModel,
    path: Seq<char>,
)
    ensures
        no_writes(collect_steps(all, ds, path)),
{
    let n = ds.data.len() as int;
    let paths = junction_paths(ds, n);
    lemma_junction_gathers(all, ds, path, n);
    lemma_emits(all, paths, paths.len() as int);
}

proof fn lemma_witness_no_writes(
    all: Seq<DatasetEntryModel>,
    ds: SyntheticDatasetModel,
    path: Seq<char>,
)
    ensures
        no_writes(witness_steps(all, ds, path)),
{
    let s = witness_steps(all, ds, path);
    assert forall|i: int| 0 <= i < s.len() implies !((#[trigger] s[i]) is WriteSharedOutput) by {
        law_assembly_comes_last(all, ds, path, i);
    }
}

proof fn lemma_member_no_writes(all: Seq<DatasetEntryModel>, members: Seq<MemberModel>, n: int)
    ensures
        no_writes(member_steps(all, members, n)),
    decreases n,
{
    if n > 0 {
        lemma_member_no_writes(all, members, n - 1);
        lemma_collect_no_writes(all, members[n - 1].dataset, members[n - 1].path);
    }
}

proof fn lemma_variant_no_writes(p: Planning, i: int, v: int)
    ensures
        no_writes(p.variant_steps(i, v)),
    decreases v,
{
    if v > 0 {
        lemma_variant_no_writes(p, i, v - 1);
        lemma_witness_no_writes(p.all, p.variant(i, v - 1), variant_key_of(p.all[i].path, v - 1));
    }
}

proof fn lemma_steps_no_writes(p: Planning, order: Seq<usize>, n: int)
    ensures
        no_writes(p.steps(order, n)),
    decreases n,
{
    if n > 0 {
        lemma_steps_no_writes(p, order, n - 1);
        let i = order[n - 1] as int;
        let e = p.all[i];
        let members = p.group(i);
        lemma_variant_no_writes(p, i, e.dataset.variants.len() as int);
        lemma_witness_no_writes(p.all, e.dataset, e.path);
        lemma_member_no_writes(p.all, members, members.len() as int);
        lemma_collect_no_writes(p.all, e.dataset, e.path);
        assert(no_writes(p.node_steps(i)));
    }
}

/// Output files are written behind all other steps.
pub proof fn law_writes_come_last(p: Planning, order: Seq<usize>, i: int, j: int)
    requires
        0 <= i < j < p.plan(order).len(),
        p.plan(order)[i] is WriteSharedOutput,
    ensures
        p.plan(order)[j] is WriteSharedOutput,
{
    let steps = p.steps(order, order.len() as int);
    lemma_steps_no_writes(p, order, order.len() as int);
    if i < steps.len() {
        assert(p.plan(order)[i] == steps[i]);
    }
}

/// No two outputs of the list share a file.
pub open spec fn files_distinct(s: Seq<SharedModel>) -> bool {
    forall|i: int, j: int|
        0 <= i < j < s.len() ==> (#[trigger] s[i]).file != (#[trigger] s[j]).file
}

proof fn lemma_noted(s: Seq<SharedModel>, ds: SyntheticDatasetModel, n: int)
    requires
        files_distinct(s),
    ensures
        files_distinct(noted(s, ds, n)),
    decreases n,
{
    if n > 0 {
        lemma_noted(s, ds, n - 1);
    }
}

proof fn lemma_noted_members(s: Seq<SharedModel>, members: Seq<MemberModel>, n: int)
    requires
        files_distinct(s),
    ensures
        files_distinct(noted_members(s, members, n)),
    decreases n,
{
    if n > 0 {
        lemma_noted_members(s, members, n - 1);
        let ds = members[n - 1].dataset;
        lemma_noted(noted_members(s, members, n - 1), ds, ds.all_outputs().len() as int);
    }
}

proof fn lemma_variant_outputs(p: Planning, i: int, s: Seq<SharedModel>, v: int)
    requires
        files_distinct(s),
    ensures
        files_distinct(p.variant_outputs(i, s, v)),
    decreases v,
{
    if v > 0 {
        lemma_variant_outputs(p, i, s, v - 1);
        let before = p.variant_outputs(i, s, v - 1);
        let members = writing_members(p.group(i));
        let n = members.len() as int;
        lemma_noted_members(before, members, n);
        let ds = p.variant(i, v - 1);
        lemma_noted(noted_members(before, members, n), ds, ds.all_outputs().len() as int);
    }
}

/// Every output file is written once.
pub proof fn law_each_file_is_written_once(p: Planning, order: Seq<usize>, n: int)
    requires
        0 <= n <= order.len(),
    ensures
        files_distinct(p.outputs(order, n)),
    decreases n,
{
    if n > 0 {
        law_each_file_is_written_once(p, order, n - 1);
        let s = p.outputs(order, n - 1);
        let i = order[n - 1] as int;
        let ds = p.all[i].dataset;
        let members = p.group(i);
        let m = members.len() as int;
        lemma_noted(s, ds, ds.all_outputs().len() as int);
        lemma_variant_outputs(p, i, s, ds.variants.len() as int);
        lemma_noted_members(s, members, m);
        lemma_noted(noted_members(s, members, m), ds, ds.all_outputs().len() as int);
    }
}

/// The path whose rows a step generates.
pub open spec fn generates(s: StepModel) -> Option<Seq<char>> {
    match s {
        StepModel::GenerateDataset { path, .. } => Some(path),
        StepModel::GenerateStagingNode { path, .. } => Some(path),
        StepModel::GenerateLowerCoverGroup { path, .. } => Some(path),
        StepModel::GenerateStagingLowerCoverGroup { path, .. } => Some(path),
        _ => None,
    }
}

/// Some step of the list generates the rows of `path`.
pub open spec fn generated(s: Seq<StepModel>, path: Seq<char>) -> bool {
    exists|k: int| 0 <= k < s.len() && generates(#[trigger] s[k]) == Some(path)
}

/// Every dataset of the order that is no pure member and has no variants is generated.
pub proof fn law_datasets_are_generated(p: Planning, order: Seq<usize>, n: int, k: int)
    requires
        0 <= k < n <= order.len(),
        !p.is_pure_member(order[k] as int),
        p.all[order[k] as int].dataset.variants.len() == 0,
    ensures
        generated(p.steps(order, n), p.all[order[k] as int].path),
    decreases n,
{
    let path = p.all[order[k] as int].path;
    let now = p.steps(order, n);
    let before = p.steps(order, n - 1);
    if k < n - 1 {
        law_datasets_are_generated(p, order, n - 1, k);
        let at = choose|a: int| 0 <= a < before.len() && generates(#[trigger] before[a]) == Some(path);
        assert(now[at] == before[at]);
    } else {
        let node = p.node_steps(order[k] as int);
        assert(generates(node[0]) == Some(path));
        assert(now[before.len() as int] == node[0]);
    }
}

} // verus!
