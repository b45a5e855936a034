//! How the rows of a segment come about: the columns that its members share with the parent, and
//! where every column of the parent and of each member is taken from.
use vstd::prelude::*;

use crate::constraints::{within, FieldConstraints, FieldConstraintsModel};
use crate::cover::{member_model, members_model, MemberModel};
use crate::message::{join2, join5, problem, said, PartModel, Problem};
use crate::models::{
    case_deltas_model, clone_field_variants, clone_opt_yaml_value, clone_opt_yaml_values,
    field_variants_model, fields_model, CaseDelta, CaseDeltaModel, Field, FieldModel, FieldVariant,
    FieldVariantModel, Num, Range, YamlModel,
};
use crate::segment::{constraint_models, parent_column, ConstraintMap, LowerCoverMember};
use crate::text::{holds_text, same_text, strip_prefix, texts};

verus! {

// ---------------------------------------------------------------------------
// Constraints of a segment on a field
// ---------------------------------------------------------------------------

/// The position of the first case with the given label, from `i` on.
pub open spec fn case_position(s: Seq<FieldVariantModel>, name: Seq<char>, i: int) -> Option<int>
    decreases s.len() - i,
{
    if i < 0 || i >= s.len() {
        None
    } else if s[i].name == Some(name) {
        Some(i)
    } else {
        case_position(s, name, i + 1)
    }
}

/// A range with the given bounds put in place of its own.
pub open spec fn with_bounds(r: Option<Range>, min: Option<Num>, max: Option<Num>) -> Option<Range> {
    if min is Some || max is Some {
        let base = match r {
            Some(x) => x,
            None => Range { min: None, max: None },
        };
        Some(
            Range {
                min: if min is Some {
                    min
                } else {
                    base.min
                },
                max: if max is Some {
                    max
                } else {
                    base.max
                },
            },
        )
    } else {
        r
    }
}

/// A range narrowed to another.
pub open spec fn narrowed_range(r: Option<Range>, by: Option<Range>) -> Option<Range> {
    match by {
        None => r,
        Some(d) => {
            let base = match r {
                Some(x) => x,
                None => Range { min: None, max: None },
            };
            Some(
                Range {
                    min: match d.min {
                        Some(m) => Some(
                            match base.min {
                                Some(e) => e.larger(m),
                                None => m,
                            },
                        ),
                        None => base.min,
                    },
                    max: match d.max {
                        Some(m) => Some(
                            match base.max {
                                Some(e) => e.smaller(m),
                                None => m,
                            },
                        ),
                        None => base.max,
                    },
                },
            )
        },
    }
}

/// A case with the specialisation of one delta.
pub open spec fn tightened(c: FieldVariantModel, d: CaseDeltaModel) -> FieldVariantModel {
    FieldVariantModel {
        value: if d.value is Some {
            d.value
        } else {
            c.value
        },
        generator: if d.generator is Some {
            d.generator
        } else {
            c.generator
        },
        range: narrowed_range(c.range, d.range),
        ..c
    }
}

/// The cases after the first `n` deltas: each specialises the case it names, if there is one.
pub open spec fn tightened_cases(
    s: Seq<FieldVariantModel>,
    deltas: Seq<CaseDeltaModel>,
    n: int,
) -> Seq<FieldVariantModel>
    decreases n,
{
    if n <= 0 {
        s
    } else {
        let before = tightened_cases(s, deltas, n - 1);
        match case_position(before, deltas[n - 1].name, 0) {
            Some(i) => before.update(i, tightened(before[i], deltas[n - 1])),
            None => before,
        }
    }
}

/// A field with constraints in place of its own value source.
pub open spec fn constrained(f: FieldModel, fc: FieldConstraintsModel) -> FieldModel {
    FieldModel {
        value: if fc.value is Some {
            fc.value
        } else {
            f.value
        },
        one_of: if fc.one_of is Some {
            fc.one_of
        } else {
            f.one_of
        },
        generator: if fc.generator is Some {
            fc.generator
        } else {
            f.generator
        },
        range: with_bounds(f.range, fc.min, fc.max),
        variants: tightened_cases(f.variants, fc.case_overrides, fc.case_overrides.len() as int),
        ..f
    }
}

fn find_case(s: &Vec<FieldVariant>, name: &str) -> (r: Option<usize>)
    ensures
        match r {
            Some(i) => i < s.len() && case_position(field_variants_model(s@), name@, 0) == Some(
                i as int,
            ),
            None => case_position(field_variants_model(s@), name@, 0) is None,
        },
{
    let ghost sm = field_variants_model(s@);
    let mut i: usize = 0;
    while i < s.len()
        invariant
            i <= s.len(),
            sm == field_variants_model(s@),
            case_position(sm, name@, 0) == case_position(sm, name@, i as int),
        decreases s.len() - i,
    {
        assert(sm[i as int] == s[i as int].model());
        if let Some(n) = &s[i].name {
            if same_text(n, name) {
                return Some(i);
            }
        }
        i += 1;
    }
    None
}

fn bounded(r: Option<Range>, min: Option<Num>, max: Option<Num>) -> (out: Option<Range>)
    ensures
        out == with_bounds(r, min, max),
{
    if min.is_some() || max.is_some() {
        let base = match r {
            Some(x) => x,
            None => Range { min: None, max: None },
        };
        Some(
            Range {
                min: if min.is_some() {
                    min
                } else {
                    base.min
                },
                max: if max.is_some() {
                    max
                } else {
                    base.max
                },
            },
        )
    } else {
        r
    }
}

fn narrow(r: Option<Range>, by: Option<Range>) -> (out: Option<Range>)
    ensures
        out == narrowed_range(r, by),
{
    match by {
        None => r,
        Some(d) => {
            let base = match r {
                Some(x) => x,
                None => Range { min: None, max: None },
            };
            Some(
                Range {
                    min: match d.min {
                        Some(m) => Some(
                            match base.min {
                                Some(e) => e.max(m),
                                None => m,
                            },
                        ),
                        None => base.min,
                    },
                    max: match d.max {
                        Some(m) => Some(
                            match base.max {
                                Some(e) => e.min(m),
                                None => m,
                            },
                        ),
                        None => base.max,
                    },
                },
            )
        },
    }
}

fn tighten(c: &FieldVariant, d: &CaseDelta) -> (r: FieldVariant)
    ensures
        r.model() == tightened(c.model(), d.model()),
{
    let mut r = c.clone();
    if d.value.is_some() {
        r.value = clone_opt_yaml_value(&d.value);
    }
    if d.generator.is_some() {
        r.generator = d.generator;
    }
    r.range = narrow(c.range, d.range);
    assert(r.model() == tightened(c.model(), d.model()));
    r
}

/// A field with constraints in place of its own value source.
pub fn apply_constraints(field: &Field, fc: &FieldConstraints) -> (r: Field)
    ensures
        r.model() == constrained(field.model(), fc.model()),
{
    let ghost dm = case_deltas_model(fc.case_overrides@);
    let mut cases = clone_field_variants(&field.variants);
    let mut i: usize = 0;
    while i < fc.case_overrides.len()
        invariant
            i <= fc.case_overrides.len(),
            dm == case_deltas_model(fc.case_overrides@),
            field_variants_model(cases@) == tightened_cases(
                field.model().variants,
                dm,
                i as int,
            ),
        decreases fc.case_overrides.len() - i,
    {
        let d = &fc.case_overrides[i];
        assert(dm[i as int] == d.model());
        if let Some(p) = find_case(&cases, &d.name) {
            let ghost before = field_variants_model(cases@);
            assert(before[p as int] == cases[p as int].model());
            let c = tighten(&cases[p], d);
            cases.set(p, c);
            assert(field_variants_model(cases@) =~= before.update(p as int, c.model()));
        }
        i += 1;
    }
    let mut r = field.clone();
    if fc.value.is_some() {
        r.value = clone_opt_yaml_value(&fc.value);
    }
    if fc.one_of.is_some() {
        r.one_of = clone_opt_yaml_values(&fc.one_of);
    }
    if fc.generator.is_some() {
        r.generator = fc.generator;
    }
    r.range = bounded(field.range, fc.min, fc.max);
    r.variants = cases;
    assert(r.model() == constrained(field.model(), fc.model()));
    r
}

/// A field with the constraints that a segment puts on it, if there are any.
pub open spec fn effective(
    f: FieldModel,
    constraints: Map<Seq<char>, FieldConstraintsModel>,
) -> FieldModel {
    if constraints.dom().contains(f.name) {
        constrained(f, constraints[f.name])
    } else {
        f
    }
}

/// A field with the constraints that a segment puts on it, if there are any.
pub fn effective_field(field: &Field, constraints: &ConstraintMap) -> (r: Field)
    requires
        constraints.wf(),
    ensures
        r.model() == effective(field.model(), constraint_models(constraints@)),
{
    match constraints.get(&field.name) {
        Some(fc) => apply_constraints(field, fc),
        None => field.clone(),
    }
}

// ---------------------------------------------------------------------------
// Members and their references to the parent
// ---------------------------------------------------------------------------

/// What a member's references to its parent begin with.
pub open spec fn member_prefix(m: MemberModel) -> Seq<char> {
    m.reference + "."@
}

/// The parent's column that a field of a member refers to.
pub open spec fn refers_to(m: MemberModel, f: FieldModel) -> Option<Seq<char>> {
    parent_column(f, member_prefix(m))
}

/// The first field of a member, from `i` on, that refers to the given column of the parent.
pub open spec fn local_position(m: MemberModel, column: Seq<char>, i: int) -> Option<int>
    decreases m.dataset.data.len() - i,
{
    if i < 0 || i >= m.dataset.data.len() {
        None
    } else if refers_to(m, m.dataset.data[i]) == Some(column) {
        Some(i)
    } else {
        local_position(m, column, i + 1)
    }
}

fn parent_reference<'a>(m: &'a LowerCoverMember, f: &'a Field) -> (r: Option<&'a str>)
    ensures
        match r {
            Some(p) => refers_to(member_model(*m), f.model()) == Some(p@),
            None => refers_to(member_model(*m), f.model()) is None,
        },
{
    let prefix = join2(&m.reference, ".");
    match f.simple_ref() {
        Some(s) => strip_prefix(s, &prefix),
        None => None,
    }
}

fn find_local(m: &LowerCoverMember, column: &str) -> (r: Option<usize>)
    ensures
        match r {
            Some(i) => i < m.dataset.data.len() && local_position(member_model(*m), column@, 0)
                == Some(i as int),
            None => local_position(member_model(*m), column@, 0) is None,
        },
{
    let ghost mm = member_model(*m);
    let data = &m.dataset.data;
    let mut i: usize = 0;
    while i < data.len()
        invariant
            i <= data.len(),
            *data == m.dataset.data,
            mm == member_model(*m),
            local_position(mm, column@, 0) == local_position(mm, column@, i as int),
        decreases data.len() - i,
    {
        assert(mm.dataset.data[i as int] == data[i as int].model());
        if let Some(p) = parent_reference(m, &data[i]) {
            if same_text(p, column) {
                return Some(i);
            }
        }
        i += 1;
    }
    None
}

/// Those of the first `n` members that refer to the given column of the parent.
pub open spec fn providers(members: Seq<MemberModel>, column: Seq<char>, n: int) -> Seq<usize>
    decreases n,
{
    if n <= 0 {
        Seq::empty()
    } else {
        let before = providers(members, column, n - 1);
        if local_position(members[n - 1], column, 0) is Some {
            before.push((n - 1) as usize)
        } else {
            before
        }
    }
}

fn find_providers(members: &Vec<LowerCoverMember>, column: &str) -> (r: Vec<usize>)
    ensures
        r@ == providers(members_model(members@), column@, members.len() as int),
        forall|k: int| 0 <= k < r.len() ==> #[trigger] r[k] < members.len(),
{
    let ghost mm = members_model(members@);
    let mut r: Vec<usize> = Vec::new();
    let mut i: usize = 0;
    while i < members.len()
        invariant
            i <= members.len(),
            mm == members_model(members@),
            r@ == providers(mm, column@, i as int),
            forall|k: int| 0 <= k < r.len() ==> #[trigger] r[k] < i,
        decreases members.len() - i,
    {
        assert(mm[i as int] == member_model(members[i as int]));
        if find_local(&members[i], column).is_some() {
            r.push(i);
        }
        i += 1;
    }
    r
}

// ---------------------------------------------------------------------------
// Shared columns
// ---------------------------------------------------------------------------

/// A column that the parent shares with some of its members.
#[derive(Debug)]
pub struct AtomColumn {
    /// The parent's field, with the constraints of the segment.
    pub field: Field,
    /// The members that refer to it.
    pub providers: Vec<usize>,
}

/// What an [`AtomColumn`] says, free of representation.
pub struct AtomColumnModel {
    pub field: FieldModel,
    pub providers: Seq<usize>,
}

impl AtomColumn {
    /// The content of this value, free of representation.
    pub open spec fn model(self) -> AtomColumnModel {
        AtomColumnModel { field: self.field.model(), providers: self.providers@ }
    }
}

/// The models of a list of shared columns.
pub open spec fn atoms_model(s: Seq<AtomColumn>) -> Seq<AtomColumnModel> {
    Seq::new(s.len(), |i: int| s[i].model())
}

/// The shared columns among the first `n` fields of the parent: those that are generated directly
/// and that some member refers to.
pub open spec fn atom_columns(
    parent: Seq<FieldModel>,
    members: Seq<MemberModel>,
    constraints: Map<Seq<char>, FieldConstraintsModel>,
    n: int,
) -> Seq<AtomColumnModel>
    decreases n,
{
    if n <= 0 {
        Seq::empty()
    } else {
        let before = atom_columns(parent, members, constraints, n - 1);
        let f = parent[n - 1];
        let who = providers(members, f.name, members.len() as int);
        if f.is_direct() && who.len() > 0 {
            before.push(AtomColumnModel { field: effective(f, constraints), providers: who })
        } else {
            before
        }
    }
}

/// The columns that a segment's members share with the parent, in the parent's order.
pub fn build_segment_atom_schema(
    parent_schema: &Vec<Field>,
    members: &Vec<LowerCoverMember>,
    constraints: &ConstraintMap,
) -> (r: Vec<AtomColumn>)
    requires
        constraints.wf(),
    ensures
        atoms_model(r@) == atom_columns(
            fields_model(parent_schema@),
            members_model(members@),
            constraint_models(constraints@),
            parent_schema.len() as int,
        ),
{
    let ghost pm = fields_model(parent_schema@);
    let ghost mm = members_model(members@);
    let ghost cm = constraint_models(constraints@);
    let mut r: Vec<AtomColumn> = Vec::new();
    let mut i: usize = 0;
    assert(atoms_model(r@) =~= Seq::empty());
    while i < parent_schema.len()
        invariant
            i <= parent_schema.len(),
            constraints.wf(),
            pm == fields_model(parent_schema@),
            mm == members_model(members@),
            cm == constraint_models(constraints@),
            atoms_model(r@) == atom_columns(pm, mm, cm, i as int),
        decreases parent_schema.len() - i,
    {
        let f = &parent_schema[i];
        assert(pm[i as int] == f.model());
        assert(mm.len() == members.len());
        if f.is_direct() {
            let who = find_providers(members, &f.name);
            if who.len() > 0 {
                let a = AtomColumn { field: effective_field(f, constraints), providers: who };
                let ghost before = r@;
                r.push(a);
                assert(atoms_model(r@) =~= atoms_model(before).push(a.model()));
            }
        }
        i += 1;
    }
    r
}

/// Every shared column is one that some member refers to, and goes by the parent's name for it.
pub proof fn law_shared_columns_are_referred_to(
    parent: Seq<FieldModel>,
    members: Seq<MemberModel>,
    constraints: Map<Seq<char>, FieldConstraintsModel>,
    n: int,
    k: int,
)
    requires
        0 <= n <= parent.len(),
        0 <= k < atom_columns(parent, members, constraints, n).len(),
    ensures
        exists|i: int|
            0 <= i < n && (#[trigger] parent[i]).is_direct() && parent[i].name == atom_columns(
                parent,
                members,
                constraints,
                n,
            )[k].field.name,
        atom_columns(parent, members, constraints, n)[k].providers.len() > 0,
    decreases n,
{
    if n > 0 {
        let before = atom_columns(parent, members, constraints, n - 1);
        if k < before.len() {
            law_shared_columns_are_referred_to(parent, members, constraints, n - 1, k);
        } else {
            assert(parent[n - 1].is_direct());
        }
    }
}

/// Where the values of a shared column come from.
#[derive(Debug)]
pub enum AtomSource {
    /// From the imported file.
    Import,
    /// From the rows of a member that exist already: the member and its column.
    Member { member: usize, column: String },
    /// Generated.
    Fresh,
}

/// What an [`AtomSource`] says, free of representation.
pub enum AtomSourceModel {
    Import,
    Member { member: usize, column: Seq<char> },
    Fresh,
}

impl AtomSource {
    /// The content of this value, free of representation.
    pub open spec fn model(self) -> AtomSourceModel {
        match self {
            AtomSource::Import => AtomSourceModel::Import,
            AtomSource::Member { member, column } => {
                AtomSourceModel::Member { member, column: column@ }
            },
            AtomSource::Fresh => AtomSourceModel::Fresh,
        }
    }
}

/// The columns of rows that exist, if they do.
pub open spec fn opt_columns(o: Option<Vec<String>>) -> Option<Seq<Seq<char>>> {
    match o {
        Some(v) => Some(texts(v@)),
        None => None,
    }
}

/// For each member, the columns of its rows, if they exist.
pub open spec fn ready_columns(s: Seq<Option<Vec<String>>>) -> Seq<Option<Seq<Seq<char>>>> {
    Seq::new(s.len(), |i: int| opt_columns(s[i]))
}

/// The source among the providers, from the `i`th on: the first that has rows without being
/// expanded, and in them the column that refers to the shared one.
pub open spec fn member_source(
    members: Seq<MemberModel>,
    ready: Seq<Option<Seq<Seq<char>>>>,
    who: Seq<usize>,
    column: Seq<char>,
    i: int,
) -> AtomSourceModel
    decreases who.len() - i,
{
    if i < 0 || i >= who.len() {
        AtomSourceModel::Fresh
    } else {
        let m = members[who[i] as int];
        let next = member_source(members, ready, who, column, i + 1);
        if m.cardinality is Some {
            next
        } else {
            match ready[who[i] as int] {
                None => next,
                Some(columns) => match local_position(m, column, 0) {
                    None => next,
                    Some(l) => if columns.contains(m.dataset.data[l].name) {
                        AtomSourceModel::Member { member: who[i], column: m.dataset.data[l].name }
                    } else {
                        next
                    },
                },
            }
        }
    }
}

/// Where the values of a shared column come from: the import for a tainted column, else a member
/// that exists already, else they are generated.
pub open spec fn atom_source_of(
    a: AtomColumnModel,
    members: Seq<MemberModel>,
    ready: Seq<Option<Seq<Seq<char>>>>,
    import_columns: Option<Seq<Seq<char>>>,
) -> AtomSourceModel {
    if a.field.imported_taint && import_columns is Some && import_columns->0.contains(a.field.name) {
        AtomSourceModel::Import
    } else {
        member_source(members, ready, a.providers, a.field.name, 0)
    }
}

fn has_column(columns: Option<&Vec<String>>, name: &str) -> (r: bool)
    ensures
        r == (columns matches Some(v) && texts(v@).contains(name@)),
{
    match columns {
        Some(v) => holds_text(v, name),
        None => false,
    }
}

/// Where the values of a shared column come from.
pub fn atom_source(
    a: &AtomColumn,
    members: &Vec<LowerCoverMember>,
    ready: &Vec<Option<Vec<String>>>,
    import_columns: Option<&Vec<String>>,
) -> (r: AtomSource)
    requires
        ready.len() == members.len(),
        forall|k: int| 0 <= k < a.providers.len() ==> #[trigger] a.providers[k] < members.len(),
    ensures
        r.model() == atom_source_of(
            a.model(),
            members_model(members@),
            ready_columns(ready@),
            match import_columns {
                Some(v) => Some(texts(v@)),
                None => None,
            },
        ),
{
    if a.field.imported_taint && has_column(import_columns, &a.field.name) {
        return AtomSource::Import;
    }
    let ghost mm = members_model(members@);
    let ghost rm = ready_columns(ready@);
    let ghost column = a.field.name@;
    let mut i: usize = 0;
    while i < a.providers.len()
        invariant
            i <= a.providers.len(),
            mm == members_model(members@),
            rm == ready_columns(ready@),
            column == a.field.name@,
            ready.len() == members.len(),
            forall|k: int|
                0 <= k < a.providers.len() ==> #[trigger] a.providers[k] < members.len(),
            member_source(mm, rm, a.providers@, column, 0) == member_source(
                mm,
                rm,
                a.providers@,
                column,
                i as int,
            ),
            atom_source_of(
                a.model(),
                mm,
                rm,
                match import_columns {
                    Some(v) => Some(texts(v@)),
                    None => None,
                },
            ) == member_source(mm, rm, a.providers@, column, 0),
        decreases a.providers.len() - i,
    {
        let p: usize = a.providers[i];
        assert(a.providers[i as int] < members.len());
        let m = &members[p];
        assert(mm[p as int] == member_model(*m));
        assert(rm[p as int] == opt_columns(ready[p as int]));
        if m.cardinality.is_none() {
            if let Some(columns) = &ready[p] {
                if let Some(l) = find_local(m, &a.field.name) {
                    assert(mm[p as int].dataset.data[l as int] == m.dataset.data[l as int].model());
                    if holds_text(columns, &m.dataset.data[l].name) {
                        return AtomSource::Member {
                            member: p,
                            column: m.dataset.data[l].name.clone(),
                        };
                    }
                }
            }
        }
        i += 1;
    }
    AtomSource::Fresh
}

/// What makes a column of existing rows as long as a segment.
#[derive(Debug, Clone, Copy, PartialEq, Eq, Structural)]
pub enum TailPlan {
    /// It has the right length.
    Keep,
    /// Only the first rows are taken.
    Truncate(usize),
    /// So many rows are generated behind it.
    Generate(usize),
}

/// What makes `base_n` rows `target_n` rows.
pub open spec fn tail_for(base_n: int, target_n: int) -> TailPlan {
    if base_n == target_n {
        TailPlan::Keep
    } else if base_n > target_n {
        TailPlan::Truncate(target_n as usize)
    } else {
        TailPlan::Generate((target_n - base_n) as usize)
    }
}

/// What makes a column of existing rows as long as a segment: nothing, cutting it off, or
/// generating the rest.
pub fn pad_or_generate_tail(base_n: usize, target_n: usize) -> (r: TailPlan)
    ensures
        r == tail_for(base_n as int, target_n as int),
{
    if base_n == target_n {
        TailPlan::Keep
    } else if base_n > target_n {
        TailPlan::Truncate(target_n)
    } else {
        TailPlan::Generate(target_n - base_n)
    }
}

/// The rows that a column has after a tail plan.
pub open spec fn rows_after(base_n: int, t: TailPlan) -> int {
    match t {
        TailPlan::Keep => base_n,
        TailPlan::Truncate(n) => n as int,
        TailPlan::Generate(n) => base_n + n,
    }
}

/// A padded or truncated column has exactly the rows of the segment.
pub proof fn law_tail_fits(base_n: usize, target_n: usize)
    ensures
        rows_after(base_n as int, tail_for(base_n as int, target_n as int)) == target_n,
{
}

// ---------------------------------------------------------------------------
// Columns of the parent and of the members
// ---------------------------------------------------------------------------

/// One column of a batch and where it comes from.
#[derive(Debug)]
pub enum ColumnPlan {
    /// A shared column of the segment, by its name there.
    Shared { name: String, column: String },
    /// A column of the imported file.
    Imported { name: String },
    /// Generated from this field.
    Generated { field: Field },
}

/// What a [`ColumnPlan`] says, free of representation.
pub enum ColumnPlanModel {
    Shared { name: Seq<char>, column: Seq<char> },
    Imported { name: Seq<char> },
    Generated { field: FieldModel },
}

impl ColumnPlan {
    /// The content of this value, free of representation.
    pub open spec fn model(self) -> ColumnPlanModel {
        match self {
            ColumnPlan::Shared { name, column } => {
                ColumnPlanModel::Shared { name: name@, column: column@ }
            },
            ColumnPlan::Imported { name } => ColumnPlanModel::Imported { name: name@ },
            ColumnPlan::Generated { field } => ColumnPlanModel::Generated {
                field: field.model(),
            },
        }
    }
}

/// The models of a list of column plans.
pub open spec fn columns_model(s: Seq<ColumnPlan>) -> Seq<ColumnPlanModel> {
    Seq::new(s.len(), |i: int| s[i].model())
}

fn push_column(out: &mut Vec<ColumnPlan>, c: ColumnPlan)
    ensures
        columns_model(final(out)@) == columns_model(old(out)@).push(c.model()),
{
    let ghost before = out@;
    out.push(c);
    assert(columns_model(out@) =~= columns_model(before).push(c.model()));
}

/// The columns of the first `n` fields of the parent in a segment: shared where a member refers to
/// them, imported where they come from a file, else generated under the segment's constraints.
pub open spec fn parent_columns(
    parent: Seq<FieldModel>,
    shared: Seq<Seq<char>>,
    constraints: Map<Seq<char>, FieldConstraintsModel>,
    import_columns: Option<Seq<Seq<char>>>,
    n: int,
) -> Seq<ColumnPlanModel>
    decreases n,
{
    if n <= 0 {
        Seq::empty()
    } else {
        let before = parent_columns(parent, shared, constraints, import_columns, n - 1);
        let f = parent[n - 1];
        if !f.is_direct() {
            before
        } else if shared.contains(f.name) {
            before.push(ColumnPlanModel::Shared { name: f.name, column: f.name })
        } else if f.imported_taint && import_columns is Some && import_columns->0.contains(f.name) {
            before.push(ColumnPlanModel::Imported { name: f.name })
        } else {
            before.push(ColumnPlanModel::Generated { field: effective(f, constraints) })
        }
    }
}

/// The columns of the parent in a segment.
pub fn project_parent_columns_from_atom(
    parent_schema: &Vec<Field>,
    shared: &Vec<String>,
    constraints: &ConstraintMap,
    import_columns: Option<&Vec<String>>,
) -> (r: Vec<ColumnPlan>)
    requires
        constraints.wf(),
    ensures
        columns_model(r@) == parent_columns(
            fields_model(parent_schema@),
            texts(shared@),
            constraint_models(constraints@),
            match import_columns {
                Some(v) => Some(texts(v@)),
                None => None,
            },
            parent_schema.len() as int,
        ),
{
    let ghost pm = fields_model(parent_schema@);
    let ghost cm = constraint_models(constraints@);
    let ghost im = match import_columns {
        Some(v) => Some(texts(v@)),
        None => None,
    };
    let mut r: Vec<ColumnPlan> = Vec::new();
    let mut i: usize = 0;
    assert(columns_model(r@) =~= Seq::empty());
    while i < parent_schema.len()
        invariant
            i <= parent_schema.len(),
            constraints.wf(),
            pm == fields_model(parent_schema@),
            cm == constraint_models(constraints@),
            im == (match import_columns {
                Some(v) => Some(texts(v@)),
                None => None,
            }),
            columns_model(r@) == parent_columns(pm, texts(shared@), cm, im, i as int),
        decreases parent_schema.len() - i,
    {
        let f = &parent_schema[i];
        assert(pm[i as int] == f.model());
        if f.is_direct() {
            let c = if holds_text(shared, &f.name) {
                ColumnPlan::Shared { name: f.name.clone(), column: f.name.clone() }
            } else if f.imported_taint && has_column(import_columns, &f.name) {
                ColumnPlan::Imported { name: f.name.clone() }
            } else {
                ColumnPlan::Generated { field: effective_field(f, constraints) }
            };
            push_column(&mut r, c);
        }
        i += 1;
    }
    r
}

/// The columns of the first `n` fields of a member in a segment, or the first shared column that
/// is missing.
pub open spec fn member_columns(m: MemberModel, shared: Seq<Seq<char>>, n: int) -> Result<
    Seq<ColumnPlanModel>,
    Seq<PartModel>,
>
    decreases n,
{
    if n <= 0 {
        Ok(Seq::empty())
    } else {
        match member_columns(m, shared, n - 1) {
            Err(e) => Err(e),
            Ok(before) => {
                let f = m.dataset.data[n - 1];
                if !f.is_direct() {
                    Ok(before)
                } else {
                    match refers_to(m, f) {
                        Some(p) => if shared.contains(p) {
                            Ok(before.push(ColumnPlanModel::Shared { name: f.name, column: p }))
                        } else {
                            Err(
                                said(
                                    "atom batch missing shared ref column '"@ + p
                                        + "' for member '"@ + m.dataset.name + "'"@,
                                ),
                            )
                        },
                        None => Ok(before.push(ColumnPlanModel::Generated { field: f })),
                    }
                }
            },
        }
    }
}

proof fn lemma_member_error_stays(m: MemberModel, shared: Seq<Seq<char>>, a: int, b: int)
    requires
        0 <= a <= b,
    ensures
        member_columns(m, shared, a) is Err ==> member_columns(m, shared, b) == member_columns(
            m,
            shared,
            a,
        ),
    decreases b,
{
    if a < b {
        lemma_member_error_stays(m, shared, a, b - 1);
    }
}

/// The columns of a member in a segment: references to the parent are shared, everything else is
/// the member's own and free of the segment's constraints.
pub fn project_member_columns(m: &LowerCoverMember, shared: &Vec<String>) -> (r: Result<
    Vec<ColumnPlan>,
    Problem,
>)
    ensures
        match r {
            Ok(v) => member_columns(
                member_model(*m),
                texts(shared@),
                m.dataset.data.len() as int,
            ) == Ok::<Seq<ColumnPlanModel>, Seq<PartModel>>(columns_model(v@)),
            Err(p) => member_columns(
                member_model(*m),
                texts(shared@),
                m.dataset.data.len() as int,
            ) == Err::<Seq<ColumnPlanModel>, Seq<PartModel>>(p.model()),
        },
{
    let ghost mm = member_model(*m);
    let ghost sm = texts(shared@);
    let data = &m.dataset.data;
    let mut r: Vec<ColumnPlan> = Vec::new();
    let mut i: usize = 0;
    assert(columns_model(r@) =~= Seq::empty());
    while i < data.len()
        invariant
            i <= data.len(),
            *data == m.dataset.data,
            mm == member_model(*m),
            sm == texts(shared@),
            member_columns(mm, sm, i as int) == Ok::<Seq<ColumnPlanModel>, Seq<PartModel>>(
                columns_model(r@),
            ),
        decreases data.len() - i,
    {
        let f = &data[i];
        assert(mm.dataset.data[i as int] == f.model());
        if f.is_direct() {
            match parent_reference(m, f) {
                Some(p) => {
                    if holds_text(shared, p) {
                        push_column(
                            &mut r,
                            ColumnPlan::Shared { name: f.name.clone(), column: p.to_owned() },
                        );
                    } else {
                        let e = problem(
                            join5(
                                "atom batch missing shared ref column '",
                                p,
                                "' for member '",
                                &m.dataset.name,
                                "'",
                            ),
                        );
                        proof {
                            lemma_member_error_stays(mm, sm, i + 1, data.len() as int);
                        }
                        return Err(e);
                    }
                },
                None => {
                    push_column(&mut r, ColumnPlan::Generated { field: f.clone() });
                },
            }
        }
        i += 1;
    }
    Ok(r)
}

/// The fields that a member generates itself, among its first `n`.
pub open spec fn own_fields(m: MemberModel, n: int) -> Seq<FieldModel>
    decreases n,
{
    if n <= 0 {
        Seq::empty()
    } else {
        let before = own_fields(m, n - 1);
        let f = m.dataset.data[n - 1];
        if f.is_direct() && refers_to(m, f) is None {
            before.push(f)
        } else {
            before
        }
    }
}

/// The fields that a member generates itself: neither references to the parent, nor computed, nor
/// assembled from a link.
pub fn member_own_fields(m: &LowerCoverMember) -> (r: Vec<Field>)
    ensures
        fields_model(r@) == own_fields(member_model(*m), m.dataset.data.len() as int),
{
    let ghost mm = member_model(*m);
    let data = &m.dataset.data;
    let mut r: Vec<Field> = Vec::new();
    let mut i: usize = 0;
    assert(fields_model(r@) =~= Seq::empty());
    while i < data.len()
        invariant
            i <= data.len(),
            *data == m.dataset.data,
            mm == member_model(*m),
            fields_model(r@) == own_fields(mm, i as int),
        decreases data.len() - i,
    {
        let f = &data[i];
        assert(mm.dataset.data[i as int] == f.model());
        if f.is_direct() && parent_reference(m, f).is_none() {
            let ghost before = r@;
            let c = f.clone();
            r.push(c);
            assert(fields_model(r@) =~= fields_model(before).push(c.model()));
        }
        i += 1;
    }
    r
}

/// A member never generates a column that it shares with the parent: what it generates itself
/// refers to nothing of the parent.
pub proof fn law_own_fields_are_not_shared(m: MemberModel, n: int, k: int)
    requires
        0 <= n <= m.dataset.data.len(),
        0 <= k < own_fields(m, n).len(),
    ensures
        refers_to(m, own_fields(m, n)[k]) is None,
        own_fields(m, n)[k].is_direct(),
    decreases n,
{
    if n > 0 && k < own_fields(m, n - 1).len() {
        law_own_fields_are_not_shared(m, n - 1, k);
    }
}

/// The columns of the first `n` fields of a dataset outside any segment, or the first imported
/// column that is missing from the file.
pub open spec fn dataset_columns(
    schema: Seq<FieldModel>,
    constraints: Map<Seq<char>, FieldConstraintsModel>,
    import_columns: Option<Seq<Seq<char>>>,
    n: int,
) -> Result<Seq<ColumnPlanModel>, Seq<PartModel>>
    decreases n,
{
    if n <= 0 {
        Ok(Seq::empty())
    } else {
        match dataset_columns(schema, constraints, import_columns, n - 1) {
            Err(e) => Err(e),
            Ok(before) => {
                let f = schema[n - 1];
                if !f.is_direct() {
                    Ok(before)
                } else if f.imported_taint && import_columns is Some {
                    if import_columns->0.contains(f.name) {
                        Ok(before.push(ColumnPlanModel::Imported { name: f.name }))
                    } else {
                        Err(
                            said(
                                "imported column '"@ + f.name + "' not found in import batch"@,
                            ),
                        )
                    }
                } else {
                    Ok(
                        before.push(
                            ColumnPlanModel::Generated { field: effective(f, constraints) },
                        ),
                    )
                }
            },
        }
    }
}

proof fn lemma_dataset_error_stays(
    schema: Seq<FieldModel>,
    constraints: Map<Seq<char>, FieldConstraintsModel>,
    import_columns: Option<Seq<Seq<char>>>,
    a: int,
    b: int,
)
    requires
        0 <= a <= b,
    ensures
        dataset_columns(schema, constraints, import_columns, a) is Err ==> dataset_columns(
            schema,
            constraints,
            import_columns,
            b,
        ) == dataset_columns(schema, constraints, import_columns, a),
    decreases b,
{
    if a < b {
        lemma_dataset_error_stays(schema, constraints, import_columns, a, b - 1);
    }
}

/// The columns of a dataset: everything that is neither computed nor assembled from a link,
/// imported where the file has it and generated otherwise.
pub fn generate_batch(
    schema: &Vec<Field>,
    overrides: &ConstraintMap,
    import_columns: Option<&Vec<String>>,
) -> (r: Result<Vec<ColumnPlan>, Problem>)
    requires
        overrides.wf(),
    ensures
        ({
            let want = dataset_columns(
                fields_model(schema@),
                constraint_models(overrides@),
                match import_columns {
                    Some(v) => Some(texts(v@)),
                    None => None,
                },
                schema.len() as int,
            );
            match r {
                Ok(v) => want == Ok::<Seq<ColumnPlanModel>, Seq<PartModel>>(columns_model(v@)),
                Err(p) => want == Err::<Seq<ColumnPlanModel>, Seq<PartModel>>(p.model()),
            }
        }),
{
    let ghost sm = fields_model(schema@);
    let ghost cm = constraint_models(overrides@);
    let ghost im = match import_columns {
        Some(v) => Some(texts(v@)),
        None => None,
    };
    let mut r: Vec<ColumnPlan> = Vec::new();
    let mut i: usize = 0;
    assert(columns_model(r@) =~= Seq::empty());
    while i < schema.len()
        invariant
            i <= schema.len(),
            overrides.wf(),
            sm == fields_model(schema@),
            cm == constraint_models(overrides@),
            im == (match import_columns {
                Some(v) => Some(texts(v@)),
                None => None,
            }),
            dataset_columns(sm, cm, im, i as int) == Ok::<Seq<ColumnPlanModel>, Seq<PartModel>>(
                columns_model(r@),
            ),
        decreases schema.len() - i,
    {
        let f = &schema[i];
        assert(sm[i as int] == f.model());
        if f.is_direct() {
            if f.imported_taint && import_columns.is_some() {
                if has_column(import_columns, &f.name) {
                    push_column(&mut r, ColumnPlan::Imported { name: f.name.clone() });
                } else {
                    let e = problem(
                        crate::message::join3(
                            "imported column '",
                            &f.name,
                            "' not found in import batch",
                        ),
                    );
                    proof {
                        lemma_dataset_error_stays(sm, cm, im, i + 1, schema.len() as int);
                    }
                    return Err(e);
                }
            } else {
                push_column(
                    &mut r,
                    ColumnPlan::Generated { field: effective_field(f, overrides) },
                );
            }
        }
        i += 1;
    }
    Ok(r)
}

// ---------------------------------------------------------------------------
// What constrained fields hold
// ---------------------------------------------------------------------------

/// A value that a column of the field may hold: the field's constant, else a member of its finite
/// set, within its range where it is a number.
pub open spec fn can_hold(f: FieldModel, v: YamlModel) -> bool {
    match f.value {
        Some(c) => v == c,
        None => {
            &&& f.one_of matches Some(s) ==> s.contains(v)
            &&& (f.range is Some && v.num() is Some) ==> within(
                v.num()->0,
                f.range->0.min,
                f.range->0.max,
            )
        },
    }
}

/// A column holds nothing that the constraints put on its field do not allow, and everything that
/// both the field and the constraints allow. A constant of the constraints is the only value. Left
/// out is a field that has a constant of its own under constraints that do not replace it.
pub proof fn law_constrained_fields_obey(f: FieldModel, fc: FieldConstraintsModel, v: YamlModel)
    requires
        fc.consistent(),
        fc.coherent(),
        f.value is None || fc.value is Some || (fc.one_of is None && fc.min is None && fc.max is None),
    ensures
        can_hold(constrained(f, fc), v) ==> fc.allows(v),
        can_hold(f, v) && fc.allows(v) ==> can_hold(constrained(f, fc), v),
        fc.value is Some ==> (can_hold(constrained(f, fc), v) <==> Some(v) == fc.value),
        fc.value is Some ==> constrained(f, fc).value == fc.value,
        fc.one_of is Some ==> constrained(f, fc).one_of == fc.one_of,
{
}

/// Constraints name the generator where they have one, else the field's own stays, and nothing but
/// the value source and the cases of the field changes.
pub proof fn law_constraints_touch_the_value_source_only(f: FieldModel, fc: FieldConstraintsModel)
    ensures
        fc.generator is Some ==> constrained(f, fc).generator == fc.generator,
        fc.generator is None ==> constrained(f, fc).generator == f.generator,
        fc.value is None ==> constrained(f, fc).value == f.value,
        fc.one_of is None ==> constrained(f, fc).one_of == f.one_of,
        fc.min is None && fc.max is None ==> constrained(f, fc).range == f.range,
        fc.min is Some ==> constrained(f, fc).range is Some && constrained(f, fc).range->0.min
            == fc.min,
        fc.max is Some ==> constrained(f, fc).range is Some && constrained(f, fc).range->0.max
            == fc.max,
        fc.min is Some && fc.max is None && f.range is Some ==> constrained(f, fc).range->0.max
            == f.range->0.max,
        fc.max is Some && fc.min is None && f.range is Some ==> constrained(f, fc).range->0.min
            == f.range->0.min,
        f == (FieldModel {
            value: f.value,
            one_of: f.one_of,
            generator: f.generator,
            range: f.range,
            variants: f.variants,
            ..constrained(f, fc)
        }),
{
}

/// A field of a segment obeys the constraints that the segment has for its name, and is left alone
/// where it has none.
pub proof fn law_segment_fields_obey(
    f: FieldModel,
    constraints: Map<Seq<char>, FieldConstraintsModel>,
    v: YamlModel,
)
    ensures
        !constraints.dom().contains(f.name) ==> effective(f, constraints) == f,
        constraints.dom().contains(f.name) && constraints[f.name].consistent()
            && constraints[f.name].coherent() && f.value is None ==> (can_hold(
            effective(f, constraints),
            v,
        ) ==> constraints[f.name].allows(v)),
        constraints.dom().contains(f.name) && constraints[f.name].value is Some ==> effective(
            f,
            constraints,
        ).value == constraints[f.name].value,
        constraints.dom().contains(f.name) && constraints[f.name].one_of is Some ==> effective(
            f,
            constraints,
        ).one_of == constraints[f.name].one_of,
{
    if constraints.dom().contains(f.name) && constraints[f.name].consistent()
        && constraints[f.name].coherent() && f.value is None {
        law_constrained_fields_obey(f, constraints[f.name], v);
    }
}

/// A number that the range of a case leaves possible.
pub open spec fn in_range(n: Num, r: Option<Range>) -> bool {
    r is Some ==> within(n, r->0.min, r->0.max)
}

/// A specialised case has the constant and the generator of the specialisation where it names
/// them, keeps its own elsewhere, and holds exactly the numbers that lie in both ranges. Its name,
/// type, share and fields stay.
pub proof fn law_specialised_cases_narrow(c: FieldVariantModel, d: CaseDeltaModel, n: Num)
    ensures
        d.value is Some ==> tightened(c, d).value == d.value,
        d.value is None ==> tightened(c, d).value == c.value,
        d.generator is Some ==> tightened(c, d).generator == d.generator,
        d.generator is None ==> tightened(c, d).generator == c.generator,
        in_range(n, tightened(c, d).range) <==> in_range(n, c.range) && in_range(n, d.range),
        c == (FieldVariantModel {
            value: c.value,
            generator: c.generator,
            range: c.range,
            ..tightened(c, d)
        }),
{
}

proof fn lemma_case_found(s: Seq<FieldVariantModel>, name: Seq<char>, from: int)
    requires
        0 <= from,
    ensures
        match case_position(s, name, from) {
            Some(i) => from <= i < s.len() && s[i].name == Some(name) && forall|j: int|
                from <= j < i ==> (#[trigger] s[j]).name != Some(name),
            None => forall|j: int| from <= j < s.len() ==> (#[trigger] s[j]).name != Some(name),
        },
    decreases s.len() - from,
{
    if from < s.len() && s[from].name != Some(name) {
        lemma_case_found(s, name, from + 1);
    }
}

/// Case `i` is the first one with the name.
pub open spec fn first_named(s: Seq<FieldVariantModel>, name: Seq<char>, i: int) -> bool {
    &&& 0 <= i < s.len()
    &&& s[i].name == Some(name)
    &&& forall|j: int| 0 <= j < i ==> (#[trigger] s[j]).name != Some(name)
}

/// Specialising keeps the number of cases, and each case's name, type, share and fields. A case
/// that no specialisation names stays as it is.
pub proof fn law_specialising_keeps_the_cases(
    s: Seq<FieldVariantModel>,
    deltas: Seq<CaseDeltaModel>,
    n: int,
    i: int,
)
    requires
        0 <= n <= deltas.len(),
        0 <= i < s.len(),
    ensures
        tightened_cases(s, deltas, n).len() == s.len(),
        s[i] == (FieldVariantModel {
            value: s[i].value,
            generator: s[i].generator,
            range: s[i].range,
            ..tightened_cases(s, deltas, n)[i]
        }),
        (forall|k: int| 0 <= k < n ==> !first_named(s, (#[trigger] deltas[k]).name, i))
            ==> tightened_cases(s, deltas, n)[i] == s[i],
    decreases n,
{
    if n > 0 {
        law_specialising_keeps_the_cases(s, deltas, n - 1, i);
        let before = tightened_cases(s, deltas, n - 1);
        let name = deltas[n - 1].name;
        lemma_case_found(before, name, 0);
        if let Some(p) = case_position(before, name, 0) {
            law_specialised_cases_narrow(before[p], deltas[n - 1], Num { key: 0 });
            if p == i {
                assert(first_named(s, name, i)) by {
                    assert forall|j: int| 0 <= j < i implies (#[trigger] s[j]).name != Some(
                        name,
                    ) by {
                        law_specialising_keeps_the_cases(s, deltas, n - 1, j);
                        assert(before[j].name != Some(name));
                    }
                }
            }
        }
    }
}

/// Every specialisation counts: the first case with the name that it gives holds only numbers of
/// its range, and has its constant where no later one names another.
pub proof fn law_every_specialisation_counts(
    s: Seq<FieldVariantModel>,
    deltas: Seq<CaseDeltaModel>,
    n: int,
    k: int,
    i: int,
    x: Num,
)
    requires
        0 <= k < n <= deltas.len(),
        first_named(s, deltas[k].name, i),
    ensures
        in_range(x, tightened_cases(s, deltas, n)[i].range) ==> in_range(x, deltas[k].range)
            && in_range(x, s[i].range),
        deltas[k].value is Some && (forall|l: int|
            k < l < n ==> (#[trigger] deltas[l]).name != deltas[k].name || deltas[l].value is None)
            ==> tightened_cases(s, deltas, n)[i].value == deltas[k].value,
        deltas[k].generator is Some && (forall|l: int|
            k < l < n ==> (#[trigger] deltas[l]).name != deltas[k].name || deltas[l].generator
                is None) ==> tightened_cases(s, deltas, n)[i].generator == deltas[k].generator,
    decreases n,
{
    let before = tightened_cases(s, deltas, n - 1);
    let name = deltas[n - 1].name;
    law_specialising_keeps_the_cases(s, deltas, n - 1, i);
    lemma_case_found(before, name, 0);
    if deltas[n - 1].name == deltas[k].name {
        assert(case_position(before, name, 0) == Some(i)) by {
            let p = case_position(before, name, 0);
            assert(before[i].name == Some(name));
            if p is Some && p->0 < i {
                law_specialising_keeps_the_cases(s, deltas, n - 1, p->0);
                assert(s[p->0].name == Some(name));
            }
        }
        law_specialised_cases_narrow(before[i], deltas[n - 1], x);
    } else {
        if let Some(p) = case_position(before, name, 0) {
            assert(p != i);
        }
    }
    lemma_range_only_narrows(s, deltas, n - 1, i, x);
    if k < n - 1 {
        law_every_specialisation_counts(s, deltas, n - 1, k, i, x);
    }
}

proof fn lemma_range_only_narrows(
    s: Seq<FieldVariantModel>,
    deltas: Seq<CaseDeltaModel>,
    n: int,
    i: int,
    x: Num,
)
    requires
        0 <= n <= deltas.len(),
        0 <= i < s.len(),
    ensures
        in_range(x, tightened_cases(s, deltas, n)[i].range) ==> in_range(x, s[i].range),
    decreases n,
{
    if n > 0 {
        lemma_range_only_narrows(s, deltas, n - 1, i, x);
        law_specialising_keeps_the_cases(s, deltas, n - 1, i);
        let before = tightened_cases(s, deltas, n - 1);
        lemma_case_found(before, deltas[n - 1].name, 0);
        if let Some(p) = case_position(before, deltas[n - 1].name, 0) {
            law_specialised_cases_narrow(before[p], deltas[n - 1], x);
        }
    }
}

/// The cases of a constrained field are those of the field, specialised by all that the
/// constraints name.
pub proof fn law_constrained_cases_are_specialised(
    f: FieldModel,
    fc: FieldConstraintsModel,
    k: int,
    i: int,
    x: Num,
)
    requires
        0 <= k < fc.case_overrides.len(),
        first_named(f.variants, fc.case_overrides[k].name, i),
    ensures
        constrained(f, fc).variants.len() == f.variants.len(),
        in_range(x, constrained(f, fc).variants[i].range) ==> in_range(
            x,
            fc.case_overrides[k].range,
        ) && in_range(x, f.variants[i].range),
        fc.case_overrides[k].value is Some && (forall|l: int|
            k < l < fc.case_overrides.len() ==> (#[trigger] fc.case_overrides[l]).name
                != fc.case_overrides[k].name || fc.case_overrides[l].value is None) ==> constrained(
            f,
            fc,
        ).variants[i].value == fc.case_overrides[k].value,
{
    let n = fc.case_overrides.len() as int;
    law_specialising_keeps_the_cases(f.variants, fc.case_overrides, n, i);
    law_every_specialisation_counts(f.variants, fc.case_overrides, n, k, i, x);
}

} // verus!
