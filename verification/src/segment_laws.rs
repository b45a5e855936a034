//! What the columns of a segment promise: what its members share with the parent, where shared
//! values come from, and that no field is forgotten.
use vstd::prelude::*;

use crate::assembly::{
    atom_columns, atom_source_of, dataset_columns, effective, local_position, member_columns,
    member_source, own_fields, parent_columns, providers, AtomColumnModel, AtomSourceModel,
    ColumnPlanModel,
};
use crate::constraints::FieldConstraintsModel;
use crate::cover::MemberModel;
use crate::group::{rows_for, segment_rows, Situation};
use crate::models::{FieldModel, RefsSpecModel};
use crate::run::{has_witness, member_position, real_members};
use crate::text::after_prefix;

verus! {

// ---------------------------------------------------------------------------
// References of members
// ---------------------------------------------------------------------------

/// A column of its own kind: neither computed nor a list that is drawn from a link.
pub open spec fn is_plain(f: FieldModel) -> bool {
    &&& f.expression is None
    &&& f.content is Some ==> f.content->0.from is None
}

/// The field of a member refers to this column of the parent.
pub open spec fn names_column(m: MemberModel, f: FieldModel, column: Seq<char>) -> bool {
    f.type_ref() == Some(m.reference + seq!['.'] + column)
}

proof fn lemma_named(m: MemberModel, f: FieldModel, column: Seq<char>)
    ensures
        names_column(m, f, column) <==> crate::assembly::refers_to(m, f) == Some(column),
        f.is_direct() == is_plain(f),
{
    reveal_strlit(".");
    let prefix = m.reference + "."@;
    assert(prefix =~= m.reference + seq!['.']);
    if f.type_ref() is Some {
        let r = f.type_ref()->0;
        if names_column(m, f, column) {
            assert(r == prefix + column);
            assert(r.subrange(0, prefix.len() as int) =~= prefix);
            assert(r.subrange(prefix.len() as int, r.len() as int) =~= column);
        }
        if crate::assembly::refers_to(m, f) == Some(column) {
            assert(after_prefix(r, prefix) == Some(column));
            assert(r =~= prefix + column);
        }
    }
}

/// The member has a field that refers to this column of the parent.
pub open spec fn shares(m: MemberModel, column: Seq<char>) -> bool {
    exists|i: int|
        0 <= i < m.dataset.data.len() && names_column(m, #[trigger] m.dataset.data[i], column)
}

proof fn lemma_local(m: MemberModel, column: Seq<char>, from: int)
    requires
        0 <= from <= m.dataset.data.len(),
    ensures
        match local_position(m, column, from) {
            Some(i) => from <= i < m.dataset.data.len() && names_column(
                m,
                m.dataset.data[i],
                column,
            ),
            None => forall|i: int|
                from <= i < m.dataset.data.len() ==> !names_column(
                    m,
                    #[trigger] m.dataset.data[i],
                    column,
                ),
        },
    decreases m.dataset.data.len() - from,
{
    if from < m.dataset.data.len() {
        lemma_named(m, m.dataset.data[from], column);
        lemma_local(m, column, from + 1);
    }
}

/// The members that provide a column are exactly those with a field that refers to it.
pub proof fn law_providers_refer_to_the_column(
    members: Seq<MemberModel>,
    column: Seq<char>,
    n: int,
    k: usize,
)
    requires
        0 <= n <= members.len() <= usize::MAX,
    ensures
        providers(members, column, n).contains(k) <==> k < n && shares(members[k as int], column),
    decreases n,
{
    if n > 0 {
        law_providers_refer_to_the_column(members, column, n - 1, k);
        lemma_local(members[n - 1], column, 0);
        let before = providers(members, column, n - 1);
        let now = providers(members, column, n);
        if before.contains(k) {
            let j = choose|j: int| 0 <= j < before.len() && before[j] == k;
            assert(now[j] == k);
        }
        if k == n - 1 && now.len() > before.len() {
            assert(now[before.len() as int] == k);
        }
        if now.contains(k) && !before.contains(k) {
            let j = choose|j: int| 0 <= j < now.len() && now[j] == k;
            assert(j == before.len());
        }
    }
}

/// Every plain column of the parent that some member refers to is shared, under the segment's
/// constraints, with all members that refer to it.
pub proof fn law_referred_columns_are_shared(
    parent: Seq<FieldModel>,
    members: Seq<MemberModel>,
    constraints: Map<Seq<char>, FieldConstraintsModel>,
    n: int,
    i: int,
    k: usize,
)
    requires
        0 <= i < n <= parent.len(),
        members.len() <= usize::MAX,
        k < members.len(),
        is_plain(parent[i]),
        shares(members[k as int], parent[i].name),
    ensures
        exists|a: int|
            0 <= a < atom_columns(parent, members, constraints, n).len() && (#[trigger] atom_columns(
                parent,
                members,
                constraints,
                n,
            )[a]).field == effective(parent[i], constraints) && atom_columns(
                parent,
                members,
                constraints,
                n,
            )[a].providers.contains(k),
    decreases n,
{
    let now = atom_columns(parent, members, constraints, n);
    let before = atom_columns(parent, members, constraints, n - 1);
    if i < n - 1 {
        law_referred_columns_are_shared(parent, members, constraints, n - 1, i, k);
        let a = choose|a: int|
            0 <= a < before.len() && (#[trigger] before[a]).field == effective(
                parent[i],
                constraints,
            ) && before[a].providers.contains(k);
        assert(now[a] == before[a]);
    } else {
        law_providers_refer_to_the_column(
            members,
            parent[i].name,
            members.len() as int,
            k,
        );
        assert(now[before.len() as int].field == effective(parent[i], constraints));
    }
}

/// Whoever provides a shared column refers to it, and constraints never change its name.
pub proof fn law_shared_columns_have_their_providers(
    parent: Seq<FieldModel>,
    members: Seq<MemberModel>,
    constraints: Map<Seq<char>, FieldConstraintsModel>,
    n: int,
    a: int,
    p: int,
)
    requires
        0 <= n <= parent.len(),
        members.len() <= usize::MAX,
        0 <= a < atom_columns(parent, members, constraints, n).len(),
        0 <= p < atom_columns(parent, members, constraints, n)[a].providers.len(),
    ensures
        ({
            let c = atom_columns(parent, members, constraints, n)[a];
            c.providers[p] < members.len() && shares(members[c.providers[p] as int], c.field.name)
        }),
    decreases n,
{
    if n > 0 {
        let before = atom_columns(parent, members, constraints, n - 1);
        if a < before.len() {
            law_shared_columns_have_their_providers(parent, members, constraints, n - 1, a, p);
        } else {
            let who = providers(members, parent[n - 1].name, members.len() as int);
            assert(who.contains(who[p]));
            law_providers_refer_to_the_column(
                members,
                parent[n - 1].name,
                members.len() as int,
                who[p],
            );
        }
    }
}

// ---------------------------------------------------------------------------
// Columns of members
// ---------------------------------------------------------------------------

proof fn lemma_member_ok(m: MemberModel, shared: Seq<Seq<char>>, a: int, b: int, k: int)
    requires
        0 <= a <= b,
        member_columns(m, shared, b) is Ok,
    ensures
        member_columns(m, shared, a) is Ok,
        0 <= k < member_columns(m, shared, a)->Ok_0.len() ==> k < member_columns(
            m,
            shared,
            b,
        )->Ok_0.len() && member_columns(m, shared, b)->Ok_0[k] == member_columns(
            m,
            shared,
            a,
        )->Ok_0[k],
    decreases b,
{
    if a < b {
        lemma_member_ok(m, shared, a, b - 1, k);
    }
}

/// A plain field of a member that refers to the parent has the values of the shared column it
/// refers to.
pub proof fn law_members_take_what_they_refer_to(
    m: MemberModel,
    shared: Seq<Seq<char>>,
    n: int,
    i: int,
    column: Seq<char>,
)
    requires
        0 <= i < n <= m.dataset.data.len(),
        is_plain(m.dataset.data[i]),
        m.dataset.data[i].refs == Some(RefsSpecModel::Single(m.reference + seq!['.'] + column)),
        member_columns(m, shared, n) is Ok,
    ensures
        shared.contains(column),
        member_columns(m, shared, n)->Ok_0.contains(
            (ColumnPlanModel::Shared { name: m.dataset.data[i].name, column }),
        ),
{
    lemma_named(m, m.dataset.data[i], column);
    lemma_member_ok(m, shared, i + 1, n, 0);
    lemma_member_ok(m, shared, i, n, 0);
    let upto = member_columns(m, shared, i + 1)->Ok_0;
    let at = upto.len() - 1;
    lemma_member_ok(m, shared, i + 1, n, at);
    assert(member_columns(m, shared, n)->Ok_0[at] == upto[at]);
}

/// A plain field of a member without a reference is generated as it is written, free of the
/// segment's constraints.
pub proof fn law_members_generate_the_rest(
    m: MemberModel,
    shared: Seq<Seq<char>>,
    n: int,
    i: int,
)
    requires
        0 <= i < n <= m.dataset.data.len(),
        is_plain(m.dataset.data[i]),
        m.dataset.data[i].refs is None,
        member_columns(m, shared, n) is Ok,
    ensures
        member_columns(m, shared, n)->Ok_0.contains(
            (ColumnPlanModel::Generated { field: m.dataset.data[i] }),
        ),
        own_fields(m, n).contains(m.dataset.data[i]),
{
    lemma_named(m, m.dataset.data[i], Seq::empty());
    lemma_member_ok(m, shared, i + 1, n, 0);
    lemma_member_ok(m, shared, i, n, 0);
    let upto = member_columns(m, shared, i + 1)->Ok_0;
    let at = upto.len() - 1;
    lemma_member_ok(m, shared, i + 1, n, at);
    assert(member_columns(m, shared, n)->Ok_0[at] == upto[at]);
    lemma_own_kept(m, i, n);
}

proof fn lemma_own_kept(m: MemberModel, i: int, n: int)
    requires
        0 <= i < n <= m.dataset.data.len(),
        is_plain(m.dataset.data[i]),
        m.dataset.data[i].refs is None,
    ensures
        own_fields(m, n).contains(m.dataset.data[i]),
    decreases n,
{
    let before = own_fields(m, n - 1);
    let now = own_fields(m, n);
    if i < n - 1 {
        lemma_own_kept(m, i, n - 1);
        let k = choose|k: int| 0 <= k < before.len() && before[k] == m.dataset.data[i];
        assert(now[k] == m.dataset.data[i]);
    } else {
        assert(now[before.len() as int] == m.dataset.data[i]);
    }
}

/// A member has no other columns: each one is a shared column that a plain field refers to, or a
/// plain field that refers to none.
pub proof fn law_member_columns_are_its_fields(
    m: MemberModel,
    shared: Seq<Seq<char>>,
    n: int,
    k: int,
)
    requires
        0 <= n <= m.dataset.data.len(),
        member_columns(m, shared, n) is Ok,
        0 <= k < member_columns(m, shared, n)->Ok_0.len(),
    ensures
        exists|i: int|
            0 <= i < n && is_plain(#[trigger] m.dataset.data[i]) && match member_columns(
                m,
                shared,
                n,
            )->Ok_0[k] {
                ColumnPlanModel::Shared { name, column } => m.dataset.data[i].name == name
                    && names_column(m, m.dataset.data[i], column) && shared.contains(column),
                ColumnPlanModel::Generated { field } => m.dataset.data[i] == field,
                ColumnPlanModel::Imported { .. } => false,
            },
    decreases n,
{
    lemma_member_ok(m, shared, n - 1, n, k);
    let before = member_columns(m, shared, n - 1)->Ok_0;
    if k < before.len() {
        law_member_columns_are_its_fields(m, shared, n - 1, k);
    } else {
        let f = m.dataset.data[n - 1];
        let c = match crate::assembly::refers_to(m, f) {
            Some(c) => c,
            None => Seq::empty(),
        };
        lemma_named(m, f, c);
        assert(is_plain(m.dataset.data[n - 1]));
    }
}

/// The columns of a member can be had exactly where every column of the parent that a plain field
/// refers to is shared.
pub proof fn law_missing_shared_columns_are_refused(m: MemberModel, shared: Seq<Seq<char>>, n: int)
    requires
        0 <= n <= m.dataset.data.len(),
    ensures
        member_columns(m, shared, n) is Err <==> exists|i: int, c: Seq<char>|
            0 <= i < n && is_plain(m.dataset.data[i]) && #[trigger] names_column(
                m,
                m.dataset.data[i],
                c,
            ) && !shared.contains(c),
    decreases n,
{
    if n > 0 {
        law_missing_shared_columns_are_refused(m, shared, n - 1);
        let f = m.dataset.data[n - 1];
        match crate::assembly::refers_to(m, f) {
            Some(c) => {
                lemma_named(m, f, c);
            },
            None => {
                lemma_named(m, f, Seq::empty());
            },
        }
        if member_columns(m, shared, n) is Err && member_columns(m, shared, n - 1) is Ok {
            let c = crate::assembly::refers_to(m, f)->0;
            assert(names_column(m, m.dataset.data[n - 1], c));
        }
        if exists|i: int, c: Seq<char>|
            0 <= i < n && is_plain(m.dataset.data[i]) && #[trigger] names_column(
                m,
                m.dataset.data[i],
                c,
            ) && !shared.contains(c) {
            let (i, c) = choose|i: int, c: Seq<char>|
                0 <= i < n && is_plain(m.dataset.data[i]) && #[trigger] names_column(
                    m,
                    m.dataset.data[i],
                    c,
                ) && !shared.contains(c);
            lemma_named(m, m.dataset.data[i], c);
        }
    }
}

// ---------------------------------------------------------------------------
// Columns of the parent
// ---------------------------------------------------------------------------

/// Every plain field of the parent has its column: the shared one where members refer to it, the
/// imported one where it comes from the file, else one generated under the constraints.
pub proof fn law_parent_columns_cover_its_fields(
    parent: Seq<FieldModel>,
    shared: Seq<Seq<char>>,
    constraints: Map<Seq<char>, FieldConstraintsModel>,
    import_columns: Option<Seq<Seq<char>>>,
    n: int,
    i: int,
)
    requires
        0 <= i < n <= parent.len(),
        is_plain(parent[i]),
    ensures
        ({
            let columns = parent_columns(parent, shared, constraints, import_columns, n);
            let f = parent[i];
            let imported = f.imported_taint && import_columns is Some
                && import_columns->0.contains(f.name);
            &&& shared.contains(f.name) ==> columns.contains(
                (ColumnPlanModel::Shared { name: f.name, column: f.name }),
            )
            &&& !shared.contains(f.name) && imported ==> columns.contains(
                (ColumnPlanModel::Imported { name: f.name }),
            )
            &&& !shared.contains(f.name) && !imported ==> columns.contains(
                (ColumnPlanModel::Generated { field: effective(f, constraints) }),
            )
        }),
    decreases n,
{
    let now = parent_columns(parent, shared, constraints, import_columns, n);
    let before = parent_columns(parent, shared, constraints, import_columns, n - 1);
    let f = parent[i];
    let imported = f.imported_taint && import_columns is Some && import_columns->0.contains(f.name);
    let want = if shared.contains(f.name) {
        ColumnPlanModel::Shared { name: f.name, column: f.name }
    } else if imported {
        ColumnPlanModel::Imported { name: f.name }
    } else {
        ColumnPlanModel::Generated { field: effective(f, constraints) }
    };
    if i < n - 1 {
        law_parent_columns_cover_its_fields(
            parent,
            shared,
            constraints,
            import_columns,
            n - 1,
            i,
        );
        let k = choose|k: int| 0 <= k < before.len() && before[k] == want;
        assert(now[k] == want);
    } else {
        assert(now[before.len() as int] == want);
    }
}

/// A dataset without a lower cover has a column for every plain field: the imported one where it
/// comes from the file, else one generated under the constraints.
pub proof fn law_dataset_columns_cover_its_fields(
    schema: Seq<FieldModel>,
    constraints: Map<Seq<char>, FieldConstraintsModel>,
    import_columns: Option<Seq<Seq<char>>>,
    n: int,
    i: int,
)
    requires
        0 <= i < n <= schema.len(),
        is_plain(schema[i]),
        dataset_columns(schema, constraints, import_columns, n) is Ok,
    ensures
        ({
            let columns = dataset_columns(schema, constraints, import_columns, n)->Ok_0;
            let f = schema[i];
            &&& f.imported_taint && import_columns is Some ==> import_columns->0.contains(f.name)
                && columns.contains((ColumnPlanModel::Imported { name: f.name }))
            &&& !f.imported_taint || import_columns is None ==> columns.contains(
                (ColumnPlanModel::Generated { field: effective(f, constraints) }),
            )
        }),
    decreases n,
{
    let now = dataset_columns(schema, constraints, import_columns, n)->Ok_0;
    let before = dataset_columns(schema, constraints, import_columns, n - 1)->Ok_0;
    let f = schema[i];
    let want = if f.imported_taint && import_columns is Some {
        ColumnPlanModel::Imported { name: f.name }
    } else {
        ColumnPlanModel::Generated { field: effective(f, constraints) }
    };
    if i < n - 1 {
        law_dataset_columns_cover_its_fields(schema, constraints, import_columns, n - 1, i);
        let k = choose|k: int| 0 <= k < before.len() && before[k] == want;
        assert(now[k] == want);
    } else {
        assert(now[before.len() as int] == want);
    }
}

/// A dataset is refused exactly where a plain field that comes from the file is missing there.
pub proof fn law_missing_imports_are_refused(
    schema: Seq<FieldModel>,
    constraints: Map<Seq<char>, FieldConstraintsModel>,
    import_columns: Option<Seq<Seq<char>>>,
    n: int,
)
    requires
        0 <= n <= schema.len(),
    ensures
        dataset_columns(schema, constraints, import_columns, n) is Err <==> exists|i: int|
            0 <= i < n && is_plain(#[trigger] schema[i]) && schema[i].imported_taint
                && import_columns is Some && !import_columns->0.contains(schema[i].name),
    decreases n,
{
    if n > 0 {
        law_missing_imports_are_refused(schema, constraints, import_columns, n - 1);
        assert(is_plain(schema[n - 1]) == schema[n - 1].is_direct());
    }
}

// ---------------------------------------------------------------------------
// Where shared values come from
// ---------------------------------------------------------------------------

/// A member whose rows exist holds the values of the shared column: it refers to it, is not
/// expanded, and its rows have the column that does.
pub open spec fn offers(
    members: Seq<MemberModel>,
    ready: Seq<Option<Seq<Seq<char>>>>,
    member: int,
    shared: Seq<char>,
    column: Seq<char>,
) -> bool {
    let m = members[member];
    &&& m.cardinality is None
    &&& ready[member] is Some
    &&& ready[member]->0.contains(column)
    &&& exists|i: int|
        0 <= i < m.dataset.data.len() && (#[trigger] m.dataset.data[i]).name == column
            && names_column(m, m.dataset.data[i], shared)
}

proof fn lemma_member_source(
    members: Seq<MemberModel>,
    ready: Seq<Option<Seq<Seq<char>>>>,
    who: Seq<usize>,
    shared: Seq<char>,
    from: int,
)
    requires
        0 <= from <= who.len(),
    ensures
        match member_source(members, ready, who, shared, from) {
            AtomSourceModel::Member { member, column } => who.contains(member) && offers(
                members,
                ready,
                member as int,
                shared,
                column,
            ),
            AtomSourceModel::Fresh => true,
            AtomSourceModel::Import => false,
        },
    decreases who.len() - from,
{
    if from < who.len() {
        lemma_member_source(members, ready, who, shared, from + 1);
        let m = members[who[from] as int];
        lemma_local(m, shared, 0);
        assert(who.contains(who[from]));
        if let Some(l) = local_position(m, shared, 0) {
            assert(m.dataset.data[l].name == m.dataset.data[l].name);
        }
    }
}

proof fn lemma_fresh_source(
    members: Seq<MemberModel>,
    ready: Seq<Option<Seq<Seq<char>>>>,
    who: Seq<usize>,
    shared: Seq<char>,
    from: int,
    k: int,
    l: int,
)
    requires
        0 <= from <= k < who.len(),
        members[who[k] as int].cardinality is None,
        local_position(members[who[k] as int], shared, 0) == Some(l),
        ready[who[k] as int] is Some,
        ready[who[k] as int]->0.contains(members[who[k] as int].dataset.data[l].name),
    ensures
        member_source(members, ready, who, shared, from) is Member,
    decreases k - from,
{
    if from < k {
        lemma_fresh_source(members, ready, who, shared, from + 1, k, l);
    }
}

/// The values of a shared column come from the imported file exactly where the column comes from
/// it, else from a provider whose rows exist and hold it; a provider of one field for the column
/// whose rows hold it is never passed over for fresh values.
pub proof fn law_shared_values_come_from_existing_rows(
    a: AtomColumnModel,
    members: Seq<MemberModel>,
    ready: Seq<Option<Seq<Seq<char>>>>,
    import_columns: Option<Seq<Seq<char>>>,
    k: int,
    i: int,
)
    ensures
        ({
            let from = atom_source_of(a, members, ready, import_columns);
            &&& from is Import <==> a.field.imported_taint && import_columns is Some
                && import_columns->0.contains(a.field.name)
            &&& from matches AtomSourceModel::Member { member, column } ==> a.providers.contains(
                member,
            ) && offers(members, ready, member as int, a.field.name, column)
            &&& 0 <= k < a.providers.len() && only_reference(
                members[a.providers[k] as int],
                i,
                a.field.name,
            ) && members[a.providers[k] as int].cardinality is None
                && ready[a.providers[k] as int] is Some
                && ready[a.providers[k] as int]->0.contains(
                members[a.providers[k] as int].dataset.data[i].name,
            ) ==> !(from is Fresh)
        }),
{
    lemma_member_source(members, ready, a.providers, a.field.name, 0);
    if 0 <= k < a.providers.len() && only_reference(
        members[a.providers[k] as int],
        i,
        a.field.name,
    ) && members[a.providers[k] as int].cardinality is None && ready[a.providers[k] as int] is Some
        && ready[a.providers[k] as int]->0.contains(
        members[a.providers[k] as int].dataset.data[i].name,
    ) {
        let m = members[a.providers[k] as int];
        lemma_local(m, a.field.name, 0);
        assert(names_column(m, m.dataset.data[i], a.field.name));
        assert(local_position(m, a.field.name, 0) == Some(i));
        lemma_fresh_source(members, ready, a.providers, a.field.name, 0, k, i);
    }
}

/// The field at this position is the one that refers to the column.
pub open spec fn only_reference(m: MemberModel, i: int, column: Seq<char>) -> bool {
    &&& 0 <= i < m.dataset.data.len()
    &&& forall|j: int|
        0 <= j < m.dataset.data.len() ==> (names_column(m, #[trigger] m.dataset.data[j], column)
            <==> j == i)
}

// ---------------------------------------------------------------------------
// Rows of members
// ---------------------------------------------------------------------------

/// A member with a cardinality is expanded to it, whether or not it has rows; any other reuses the
/// rows it has.
pub proof fn law_members_get_the_rows_they_declare(m: MemberModel, ready: bool)
    ensures
        m.cardinality is Some <==> rows_for(m, ready) is Expanded,
        m.cardinality is Some ==> m.cardinality == Some(rows_for(m, ready)->Expanded_0),
        m.cardinality is None && ready <==> rows_for(m, ready) is Reused,
{
}

/// A segment has the rows of its part of the file where there is a file, else those planned, and
/// is left out where it has none.
pub proof fn law_segments_have_their_rows(planned: usize, imported: Option<usize>)
    ensures
        planned == 0 ==> segment_rows(planned, imported) is None,
        planned > 0 && imported is None ==> segment_rows(planned, imported) == Some(planned),
        planned > 0 && imported is Some && imported->0 > 0 ==> segment_rows(planned, imported)
            == imported,
        imported == Some(0usize) ==> segment_rows(planned, imported) is None,
{
}

/// Every member of a segment has its plan, at its place: the rows it declares, and no columns
/// where its rows are reused.
pub proof fn law_every_member_is_planned(s: Situation, who: Seq<usize>, n: int, k: int)
    requires
        0 <= k < n <= who.len(),
        s.member_plans(who, n) is Ok,
    ensures
        ({
            let plans = s.member_plans(who, n)->Ok_0;
            let m = s.members[who[k] as int];
            &&& plans.len() == n
            &&& plans[k].member == who[k]
            &&& m.cardinality is Some ==> m.cardinality == Some(plans[k].rows->Expanded_0)
                && plans[k].rows is Expanded
            &&& m.cardinality is None && s.ready[who[k] as int] is Some ==> plans[k].rows is Reused
                && plans[k].columns.len() == 0
            &&& m.cardinality is None && s.ready[who[k] as int] is None ==> plans[k].rows is Plain
        }),
    decreases n,
{
    if k < n - 1 {
        law_every_member_is_planned(s, who, n - 1, k);
    } else if n > 1 {
        law_every_member_is_planned(s, who, n - 1, 0);
    } else {
        assert(s.member_plans(who, 0)->Ok_0.len() == 0);
    }
}

// ---------------------------------------------------------------------------
// Members of a segment
// ---------------------------------------------------------------------------

proof fn lemma_member_position(members: Seq<MemberModel>, path: Seq<char>, from: int)
    requires
        0 <= from <= members.len(),
    ensures
        match member_position(members, path, from) {
            Some(i) => from <= i < members.len() && members[i].path == path && forall|j: int|
                from <= j < i ==> (#[trigger] members[j]).path != path,
            None => forall|j: int| from <= j < members.len() ==> (#[trigger] members[j]).path != path,
        },
    decreases members.len() - from,
{
    if from < members.len() {
        lemma_member_position(members, path, from + 1);
    }
}

/// The member is the first of its path, and no list field has that path.
pub open spec fn is_real(members: Seq<MemberModel>, i: int) -> bool {
    &&& 0 <= i < members.len()
    &&& forall|j: int| 0 <= j < i ==> (#[trigger] members[j]).path != members[i].path
    &&& forall|j: int|
        0 <= j < members.len() && (#[trigger] members[j]).path == members[i].path
            ==> !members[j].is_witness_source
}

/// The members that get the rows of a segment are exactly those that the segment names and that
/// have rows of their own; those that stand for a list field get none.
pub proof fn law_segments_reach_their_members(
    members: Seq<MemberModel>,
    paths: Seq<Seq<char>>,
    n: int,
    i: usize,
)
    requires
        0 <= n <= paths.len(),
        members.len() <= usize::MAX,
        i < members.len(),
    ensures
        real_members(members, paths, n).contains(i) <==> is_real(members, i as int) && exists|k: int|
            0 <= k < n && #[trigger] paths[k] == members[i as int].path,
    decreases n,
{
    if n > 0 {
        law_segments_reach_their_members(members, paths, n - 1, i);
        lemma_member_position(members, paths[n - 1], 0);
        let before = real_members(members, paths, n - 1);
        let now = real_members(members, paths, n);
        let path = paths[n - 1];
        if crate::run::is_witness_path(members, path) {
            let w = choose|w: int|
                0 <= w < members.len() && (#[trigger] members[w]).is_witness_source
                    && members[w].path == path;
            assert(members[w].path == path);
            if is_real(members, i as int) {
                assert(members[i as int].path != path);
            }
        } else {
            if before.contains(i) {
                let j = choose|j: int| 0 <= j < before.len() && before[j] == i;
                assert(now[j] == i);
            }
            if now.contains(i) && !before.contains(i) {
                let j = choose|j: int| 0 <= j < now.len() && now[j] == i;
                assert(j == before.len());
                assert(paths[n - 1] == members[i as int].path);
            }
            if is_real(members, i as int) && path == members[i as int].path {
                assert(member_position(members, path, 0) == Some(i as int));
                assert(now[before.len() as int] == i);
            }
        }
    }
}

/// A segment has a witness exactly where it names a list field.
pub proof fn law_witnesses_are_list_fields(members: Seq<MemberModel>, paths: Seq<Seq<char>>)
    ensures
        has_witness(members, paths) <==> exists|k: int, i: int|
            0 <= k < paths.len() && 0 <= i < members.len() && #[trigger] paths[k] == (
            #[trigger] members[i]).path && members[i].is_witness_source,
{
    if has_witness(members, paths) {
        let k = choose|k: int|
            0 <= k < paths.len() && crate::run::is_witness_path(members, #[trigger] paths[k]);
        let i = choose|i: int|
            0 <= i < members.len() && (#[trigger] members[i]).is_witness_source && members[i].path
                == paths[k];
        assert(paths[k] == members[i].path);
    }
}

// ---------------------------------------------------------------------------
// Decisions
// ---------------------------------------------------------------------------

/// The decision is about the member: its own, or that of a group it is in.
pub open spec fn is_about(
    d: crate::segment::DfsEntry,
    groups: Seq<Seq<usize>>,
    m: int,
) -> bool {
    match d {
        crate::segment::DfsEntry::Lone(i) => i == m,
        crate::segment::DfsEntry::Group(g) => g < groups.len() && exists|k: int|
            0 <= k < groups[g as int].len() && #[trigger] groups[g as int][k] == m,
    }
}

proof fn lemma_group_of(groups: Seq<Seq<usize>>, g: int, m: int)
    requires
        0 <= g <= groups.len(),
    ensures
        match crate::segment::group_of(groups, g, m) {
            Some(x) => 0 <= x < g && exists|k: int|
                0 <= k < groups[x].len() && #[trigger] groups[x][k] == m,
            None => forall|x: int, k: int|
                0 <= x < g && 0 <= k < groups[x].len() ==> #[trigger] groups[x][k] != m,
        },
    decreases g,
{
    if g > 0 {
        lemma_group_of(groups, g - 1, m);
    }
}

proof fn lemma_decided(groups: Seq<Seq<usize>>, n: int, d: crate::segment::DfsEntry)
    requires
        0 < n,
        crate::segment::decisions(groups, n - 1).contains(d),
    ensures
        crate::segment::decisions(groups, n).contains(d),
{
    let before = crate::segment::decisions(groups, n - 1);
    let now = crate::segment::decisions(groups, n);
    let k = choose|k: int| 0 <= k < before.len() && before[k] == d;
    assert(now[k] == d);
}

proof fn lemma_group_decides(groups: Seq<Seq<usize>>, n: int, m: int, g: int)
    requires
        0 <= m < n <= usize::MAX,
        groups.len() <= usize::MAX,
        crate::segment::group_of(groups, groups.len() as int, m) == Some(g),
    ensures
        crate::segment::decisions(groups, n).contains(crate::segment::DfsEntry::Group(g as usize)),
    decreases n,
{
    let count = groups.len() as int;
    let d = crate::segment::DfsEntry::Group(g as usize);
    let before = crate::segment::decisions(groups, n - 1);
    let now = crate::segment::decisions(groups, n);
    lemma_group_of(groups, count, m);
    if m < n - 1 {
        lemma_group_decides(groups, n - 1, m, g);
        lemma_decided(groups, n, d);
    } else if exists|j: int|
        0 <= j < n - 1 && #[trigger] crate::segment::group_of(groups, count, j) == Some(g) {
        let j = choose|j: int|
            0 <= j < n - 1 && #[trigger] crate::segment::group_of(groups, count, j) == Some(g);
        lemma_group_decides(groups, n - 1, j, g);
        lemma_decided(groups, n, d);
    } else {
        assert(now[before.len() as int] == d);
    }
}

/// Every member is decided on: by itself where it is in no group, else with a group that it is in.
pub proof fn law_every_member_is_decided_on(groups: Seq<Seq<usize>>, n: int, m: int)
    requires
        0 <= m < n <= usize::MAX,
        groups.len() <= usize::MAX,
    ensures
        exists|k: int|
            0 <= k < crate::segment::decisions(groups, n).len() && is_about(
                #[trigger] crate::segment::decisions(groups, n)[k],
                groups,
                m,
            ),
        (forall|g: int, k: int|
            0 <= g < groups.len() && 0 <= k < groups[g].len() ==> #[trigger] groups[g][k] != m)
            ==> crate::segment::decisions(groups, n).contains(
            crate::segment::DfsEntry::Lone(m as usize),
        ),
    decreases n,
{
    let count = groups.len() as int;
    lemma_group_of(groups, count, m);
    let all = crate::segment::decisions(groups, n);
    match crate::segment::group_of(groups, count, m) {
        Some(g) => {
            lemma_group_decides(groups, n, m, g);
            let d = crate::segment::DfsEntry::Group(g as usize);
            let k = choose|k: int| 0 <= k < all.len() && all[k] == d;
            assert(is_about(all[k], groups, m));
        },
        None => {
            lemma_lone_decides(groups, n, m);
            let d = crate::segment::DfsEntry::Lone(m as usize);
            let k = choose|k: int| 0 <= k < all.len() && all[k] == d;
            assert(is_about(all[k], groups, m));
        },
    }
}

proof fn lemma_lone_decides(groups: Seq<Seq<usize>>, n: int, m: int)
    requires
        0 <= m < n <= usize::MAX,
        crate::segment::group_of(groups, groups.len() as int, m) is None,
    ensures
        crate::segment::decisions(groups, n).contains(crate::segment::DfsEntry::Lone(m as usize)),
    decreases n,
{
    let d = crate::segment::DfsEntry::Lone(m as usize);
    let before = crate::segment::decisions(groups, n - 1);
    let now = crate::segment::decisions(groups, n);
    if m < n - 1 {
        lemma_lone_decides(groups, n - 1, m);
        lemma_decided(groups, n, d);
    } else {
        assert(now[before.len() as int] == d);
    }
}

/// A cell gets its whole share or one row more, never more than one, and nothing more where the
/// shares use up the rows; without weights it gets nothing.
pub proof fn law_counts_are_rounded_shares(
    floors: Seq<usize>,
    fracs: Seq<crate::models::Num>,
    sum: crate::models::Num,
    total: int,
    i: int,
)
    requires
        !sum.nan(),
        0 <= i < floors.len(),
    ensures
        sum.key > 0 ==> floors[i] <= crate::segment::count_of(floors, fracs, sum, total, i)
            <= floors[i] + 1,
        sum.key > 0 && crate::segment::total_of(floors) >= total ==> crate::segment::count_of(
            floors,
            fracs,
            sum,
            total,
            i,
        ) == floors[i],
        sum.key <= 0 ==> crate::segment::count_of(floors, fracs, sum, total, i) == 0,
{
}

/// The rows of a parent without members are one segment without constraints.
pub proof fn law_the_remainder_holds_all_rows(rows: int)
    ensures
        crate::segment::remainder_segment(rows).rows == rows,
        crate::segment::remainder_segment(rows).members.len() == 0,
        crate::segment::remainder_segment(rows).field_constraints == Map::<
            Seq<char>,
            FieldConstraintsModel,
        >::empty(),
        crate::segment::remainder_segment(rows).ring is None,
{
}

/// Constraints of two members are joined field by field: what only one constrains stays, and what
/// both constrain is left to the values that both allow.
pub proof fn law_joined_constraints_hold_for_both(
    a: Map<Seq<char>, FieldConstraintsModel>,
    b: Map<Seq<char>, FieldConstraintsModel>,
    k: Seq<char>,
    v: crate::models::YamlModel,
)
    requires
        crate::segment::agree(a, b),
        a.dom().contains(k) ==> a[k].coherent(),
        b.dom().contains(k) ==> b[k].coherent(),
    ensures
        ({
            let j = crate::segment::joined(a, b);
            &&& j.dom().contains(k) <==> a.dom().contains(k) || b.dom().contains(k)
            &&& a.dom().contains(k) && !b.dom().contains(k) ==> j[k] == a[k]
            &&& b.dom().contains(k) && !a.dom().contains(k) ==> j[k] == b[k]
            &&& a.dom().contains(k) && b.dom().contains(k) ==> (j[k].allows(v) <==> a[k].allows(v)
                && b[k].allows(v))
        }),
{
    if a.dom().contains(k) && b.dom().contains(k) {
        crate::constraints::law_merge_allows_what_both_allow(a[k], b[k], v);
    }
}

} // verus!
