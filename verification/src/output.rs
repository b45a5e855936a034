//! Write-time layout of a batch: column order, portable types and flattening.
use vstd::prelude::*;

use crate::columns::{column_at, find_column};
use crate::message::{join3, join5, problem, said, PartModel, Problem};
use crate::models::{
    discriminant_tag_column, fields_model, Field, FieldModel, FlattenStrategy, Format,
    ParquetDatatype,
};
use crate::paths::{extension_part, file_extension};
use crate::schema::{columns_model, ColumnField, ColumnModel, ColumnType, ColumnTypeModel};
use crate::text::{same_text, texts};

verus! {

// ---------------------------------------------------------------------------
// Column order
// ---------------------------------------------------------------------------

/// True when a hidden field has the given name.
pub open spec fn hidden_name(fields: Seq<FieldModel>, name: Seq<char>) -> bool {
    exists|i: int| 0 <= i < fields.len() && (#[trigger] fields[i]).hidden && fields[i].name == name
}

/// The columns of the visible fields among the first `n`, in field order, each once.
pub open spec fn leading_columns(fields: Seq<FieldModel>, names: Seq<Seq<char>>, n: int) -> Seq<
    usize,
>
    decreases n,
{
    if n <= 0 {
        Seq::empty()
    } else {
        let before = leading_columns(fields, names, n - 1);
        match column_at(names, fields[n - 1].name, 0) {
            Some(i) => if fields[n - 1].hidden || before.contains(i as usize) {
                before
            } else {
                before.push(i as usize)
            },
            None => before,
        }
    }
}

/// The columns among the first `n` that do not lead and whose name is not hidden.
pub open spec fn trailing_columns(
    fields: Seq<FieldModel>,
    names: Seq<Seq<char>>,
    lead: Seq<usize>,
    n: int,
) -> Seq<usize>
    decreases n,
{
    if n <= 0 {
        Seq::empty()
    } else {
        let before = trailing_columns(fields, names, lead, n - 1);
        if lead.contains((n - 1) as usize) || hidden_name(fields, names[n - 1]) {
            before
        } else {
            before.push((n - 1) as usize)
        }
    }
}

/// The columns to write: those of visible fields in field order, then the undeclared ones.
pub open spec fn visible_columns(fields: Seq<FieldModel>, names: Seq<Seq<char>>) -> Seq<usize> {
    let lead = leading_columns(fields, names, fields.len() as int);
    lead + trailing_columns(fields, names, lead, names.len() as int)
}

fn has_hidden_name(fields: &Vec<Field>, name: &str) -> (r: bool)
    ensures
        r == hidden_name(fields_model(fields@), name@),
{
    let ghost fm = fields_model(fields@);
    let mut i: usize = 0;
    while i < fields.len()
        invariant
            i <= fields.len(),
            fm == fields_model(fields@),
            forall|j: int| 0 <= j < i ==> !((#[trigger] fm[j]).hidden && fm[j].name == name@),
        decreases fields.len() - i,
    {
        assert(fm[i as int] == fields[i as int].model());
        if fields[i].hidden && same_text(&fields[i].name, name) {
            return true;
        }
        i += 1;
    }
    false
}

/// The positions of the columns to write, in writing order.
pub fn filter_hidden_columns(names: &Vec<String>, fields: &Vec<Field>) -> (r: Vec<usize>)
    ensures
        r@ == visible_columns(fields_model(fields@), texts(names@)),
{
    let ghost fm = fields_model(fields@);
    let ghost nm = texts(names@);
    let mut order: Vec<usize> = Vec::new();
    let mut taken: Vec<bool> = Vec::new();
    let mut c: usize = 0;
    while c < names.len()
        invariant
            c <= names.len(),
            taken.len() == c,
            forall|j: int| 0 <= j < c ==> !(#[trigger] taken[j]),
        decreases names.len() - c,
    {
        taken.push(false);
        c += 1;
    }
    let mut i: usize = 0;
    while i < fields.len()
        invariant
            i <= fields.len(),
            fm == fields_model(fields@),
            nm == texts(names@),
            taken.len() == names.len(),
            order@ == leading_columns(fm, nm, i as int),
            forall|j: int| 0 <= j < taken.len() ==> #[trigger] taken[j] == order@.contains(j as usize),
        decreases fields.len() - i,
    {
        assert(fm[i as int] == fields[i as int].model());
        let ghost before = order@;
        if let Some(k) = find_column(names, &fields[i].name) {
            if !fields[i].hidden && !taken[k] {
                order.push(k);
                taken.set(k, true);
                assert forall|j: int| 0 <= j < taken.len() implies #[trigger] taken[j]
                    == order@.contains(j as usize) by {
                    assert(order@[before.len() as int] == k);
                    if before.contains(j as usize) {
                        let a = before.index_of(j as usize);
                        assert(order@[a] == j as usize);
                    }
                    if order@.contains(j as usize) && j != k {
                        let a = order@.index_of(j as usize);
                        assert(before[a] == j as usize);
                    }
                }
            }
        }
        i += 1;
    }
    let ghost lead = order@;
    let mut k: usize = 0;
    assert(order@ =~= lead + trailing_columns(fm, nm, lead, 0));
    while k < names.len()
        invariant
            k <= names.len(),
            fm == fields_model(fields@),
            nm == texts(names@),
            taken.len() == names.len(),
            forall|j: int| 0 <= j < taken.len() ==> #[trigger] taken[j] == lead.contains(j as usize),
            order@ == lead + trailing_columns(fm, nm, lead, k as int),
        decreases names.len() - k,
    {
        assert(nm[k as int] == names[k as int]@);
        if !taken[k] && !has_hidden_name(fields, &names[k]) {
            order.push(k);
        }
        k += 1;
        assert(order@ =~= lead + trailing_columns(fm, nm, lead, k as int));
    }
    order
}

proof fn lemma_leading_in_range(fields: Seq<FieldModel>, names: Seq<Seq<char>>, n: int)
    requires
        0 <= n <= fields.len(),
        names.len() <= usize::MAX,
    ensures
        leading_columns(fields, names, n).no_duplicates(),
        forall|i: int|
            0 <= i < leading_columns(fields, names, n).len() ==> #[trigger] leading_columns(
                fields,
                names,
                n,
            )[i] < names.len(),
    decreases n,
{
    if n > 0 {
        lemma_leading_in_range(fields, names, n - 1);
        lemma_column_at_in_range(names, fields[n - 1].name, 0);
    }
}

proof fn lemma_column_at_in_range(names: Seq<Seq<char>>, name: Seq<char>, i: int)
    requires
        0 <= i,
    ensures
        column_at(names, name, i) is Some ==> i <= column_at(names, name, i)->0 < names.len(),
    decreases names.len() - i,
{
    if i < names.len() {
        lemma_column_at_in_range(names, name, i + 1);
    }
}

proof fn lemma_trailing(
    fields: Seq<FieldModel>,
    names: Seq<Seq<char>>,
    lead: Seq<usize>,
    n: int,
    k: usize,
)
    requires
        0 <= n <= names.len() <= usize::MAX,
    ensures
        trailing_columns(fields, names, lead, n).no_duplicates(),
        trailing_columns(fields, names, lead, n).contains(k) == (k < n && !lead.contains(k)
            && !hidden_name(fields, names[k as int])),
        forall|i: int|
            0 <= i < trailing_columns(fields, names, lead, n).len() ==> #[trigger] trailing_columns(
                fields,
                names,
                lead,
                n,
            )[i] < n,
    decreases n,
{
    if n > 0 {
        lemma_trailing(fields, names, lead, n - 1, k);
        let before = trailing_columns(fields, names, lead, n - 1);
        let after = trailing_columns(fields, names, lead, n);
        if after != before {
            assert(after[before.len() as int] == (n - 1) as usize);
            if before.contains(k) {
                let a = before.index_of(k);
                assert(after[a] == k);
            }
            if after.contains(k) && k != n - 1 {
                let a = after.index_of(k);
                assert(before[a] == k);
            }
        }
    }
}

/// Every column is written at most once, and a column is left out exactly when a hidden field has
/// its name and no visible field claims it.
pub proof fn law_visible_columns_are_written_once(
    fields: Seq<FieldModel>,
    names: Seq<Seq<char>>,
    k: usize,
)
    requires
        names.len() <= usize::MAX,
        k < names.len(),
    ensures
        visible_columns(fields, names).no_duplicates(),
        visible_columns(fields, names).contains(k) == (leading_columns(
            fields,
            names,
            fields.len() as int,
        ).contains(k) || !hidden_name(fields, names[k as int])),
{
    let lead = leading_columns(fields, names, fields.len() as int);
    let rest = trailing_columns(fields, names, lead, names.len() as int);
    lemma_leading_in_range(fields, names, fields.len() as int);
    lemma_trailing(fields, names, lead, names.len() as int, k);
    assert forall|i: int, j: int|
        0 <= i < lead.len() && 0 <= j < rest.len() implies lead[i] != rest[j] by {
        lemma_trailing(fields, names, lead, names.len() as int, rest[j]);
        assert(rest.contains(rest[j]));
        assert(lead.contains(lead[i]));
    }
    let all = visible_columns(fields, names);
    assert forall|i: int, j: int| 0 <= i < all.len() && 0 <= j < all.len() && i != j implies all[i]
        != all[j] by {
        let l = lead.len() as int;
        if i < l && j >= l {
            assert(lead[i] != rest[j - l]);
        }
        if j < l && i >= l {
            assert(lead[j] != rest[i - l]);
        }
    }
    if lead.contains(k) {
        let a = lead.index_of(k);
        assert(all[a] == k);
    }
    if rest.contains(k) {
        let a = rest.index_of(k);
        assert(all[lead.len() + a] == k);
    }
    if all.contains(k) {
        let a = all.index_of(k);
        if a < lead.len() {
            assert(lead[a] == k);
        } else {
            assert(rest[a - lead.len()] == k);
        }
    }
}

// ---------------------------------------------------------------------------
// Portable types
// ---------------------------------------------------------------------------

/// True when a type is or nests a union.
pub open spec fn holds_union(t: ColumnTypeModel) -> bool
    decreases t,
{
    match t {
        ColumnTypeModel::Plain(_) => false,
        ColumnTypeModel::Struct(s) => any_union(s),
        ColumnTypeModel::List(b) => holds_union(*b),
        ColumnTypeModel::Union(_) => true,
    }
}

/// True when some column is or nests a union.
pub open spec fn any_union(s: Seq<ColumnModel>) -> bool
    decreases s,
{
    exists|i: int| 0 <= i < s.len() && holds_union((#[trigger] s[i]).kind)
}

/// The type with a record in place of each union that no list surrounds: one entry per case.
pub open spec fn portable(t: ColumnTypeModel) -> ColumnTypeModel
    decreases t,
{
    match t {
        ColumnTypeModel::Struct(s) => ColumnTypeModel::Struct(portable_all(s)),
        ColumnTypeModel::Union(s) => ColumnTypeModel::Struct(portable_all(s)),
        _ => t,
    }
}

/// Columns of portable types.
pub open spec fn portable_all(s: Seq<ColumnModel>) -> Seq<ColumnModel>
    decreases s,
{
    Seq::new(
        s.len(),
        |i: int|
            if 0 <= i < s.len() {
                ColumnModel { name: s[i].name, kind: portable(s[i].kind) }
            } else {
                arbitrary()
            },
    )
}

/// True if a type is, or nests, a union.
pub fn contains_union(t: &ColumnType) -> (r: bool)
    ensures
        r == holds_union(t.model()),
    decreases t,
{
    match t {
        ColumnType::Plain(_) => false,
        ColumnType::Struct(v) => {
            assert(t.model() == ColumnTypeModel::Struct(columns_model(v@)));
            any_contains_union(v)
        },
        ColumnType::List(b) => {
            assert(t.model() == ColumnTypeModel::List(Box::new(b.model())));
            contains_union(b)
        },
        ColumnType::Union(v) => {
            assert(t.model() == ColumnTypeModel::Union(columns_model(v@)));
            true
        },
    }
}

fn any_contains_union(v: &Vec<ColumnField>) -> (r: bool)
    ensures
        r == any_union(columns_model(v@)),
    decreases v,
{
    let ghost cm = columns_model(v@);
    let mut i: usize = 0;
    while i < v.len()
        invariant
            i <= v.len(),
            cm == columns_model(v@),
            forall|j: int| 0 <= j < i ==> !holds_union((#[trigger] cm[j]).kind),
        decreases v.len() - i,
    {
        assert(cm[i as int] == v[i as int].model());
        assert(cm[i as int].kind == v[i as int].kind.model());
        if contains_union(&v[i].kind) {
            return true;
        }
        i += 1;
    }
    false
}

/// A copy of a type.
pub fn clone_type(t: &ColumnType) -> (r: ColumnType)
    ensures
        r.model() == t.model(),
    decreases t,
{
    match t {
        ColumnType::Plain(p) => ColumnType::Plain(*p),
        ColumnType::Struct(v) => {
            let w = clone_columns(v);
            let r = ColumnType::Struct(w);
            assert(r.model() == ColumnTypeModel::Struct(columns_model(w@)));
            assert(t.model() == ColumnTypeModel::Struct(columns_model(v@)));
            r
        },
        ColumnType::List(b) => {
            let w = clone_type(b);
            let r = ColumnType::List(Box::new(w));
            assert(r.model() == ColumnTypeModel::List(Box::new(w.model())));
            assert(t.model() == ColumnTypeModel::List(Box::new(b.model())));
            r
        },
        ColumnType::Union(v) => {
            let w = clone_columns(v);
            let r = ColumnType::Union(w);
            assert(r.model() == ColumnTypeModel::Union(columns_model(w@)));
            assert(t.model() == ColumnTypeModel::Union(columns_model(v@)));
            r
        },
    }
}

fn clone_columns(v: &Vec<ColumnField>) -> (r: Vec<ColumnField>)
    ensures
        columns_model(r@) == columns_model(v@),
    decreases v,
{
    let ghost cm = columns_model(v@);
    let mut r: Vec<ColumnField> = Vec::new();
    let mut i: usize = 0;
    while i < v.len()
        invariant
            i <= v.len(),
            cm == columns_model(v@),
            r.len() == i,
            forall|j: int| 0 <= j < i ==> (#[trigger] r[j]).model() == cm[j],
        decreases v.len() - i,
    {
        assert(cm[i as int] == v[i as int].model());
        let kind = clone_type(&v[i].kind);
        let c = ColumnField { name: v[i].name.clone(), kind };
        assert(c.model() == cm[i as int]);
        r.push(c);
        i += 1;
    }
    assert(columns_model(r@) =~= cm);
    r
}

/// The portable form of a type.
pub fn union_to_portable(t: &ColumnType) -> (r: ColumnType)
    ensures
        r.model() == portable(t.model()),
    decreases t,
{
    match t {
        ColumnType::Struct(v) => {
            assert(t.model() == ColumnTypeModel::Struct(columns_model(v@)));
            let w = portable_columns(v);
            let r = ColumnType::Struct(w);
            assert(r.model() == ColumnTypeModel::Struct(columns_model(w@)));
            r
        },
        ColumnType::Union(v) => {
            assert(t.model() == ColumnTypeModel::Union(columns_model(v@)));
            let w = portable_columns(v);
            let r = ColumnType::Struct(w);
            assert(r.model() == ColumnTypeModel::Struct(columns_model(w@)));
            r
        },
        _ => clone_type(t),
    }
}

fn portable_columns(v: &Vec<ColumnField>) -> (r: Vec<ColumnField>)
    ensures
        columns_model(r@) == portable_all(columns_model(v@)),
    decreases v,
{
    let ghost cm = columns_model(v@);
    let mut r: Vec<ColumnField> = Vec::new();
    let mut i: usize = 0;
    while i < v.len()
        invariant
            i <= v.len(),
            cm == columns_model(v@),
            r.len() == i,
            forall|j: int|
                0 <= j < i ==> (#[trigger] r[j]).model() == (ColumnModel {
                    name: cm[j].name,
                    kind: portable(cm[j].kind),
                }),
        decreases v.len() - i,
    {
        assert(cm[i as int] == v[i as int].model());
        assert(cm[i as int].kind == v[i as int].kind.model());
        let kind = union_to_portable(&v[i].kind);
        r.push(ColumnField { name: v[i].name.clone(), kind });
        i += 1;
    }
    assert(columns_model(r@) =~= portable_all(cm));
    r
}

/// True when a type is a union or nests one that no list surrounds.
pub open spec fn open_union(t: ColumnTypeModel) -> bool
    decreases t,
{
    match t {
        ColumnTypeModel::Struct(s) => any_open_union(s),
        ColumnTypeModel::Union(_) => true,
        _ => false,
    }
}

/// True when some column is a union or nests one that no list surrounds.
pub open spec fn any_open_union(s: Seq<ColumnModel>) -> bool
    decreases s,
{
    exists|i: int| 0 <= i < s.len() && open_union((#[trigger] s[i]).kind)
}

/// A portable type nests a union at most inside a list.
pub proof fn law_portable_types_are_plain(t: ColumnTypeModel)
    ensures
        !open_union(portable(t)),
    decreases t,
{
    match t {
        ColumnTypeModel::Struct(s) => {
            lemma_portable_all_plain(s);
        },
        ColumnTypeModel::Union(s) => {
            lemma_portable_all_plain(s);
        },
        _ => {},
    }
}

proof fn lemma_portable_all_plain(s: Seq<ColumnModel>)
    ensures
        !any_open_union(portable_all(s)),
    decreases s,
{
    let p = portable_all(s);
    assert forall|i: int| 0 <= i < p.len() implies !open_union((#[trigger] p[i]).kind) by {
        law_portable_types_are_plain(s[i].kind);
        assert(p[i].kind == portable(s[i].kind));
    }
}

/// A type without unions is portable as it stands.
pub proof fn law_types_without_unions_stay(t: ColumnTypeModel)
    requires
        !holds_union(t),
    ensures
        portable(t) == t,
    decreases t,
{
    match t {
        ColumnTypeModel::Struct(s) => {
            lemma_columns_without_unions_stay(s);
        },
        _ => {},
    }
}

proof fn lemma_columns_without_unions_stay(s: Seq<ColumnModel>)
    requires
        !any_union(s),
    ensures
        portable_all(s) == s,
    decreases s,
{
    let p = portable_all(s);
    assert forall|i: int| 0 <= i < s.len() implies #[trigger] p[i] == s[i] by {
        assert(!holds_union(s[i].kind));
        law_types_without_unions_stay(s[i].kind);
    }
    assert(p =~= s);
}

// ---------------------------------------------------------------------------
// Rows of a union
// ---------------------------------------------------------------------------

/// For each row, its position in the child of the case `id`, if the row is of that case.
pub open spec fn case_row(id: i8, row_id: i8, offset: i32) -> Option<u32> {
    if row_id == id {
        Some(offset as u32)
    } else {
        None
    }
}

/// For each row, its position in the child of the case `id`; none for rows of other cases.
pub fn case_rows(type_ids: &Vec<i8>, offsets: &Vec<i32>, id: i8) -> (r: Vec<Option<u32>>)
    requires
        type_ids.len() == offsets.len(),
        forall|i: int| 0 <= i < offsets.len() ==> #[trigger] offsets[i] >= 0,
    ensures
        r@ == Seq::new(type_ids@.len(), |i: int| case_row(id, type_ids@[i], offsets@[i])),
{
    let mut r: Vec<Option<u32>> = Vec::new();
    let mut i: usize = 0;
    while i < type_ids.len()
        invariant
            i <= type_ids.len(),
            type_ids.len() == offsets.len(),
            forall|j: int| 0 <= j < offsets.len() ==> #[trigger] offsets[j] >= 0,
            r.len() == i,
            forall|j: int|
                0 <= j < i ==> #[trigger] r[j] == case_row(id, type_ids@[j], offsets@[j]),
        decreases type_ids.len() - i,
    {
        assert(offsets[i as int] >= 0);
        r.push(
            if type_ids[i] == id {
                Some(offsets[i] as u32)
            } else {
                None
            },
        );
        i += 1;
    }
    assert(r@ =~= Seq::new(type_ids@.len(), |i: int| case_row(id, type_ids@[i], offsets@[i])));
    r
}

/// The last of the first `n` cases that has the given id.
pub open spec fn case_of(ids: Seq<i8>, id: i8, n: int) -> Option<int>
    decreases n,
{
    if n <= 0 {
        None
    } else if ids[n - 1] == id {
        Some(n - 1)
    } else {
        case_of(ids, id, n - 1)
    }
}

fn find_case(ids: &Vec<i8>, id: i8) -> (r: Option<usize>)
    ensures
        match r {
            Some(i) => i < ids.len() && case_of(ids@, id, ids@.len() as int) == Some(i as int),
            None => case_of(ids@, id, ids@.len() as int) is None,
        },
{
    let mut n: usize = ids.len();
    while n > 0
        invariant
            n <= ids.len(),
            case_of(ids@, id, ids@.len() as int) == case_of(ids@, id, n as int),
        decreases n,
    {
        if ids[n - 1] == id {
            return Some(n - 1);
        }
        n -= 1;
    }
    None
}

/// For each row, the position of its case among the cases whose ids are given.
pub fn active_cases(type_ids: &Vec<i8>, ids: &Vec<i8>) -> (r: Vec<Option<usize>>)
    ensures
        r.len() == type_ids.len(),
        forall|i: int|
            0 <= i < r.len() ==> match #[trigger] r[i] {
                Some(k) => k < ids.len() && case_of(ids@, type_ids@[i], ids@.len() as int) == Some(
                    k as int,
                ),
                None => case_of(ids@, type_ids@[i], ids@.len() as int) is None,
            },
{
    let mut r: Vec<Option<usize>> = Vec::new();
    let mut i: usize = 0;
    while i < type_ids.len()
        invariant
            i <= type_ids.len(),
            r.len() == i,
            forall|j: int|
                0 <= j < i ==> match #[trigger] r[j] {
                    Some(k) => k < ids.len() && case_of(ids@, type_ids@[j], ids@.len() as int)
                        == Some(k as int),
                    None => case_of(ids@, type_ids@[j], ids@.len() as int) is None,
                },
        decreases type_ids.len() - i,
    {
        r.push(find_case(ids, type_ids[i]));
        i += 1;
    }
    r
}

// ---------------------------------------------------------------------------
// Flattening
// ---------------------------------------------------------------------------

/// Where an output column comes from.
#[derive(Debug, Clone, Copy, PartialEq, Eq, Structural)]
pub enum OutSource {
    /// A column as a whole, in portable form.
    Whole(usize),
    /// An entry of a record column.
    Entry { column: usize, entry: usize },
    /// An entry of a record case of a union column, null on rows of other cases.
    CaseEntry { column: usize, case: usize, entry: usize },
    /// A case of a union column, null on rows of other cases.
    Case { column: usize, case: usize },
    /// The label of the active case of a union column.
    Tag(usize),
}

/// A column to write.
#[derive(Debug)]
pub struct OutColumn {
    pub name: String,
    pub source: OutSource,
    pub kind: ColumnType,
}

/// What an [`OutColumn`] says, free of representation.
pub struct OutModel {
    pub name: Seq<char>,
    pub source: OutSource,
    pub kind: ColumnTypeModel,
}

impl OutColumn {
    /// The content of this value, free of representation.
    pub open spec fn model(self) -> OutModel {
        OutModel { name: self.name@, source: self.source, kind: self.kind.model() }
    }
}

/// The models of a list of output columns.
pub open spec fn outs_model(s: Seq<OutColumn>) -> Seq<OutModel> {
    Seq::new(s.len(), |i: int| s[i].model())
}

/// How the column of the given name is flattened, if it is: by the last of the first `n` fields
/// that asks for it. A format with keys per row always lays the cases side by side.
pub open spec fn strategy_of(
    fields: Seq<FieldModel>,
    name: Seq<char>,
    keyed: bool,
    n: int,
) -> Option<FlattenStrategy>
    decreases n,
{
    if n <= 0 {
        None
    } else if fields[n - 1].flatten && fields[n - 1].name == name {
        Some(
            if keyed {
                FlattenStrategy::Superset
            } else {
                match fields[n - 1].flatten_strategy {
                    Some(s) => s,
                    None => FlattenStrategy::Superset,
                }
            },
        )
    } else {
        strategy_of(fields, name, keyed, n - 1)
    }
}

/// The first `n` entries of a record column, pulled up.
pub open spec fn entry_outputs(column: int, entries: Seq<ColumnModel>, n: int) -> Seq<OutModel>
    decreases n,
{
    if n <= 0 {
        Seq::empty()
    } else {
        entry_outputs(column, entries, n - 1).push(
            OutModel {
                name: entries[n - 1].name,
                source: OutSource::Entry { column: column as usize, entry: (n - 1) as usize },
                kind: portable(entries[n - 1].kind),
            },
        )
    }
}

/// The first `n` entries of a record case, pulled up.
pub open spec fn case_entry_outputs(
    column: int,
    case: int,
    label: Seq<char>,
    entries: Seq<ColumnModel>,
    strategy: FlattenStrategy,
    n: int,
) -> Seq<OutModel>
    decreases n,
{
    if n <= 0 {
        Seq::empty()
    } else {
        case_entry_outputs(column, case, label, entries, strategy, n - 1).push(
            OutModel {
                name: if strategy is Prefixed {
                    label + "_"@ + entries[n - 1].name
                } else {
                    entries[n - 1].name
                },
                source: OutSource::CaseEntry {
                    column: column as usize,
                    case: case as usize,
                    entry: (n - 1) as usize,
                },
                kind: portable(entries[n - 1].kind),
            },
        )
    }
}

/// The first `n` cases of a union column, pulled up: the entries of a record case, any other case
/// as one column.
pub open spec fn case_outputs(
    column: int,
    cases: Seq<ColumnModel>,
    strategy: FlattenStrategy,
    n: int,
) -> Seq<OutModel>
    decreases n,
{
    if n <= 0 {
        Seq::empty()
    } else {
        let before = case_outputs(column, cases, strategy, n - 1);
        match cases[n - 1].kind {
            ColumnTypeModel::Struct(s) => before + case_entry_outputs(
                column,
                n - 1,
                cases[n - 1].name,
                s,
                strategy,
                s.len() as int,
            ),
            _ => before.push(
                OutModel {
                    name: cases[n - 1].name,
                    source: OutSource::Case { column: column as usize, case: (n - 1) as usize },
                    kind: cases[n - 1].kind,
                },
            ),
        }
    }
}

/// A column, pulled up one level; `None` for a column without a level below it.
pub open spec fn flattened(column: int, c: ColumnModel, strategy: FlattenStrategy) -> Option<
    Seq<OutModel>,
> {
    match c.kind {
        ColumnTypeModel::Union(cases) => {
            let all = case_outputs(column, cases, strategy, cases.len() as int);
            Some(
                if strategy is Discriminant {
                    all.push(
                        OutModel {
                            name: c.name + "_case"@,
                            source: OutSource::Tag(column as usize),
                            kind: ColumnTypeModel::Plain(ParquetDatatype::Utf8),
                        },
                    )
                } else {
                    all
                },
            )
        },
        ColumnTypeModel::Struct(entries) => Some(
            entry_outputs(column, entries, entries.len() as int),
        ),
        _ => None,
    }
}

/// The columns to write for the first `n` columns of a batch, or the problem of the first one that
/// cannot be flattened. `shown` is how the column types are written out.
pub open spec fn outputs(
    columns: Seq<ColumnModel>,
    shown: Seq<Seq<char>>,
    fields: Seq<FieldModel>,
    keyed: bool,
    n: int,
) -> Result<Seq<OutModel>, Seq<PartModel>>
    decreases n,
{
    if n <= 0 {
        Ok(Seq::empty())
    } else {
        match outputs(columns, shown, fields, keyed, n - 1) {
            Err(p) => Err(p),
            Ok(before) => {
                let c = columns[n - 1];
                match strategy_of(fields, c.name, keyed, fields.len() as int) {
                    None => Ok(
                        before.push(
                            OutModel {
                                name: c.name,
                                source: OutSource::Whole((n - 1) as usize),
                                kind: portable(c.kind),
                            },
                        ),
                    ),
                    Some(s) => match flattened(n - 1, c, s) {
                        Some(more) => Ok(before + more),
                        None => Err(
                            said(
                                "field '"@ + c.name + "': cannot flatten a "@ + shown[n - 1]
                                    + " column (expected object or variant)"@,
                            ),
                        ),
                    },
                }
            },
        }
    }
}

fn find_strategy(fields: &Vec<Field>, name: &str, keyed: bool) -> (r: Option<FlattenStrategy>)
    ensures
        r == strategy_of(fields_model(fields@), name@, keyed, fields@.len() as int),
{
    let ghost fm = fields_model(fields@);
    let mut n: usize = fields.len();
    while n > 0
        invariant
            n <= fields.len(),
            fm == fields_model(fields@),
            strategy_of(fm, name@, keyed, fields@.len() as int) == strategy_of(
                fm,
                name@,
                keyed,
                n as int,
            ),
        decreases n,
    {
        assert(fm[n - 1] == fields[n - 1].model());
        let f = &fields[n - 1];
        if f.flatten && same_text(&f.name, name) {
            if keyed {
                return Some(FlattenStrategy::Superset);
            }
            return Some(
                match f.flatten_strategy {
                    Some(s) => s,
                    None => FlattenStrategy::Superset,
                },
            );
        }
        n -= 1;
    }
    None
}

fn pull_entries(column: usize, entries: &Vec<ColumnField>, out: &mut Vec<OutColumn>)
    ensures
        outs_model(final(out)@) == outs_model(old(out)@) + entry_outputs(
            column as int,
            columns_model(entries@),
            entries@.len() as int,
        ),
{
    let ghost cm = columns_model(entries@);
    let ghost start = outs_model(out@);
    let mut i: usize = 0;
    assert(outs_model(out@) =~= start + entry_outputs(column as int, cm, 0));
    while i < entries.len()
        invariant
            i <= entries.len(),
            cm == columns_model(entries@),
            outs_model(out@) == start + entry_outputs(column as int, cm, i as int),
        decreases entries.len() - i,
    {
        assert(cm[i as int] == entries[i as int].model());
        let kind = union_to_portable(&entries[i].kind);
        let o = OutColumn {
            name: entries[i].name.clone(),
            source: OutSource::Entry { column, entry: i },
            kind,
        };
        let ghost before = out@;
        out.push(o);
        assert(outs_model(out@) =~= outs_model(before).push(o.model()));
        i += 1;
        assert(outs_model(out@) =~= start + entry_outputs(column as int, cm, i as int));
    }
}

fn pull_case_entries(
    column: usize,
    case: usize,
    label: &str,
    entries: &Vec<ColumnField>,
    strategy: FlattenStrategy,
    out: &mut Vec<OutColumn>,
)
    ensures
        outs_model(final(out)@) == outs_model(old(out)@) + case_entry_outputs(
            column as int,
            case as int,
            label@,
            columns_model(entries@),
            strategy,
            entries@.len() as int,
        ),
{
    let ghost cm = columns_model(entries@);
    let ghost start = outs_model(out@);
    let mut i: usize = 0;
    assert(outs_model(out@) =~= start + case_entry_outputs(
        column as int,
        case as int,
        label@,
        cm,
        strategy,
        0,
    ));
    while i < entries.len()
        invariant
            i <= entries.len(),
            cm == columns_model(entries@),
            outs_model(out@) == start + case_entry_outputs(
                column as int,
                case as int,
                label@,
                cm,
                strategy,
                i as int,
            ),
        decreases entries.len() - i,
    {
        assert(cm[i as int] == entries[i as int].model());
        let kind = union_to_portable(&entries[i].kind);
        let name: String = if matches!(strategy, FlattenStrategy::Prefixed) {
            join3(label, "_", &entries[i].name)
        } else {
            entries[i].name.clone()
        };
        let o = OutColumn { name, source: OutSource::CaseEntry { column, case, entry: i }, kind };
        let ghost before = out@;
        out.push(o);
        assert(outs_model(out@) =~= outs_model(before).push(o.model()));
        i += 1;
        assert(outs_model(out@) =~= start + case_entry_outputs(
            column as int,
            case as int,
            label@,
            cm,
            strategy,
            i as int,
        ));
    }
}

fn pull_cases(
    column: usize,
    cases: &Vec<ColumnField>,
    strategy: FlattenStrategy,
    out: &mut Vec<OutColumn>,
)
    ensures
        outs_model(final(out)@) == outs_model(old(out)@) + case_outputs(
            column as int,
            columns_model(cases@),
            strategy,
            cases@.len() as int,
        ),
{
    let ghost cm = columns_model(cases@);
    let ghost start = outs_model(out@);
    let mut i: usize = 0;
    assert(outs_model(out@) =~= start + case_outputs(column as int, cm, strategy, 0));
    while i < cases.len()
        invariant
            i <= cases.len(),
            cm == columns_model(cases@),
            outs_model(out@) == start + case_outputs(column as int, cm, strategy, i as int),
        decreases cases.len() - i,
    {
        let c = &cases[i];
        assert(cm[i as int] == c.model());
        assert(c.model().kind == c.kind.model());
        let ghost before = out@;
        match &c.kind {
            ColumnType::Struct(v) => {
                assert(c.kind.model() == ColumnTypeModel::Struct(columns_model(v@)));
                pull_case_entries(column, i, &c.name, v, strategy, out);
                assert(outs_model(out@) =~= start + case_outputs(
                    column as int,
                    cm,
                    strategy,
                    i + 1,
                ));
            },
            _ => {
                let kind = clone_type(&c.kind);
                let o = OutColumn {
                    name: c.name.clone(),
                    source: OutSource::Case { column, case: i },
                    kind,
                };
                out.push(o);
                assert(outs_model(out@) =~= outs_model(before).push(o.model()));
                assert(outs_model(out@) =~= start + case_outputs(
                    column as int,
                    cm,
                    strategy,
                    i + 1,
                ));
            },
        }
        i += 1;
    }
}

/// Pulls a column up one level; false, with nothing added, for a column without a level below it.
pub fn flatten_column(
    column: usize,
    c: &ColumnField,
    strategy: FlattenStrategy,
    out: &mut Vec<OutColumn>,
) -> (r: bool)
    ensures
        match flattened(column as int, c.model(), strategy) {
            Some(more) => r && outs_model(final(out)@) == outs_model(old(out)@) + more,
            None => !r && outs_model(final(out)@) == outs_model(old(out)@),
        },
{
    let ghost start = outs_model(out@);
    assert(c.model().kind == c.kind.model());
    match &c.kind {
        ColumnType::Union(v) => {
            assert(c.kind.model() == ColumnTypeModel::Union(columns_model(v@)));
            pull_cases(column, v, strategy, out);
            if matches!(strategy, FlattenStrategy::Discriminant) {
                let o = OutColumn {
                    name: discriminant_tag_column(&c.name),
                    source: OutSource::Tag(column),
                    kind: ColumnType::Plain(ParquetDatatype::Utf8),
                };
                let ghost before = out@;
                out.push(o);
                assert(outs_model(out@) =~= outs_model(before).push(o.model()));
            }
            assert(outs_model(out@) =~= start + flattened(column as int, c.model(), strategy)->0);
            true
        },
        ColumnType::Struct(v) => {
            assert(c.kind.model() == ColumnTypeModel::Struct(columns_model(v@)));
            pull_entries(column, v, out);
            true
        },
        _ => false,
    }
}

/// The columns to write for a batch. `shown` is how the column types are written out.
pub fn prepare_output_batch(
    columns: &Vec<ColumnField>,
    shown: &Vec<String>,
    fields: &Vec<Field>,
    format: Format,
) -> (r: Result<Vec<OutColumn>, Problem>)
    requires
        shown.len() == columns.len(),
    ensures
        match r {
            Ok(v) => outputs(
                columns_model(columns@),
                texts(shown@),
                fields_model(fields@),
                format is Json || format is Jsonl,
                columns@.len() as int,
            ) == Ok::<Seq<OutModel>, Seq<PartModel>>(outs_model(v@)),
            Err(p) => outputs(
                columns_model(columns@),
                texts(shown@),
                fields_model(fields@),
                format is Json || format is Jsonl,
                columns@.len() as int,
            ) == Err::<Seq<OutModel>, Seq<PartModel>>(p.model()),
        },
{
    let keyed: bool = matches!(format, Format::Json) || matches!(format, Format::Jsonl);
    let ghost cm = columns_model(columns@);
    let ghost sm = texts(shown@);
    let ghost fm = fields_model(fields@);
    let mut out: Vec<OutColumn> = Vec::new();
    let mut i: usize = 0;
    assert(outs_model(out@) =~= Seq::empty());
    while i < columns.len()
        invariant
            i <= columns.len(),
            shown.len() == columns.len(),
            cm == columns_model(columns@),
            sm == texts(shown@),
            fm == fields_model(fields@),
            keyed == (format is Json || format is Jsonl),
            outputs(cm, sm, fm, keyed, i as int) == Ok::<Seq<OutModel>, Seq<PartModel>>(
                outs_model(out@),
            ),
        decreases columns.len() - i,
    {
        let c = &columns[i];
        assert(cm[i as int] == c.model());
        assert(sm[i as int] == shown[i as int]@);
        assert(c.model().kind == c.kind.model());
        match find_strategy(fields, &c.name, keyed) {
            None => {
                let kind = union_to_portable(&c.kind);
                let o = OutColumn { name: c.name.clone(), source: OutSource::Whole(i), kind };
                let ghost before = out@;
                out.push(o);
                assert(outs_model(out@) =~= outs_model(before).push(o.model()));
            },
            Some(s) => {
                if !flatten_column(i, c, s, &mut out) {
                    let p = problem(
                        join5(
                            "field '",
                            &c.name,
                            "': cannot flatten a ",
                            &shown[i],
                            " column (expected object or variant)",
                        ),
                    );
                    proof {
                        lemma_output_error_stays(cm, sm, fm, keyed, i + 1, columns@.len() as int);
                    }
                    return Err(p);
                }
            },
        }
        i += 1;
    }
    Ok(out)
}

proof fn lemma_output_error_stays(
    columns: Seq<ColumnModel>,
    shown: Seq<Seq<char>>,
    fields: Seq<FieldModel>,
    keyed: bool,
    k: int,
    n: int,
)
    requires
        0 <= k <= n,
        outputs(columns, shown, fields, keyed, k) is Err,
    ensures
        outputs(columns, shown, fields, keyed, n) == outputs(columns, shown, fields, keyed, k),
    decreases n - k,
{
    if k < n {
        lemma_output_error_stays(columns, shown, fields, keyed, k, n - 1);
    }
}

proof fn lemma_no_flatten_no_strategy(
    fields: Seq<FieldModel>,
    name: Seq<char>,
    keyed: bool,
    n: int,
)
    requires
        0 <= n <= fields.len(),
        forall|i: int| 0 <= i < fields.len() ==> !(#[trigger] fields[i]).flatten,
    ensures
        strategy_of(fields, name, keyed, n) is None,
    decreases n,
{
    if n > 0 {
        lemma_no_flatten_no_strategy(fields, name, keyed, n - 1);
    }
}

/// Without a field to flatten, every column is written once, under its name, in portable form.
pub proof fn law_unflattened_columns_keep_their_names(
    columns: Seq<ColumnModel>,
    shown: Seq<Seq<char>>,
    fields: Seq<FieldModel>,
    keyed: bool,
    n: int,
)
    requires
        0 <= n <= columns.len() <= usize::MAX,
        forall|i: int| 0 <= i < fields.len() ==> !(#[trigger] fields[i]).flatten,
    ensures
        outputs(columns, shown, fields, keyed, n) is Ok,
        outputs(columns, shown, fields, keyed, n)->Ok_0 == Seq::new(
            n as nat,
            |i: int|
                OutModel {
                    name: columns[i].name,
                    source: OutSource::Whole(i as usize),
                    kind: portable(columns[i].kind),
                },
        ),
    decreases n,
{
    if n > 0 {
        law_unflattened_columns_keep_their_names(columns, shown, fields, keyed, n - 1);
        lemma_no_flatten_no_strategy(
            fields,
            columns[n - 1].name,
            keyed,
            fields.len() as int,
        );
    }
    assert(outputs(columns, shown, fields, keyed, n)->Ok_0 =~= Seq::new(
        n as nat,
        |i: int|
            OutModel {
                name: columns[i].name,
                source: OutSource::Whole(i as usize),
                kind: portable(columns[i].kind),
            },
    ));
}

// ---------------------------------------------------------------------------
// File names
// ---------------------------------------------------------------------------

/// The extension of the files of a format.
pub open spec fn extension_of(format: Format) -> Seq<char> {
    match format {
        Format::Parquet => "parquet"@,
        Format::Csv => "csv"@,
        Format::Json => "json"@,
        Format::Jsonl => "jsonl"@,
    }
}

/// The file that a name stands for: the name itself where it has the extension of the format.
pub open spec fn file_name_of(name: Seq<char>, format: Format) -> Seq<char> {
    if extension_part(name) == Some(extension_of(format)) {
        name
    } else {
        name + "."@ + extension_of(format)
    }
}

/// The file that an output name stands for.
pub fn output_file_name(name: &str, format: Format) -> (r: String)
    ensures
        r@ == file_name_of(name@, format),
{
    let ext: &str = match format {
        Format::Parquet => "parquet",
        Format::Csv => "csv",
        Format::Json => "json",
        Format::Jsonl => "jsonl",
    };
    match file_extension(name) {
        Some(e) => if same_text(e, ext) {
            name.to_owned()
        } else {
            join3(name, ".", ext)
        },
        None => join3(name, ".", ext),
    }
}

} // verus!
