//! Columns of batches: which are kept, added, drawn from elsewhere or computed.
use vstd::prelude::*;

use crate::constraints::{FieldConstraints, FieldConstraintsModel};
use crate::message::{join2, join3, join5, problem, said, PartModel, Problem};
use crate::models::{
    feeds_list, fields_model, is_list_source, ref_parts, split_ref, Field, FieldModel, Num,
    SyntheticDataset, SyntheticDatasetModel, YamlModel, YamlValue,
};
use crate::plan::{inherited_model, InheritedField, InheritedModel};
use crate::text::{decimal, decimal_text, holds_text, same_text, texts};

verus! {

// ---------------------------------------------------------------------------
// Names of columns
// ---------------------------------------------------------------------------

/// The position of the first column with the given name, from `i` on.
pub open spec fn column_at(names: Seq<Seq<char>>, name: Seq<char>, i: int) -> Option<int>
    decreases names.len() - i,
{
    if i < 0 || i >= names.len() {
        None
    } else if names[i] == name {
        Some(i)
    } else {
        column_at(names, name, i + 1)
    }
}

/// The position of the first column with the given name, if there is one.
pub fn find_column(names: &Vec<String>, name: &str) -> (r: Option<usize>)
    ensures
        match r {
            Some(i) => i < names.len() && column_at(texts(names@), name@, 0) == Some(i as int)
                && names[i as int]@ == name@,
            None => column_at(texts(names@), name@, 0) is None && !texts(names@).contains(name@),
        },
{
    let ghost nm = texts(names@);
    let mut i: usize = 0;
    while i < names.len()
        invariant
            i <= names.len(),
            nm == texts(names@),
            column_at(nm, name@, 0) == column_at(nm, name@, i as int),
            forall|j: int| 0 <= j < i ==> #[trigger] nm[j] != name@,
        decreases names.len() - i,
    {
        assert(nm[i as int] == names[i as int]@);
        if same_text(&names[i], name) {
            return Some(i);
        }
        i += 1;
    }
    None
}

/// The positions below `n` but for one.
pub open spec fn all_but(n: int, except: Option<int>) -> Seq<usize>
    decreases n,
{
    if n <= 0 {
        Seq::empty()
    } else if except == Some(n - 1) {
        all_but(n - 1, except)
    } else {
        all_but(n - 1, except).push((n - 1) as usize)
    }
}

/// The positions of the columns that stay when the sentinel is stripped: all but the first column
/// of that name.
pub fn strip_sentinel(names: &Vec<String>, sentinel: &str) -> (r: Vec<usize>)
    ensures
        r@ == all_but(names.len() as int, column_at(texts(names@), sentinel@, 0)),
{
    let at = find_column(names, sentinel);
    let ghost except = column_at(texts(names@), sentinel@, 0);
    let mut r: Vec<usize> = Vec::new();
    let mut i: usize = 0;
    while i < names.len()
        invariant
            i <= names.len(),
            match at {
                Some(p) => except == Some(p as int),
                None => except is None,
            },
            r@ == all_but(i as int, except),
        decreases names.len() - i,
    {
        let skip = match at {
            Some(p) => p == i,
            None => false,
        };
        if !skip {
            r.push(i);
        }
        i += 1;
    }
    r
}

/// Stripping a sentinel that is not there keeps every column; stripping one that is there drops
/// exactly one.
pub proof fn law_stripping_drops_one(n: int, except: Option<int>)
    requires
        0 <= n,
        except matches Some(e) ==> 0 <= e < n,
    ensures
        all_but(n, except).len() == if except is Some {
            n - 1
        } else {
            n
        },
    decreases n,
{
    if n > 0 {
        if except == Some(n - 1) {
            lemma_all_but_outside(n - 1, n - 1);
        } else {
            law_stripping_drops_one(n - 1, except);
        }
    }
}

proof fn lemma_all_but_outside(n: int, e: int)
    requires
        0 <= n <= e,
    ensures
        all_but(n, Some(e)).len() == n,
    decreases n,
{
    if n > 0 {
        lemma_all_but_outside(n - 1, e);
    }
}

// ---------------------------------------------------------------------------
// Inherited columns
// ---------------------------------------------------------------------------

/// The columns of the rows at a path.
#[derive(Debug)]
pub struct KnownBatch {
    pub path: String,
    pub columns: Vec<String>,
}

/// Rows with this path and this column exist.
pub open spec fn known_column(known: Seq<KnownBatch>, path: Seq<char>, column: Seq<char>) -> bool {
    exists|i: int|
        0 <= i < known.len() && (#[trigger] known[i]).path@ == path && texts(
            known[i].columns@,
        ).contains(column)
}

fn knows_column(known: &Vec<KnownBatch>, path: &str, column: &str) -> (r: bool)
    ensures
        r == known_column(known@, path@, column@),
{
    let mut i: usize = 0;
    while i < known.len()
        invariant
            i <= known.len(),
            forall|j: int|
                0 <= j < i ==> !((#[trigger] known@[j]).path@ == path@ && texts(
                    known@[j].columns@,
                ).contains(column@)),
        decreases known.len() - i,
    {
        if same_text(&known[i].path, path) && holds_text(&known[i].columns, column) {
            return true;
        }
        i += 1;
    }
    false
}

/// Which of the first `n` inherited fields fill a column with rows that exist.
pub open spec fn filling(
    inherited: Seq<InheritedModel>,
    known: Seq<KnownBatch>,
    column: Seq<char>,
    n: int,
) -> Seq<usize>
    decreases n,
{
    if n <= 0 {
        Seq::empty()
    } else {
        let before = filling(inherited, known, column, n - 1);
        let f = inherited[n - 1];
        if f.into_column == column && known_column(known, f.from_path, f.from_column) {
            before.push((n - 1) as usize)
        } else {
            before
        }
    }
}

/// Which inherited fields fill a column, in order; those whose rows or columns do not exist are
/// passed over.
pub fn resolve_inherited_fields(
    inherited: &Vec<InheritedField>,
    known: &Vec<KnownBatch>,
    column: &str,
) -> (r: Vec<usize>)
    ensures
        r@ == filling(inherited_model(inherited@), known@, column@, inherited.len() as int),
{
    let ghost im = inherited_model(inherited@);
    let mut r: Vec<usize> = Vec::new();
    let mut i: usize = 0;
    while i < inherited.len()
        invariant
            i <= inherited.len(),
            im == inherited_model(inherited@),
            r@ == filling(im, known@, column@, i as int),
        decreases inherited.len() - i,
    {
        let f = &inherited[i];
        assert(im[i as int] == f.model());
        if same_text(&f.into_column, column) && knows_column(known, &f.from_path, &f.from_column) {
            r.push(i);
        }
        i += 1;
    }
    r
}

// ---------------------------------------------------------------------------
// Rows that satisfy constraints
// ---------------------------------------------------------------------------

/// A cell, as far as constraints look at it.
#[derive(Debug)]
pub enum Cell {
    Text { text: String, null: bool },
    /// `near` says whether the number is that of the constraint, up to rounding.
    Number { number: Num, null: bool, near: bool },
    Flag { flag: bool, null: bool },
    Other,
}

/// The cell satisfies the constraints: where it is not null it has the required value of its own
/// kind, and a number lies within the bounds.
pub open spec fn satisfies(c: Cell, fc: FieldConstraintsModel) -> bool {
    &&& match fc.value {
        None => true,
        Some(v) => match (c, v) {
            (Cell::Text { text, null }, YamlModel::Text(t)) => null || text@ == t,
            (Cell::Number { null, near, .. }, YamlModel::Int { .. }) => null || near,
            (Cell::Number { null, near, .. }, YamlModel::Float(_)) => null || near,
            (Cell::Flag { flag, null }, YamlModel::Bool(b)) => null || flag == b,
            _ => true,
        },
    }
    &&& match c {
        Cell::Number { number, .. } => {
            &&& fc.min matches Some(m) ==> !number.below(m)
            &&& fc.max matches Some(m) ==> !m.below(number)
        },
        _ => true,
    }
}

/// True when a cell satisfies the constraints.
pub fn row_satisfies_field_constraints(c: &Cell, fc: &FieldConstraints) -> (r: bool)
    ensures
        r == satisfies(*c, fc.model()),
{
    let valued = match &fc.value {
        None => true,
        Some(v) => match (c, v) {
            (Cell::Text { text, null }, YamlValue::Text(t)) => *null || same_text(text, t),
            (Cell::Number { null, near, .. }, YamlValue::Int { .. }) => *null || *near,
            (Cell::Number { null, near, .. }, YamlValue::Float(_)) => *null || *near,
            (Cell::Flag { flag, null }, YamlValue::Bool(b)) => *null || *flag == *b,
            _ => true,
        },
    };
    if !valued {
        return false;
    }
    match c {
        Cell::Number { number, .. } => {
            let above = match fc.min {
                Some(m) => !number.lt(m),
                None => true,
            };
            let below = match fc.max {
                Some(m) => !m.lt(*number),
                None => true,
            };
            above && below
        },
        _ => true,
    }
}

/// The rows below `n` whose cells of every constrained column satisfy its constraints: `masks[c]`
/// says so of column `c`.
pub open spec fn surviving_rows(masks: Seq<Vec<bool>>, n: int) -> Seq<u32>
    decreases n,
{
    if n <= 0 {
        Seq::empty()
    } else {
        let before = surviving_rows(masks, n - 1);
        if forall|c: int| 0 <= c < masks.len() ==> (#[trigger] masks[c])@[n - 1] {
            before.push((n - 1) as u32)
        } else {
            before
        }
    }
}

/// The rows that satisfy the constraints of all columns.
pub fn filter_batch_by_constraints(masks: &Vec<Vec<bool>>, n: usize) -> (r: Vec<u32>)
    requires
        n <= u32::MAX,
        forall|c: int| 0 <= c < masks.len() ==> (#[trigger] masks[c]).len() == n,
    ensures
        r@ == surviving_rows(masks@, n as int),
        forall|k: int| 0 <= k < r.len() ==> #[trigger] r[k] < n,
{
    let mut r: Vec<u32> = Vec::new();
    let mut i: usize = 0;
    while i < n
        invariant
            i <= n <= u32::MAX,
            forall|c: int| 0 <= c < masks.len() ==> (#[trigger] masks[c]).len() == n,
            r@ == surviving_rows(masks@, i as int),
            forall|k: int| 0 <= k < r.len() ==> #[trigger] r[k] < i,
        decreases n - i,
    {
        let mut all = true;
        let mut c: usize = 0;
        while c < masks.len()
            invariant
                c <= masks.len(),
                i < n,
                forall|c: int| 0 <= c < masks.len() ==> (#[trigger] masks[c]).len() == n,
                all == forall|k: int| 0 <= k < c ==> (#[trigger] masks@[k])@[i as int],
            decreases masks.len() - c,
        {
            assert(masks[c as int].len() == n);
            if !masks[c][i] {
                assert(!masks@[c as int]@[i as int]);
                all = false;
            }
            c += 1;
        }
        if all {
            r.push(i as u32);
        }
        i += 1;
    }
    r
}

// ---------------------------------------------------------------------------
// Junctions
// ---------------------------------------------------------------------------

/// The first link, from `l` on, that feeds no list and whose linked rows exist.
pub open spec fn junction_at(
    ds: SyntheticDatasetModel,
    computed: Seq<Seq<char>>,
    l: int,
) -> Option<int>
    decreases ds.links.len() - l,
{
    if l < 0 || l >= ds.links.len() {
        None
    } else if !feeds_list(ds.data, ds.links[l].reference) && ds.links[l].resolved is Some
        && computed.contains(ds.links[l].resolved->0) {
        Some(l)
    } else {
        junction_at(ds, computed, l + 1)
    }
}

/// The link whose rows a junction draws: the first that feeds no list and whose rows exist.
pub fn find_junction(ds: &SyntheticDataset, computed: &Vec<String>) -> (r: Option<usize>)
    ensures
        match r {
            Some(l) => l < ds.links.len() && junction_at(ds.model(), texts(computed@), 0) == Some(
                l as int,
            ),
            None => junction_at(ds.model(), texts(computed@), 0) is None,
        },
{
    let ghost dm = ds.model();
    let ghost cm = texts(computed@);
    let mut l: usize = 0;
    while l < ds.links.len()
        invariant
            l <= ds.links.len(),
            dm == ds.model(),
            cm == texts(computed@),
            junction_at(dm, cm, 0) == junction_at(dm, cm, l as int),
        decreases ds.links.len() - l,
    {
        let link = &ds.links[l];
        assert(dm.links[l as int] == link.model());
        if !is_list_source(&ds.data, &link.reference) {
            if let Some(p) = &link.resolved {
                if holds_text(computed, p) {
                    return Some(l);
                }
            }
        }
        l += 1;
    }
    None
}

// ---------------------------------------------------------------------------
// Columns behind list fields
// ---------------------------------------------------------------------------

/// A column of drawn rows.
#[derive(Debug)]
pub enum WitnessColumn {
    /// Taken from the linked rows.
    Linked { name: String, column: String },
    /// Generated, once for each drawn row.
    Generated { field: Field },
}

/// What a [`WitnessColumn`] says, free of representation.
pub enum WitnessColumnModel {
    Linked { name: Seq<char>, column: Seq<char> },
    Generated { field: FieldModel },
}

impl WitnessColumn {
    /// The content of this value, free of representation.
    pub open spec fn model(self) -> WitnessColumnModel {
        match self {
            WitnessColumn::Linked { name, column } => {
                WitnessColumnModel::Linked { name: name@, column: column@ }
            },
            WitnessColumn::Generated { field } => WitnessColumnModel::Generated {
                field: field.model(),
            },
        }
    }
}

/// The models of a list of columns.
pub open spec fn witness_columns_model(s: Seq<WitnessColumn>) -> Seq<WitnessColumnModel> {
    Seq::new(s.len(), |i: int| s[i].model())
}

/// Where an item field gets its values.
pub enum ItemScope {
    /// From this column of the linked rows.
    Linked(Seq<char>),
    /// From the row that has the list.
    Outer(Seq<char>),
    /// It is generated.
    Own,
}

/// Where an item field gets its values, when items are drawn from the link called `reference`.
pub open spec fn item_scope(f: FieldModel, reference: Seq<char>) -> ItemScope {
    match f.type_ref() {
        None => ItemScope::Own,
        Some(s) => match ref_parts(s) {
            None => ItemScope::Outer(s),
            Some((name, column)) => if name == reference {
                ItemScope::Linked(column)
            } else {
                ItemScope::Outer(column)
            },
        },
    }
}

/// The columns of drawn rows for the first `n` item fields, or the first linked column that is
/// missing. What comes from the row that has the list is not among them.
pub open spec fn witness_columns(
    items: Seq<FieldModel>,
    reference: Seq<char>,
    linked: Seq<Seq<char>>,
    n: int,
) -> Result<Seq<WitnessColumnModel>, Seq<PartModel>>
    decreases n,
{
    if n <= 0 {
        Ok(Seq::empty())
    } else {
        match witness_columns(items, reference, linked, n - 1) {
            Err(e) => Err(e),
            Ok(before) => {
                let f = items[n - 1];
                match item_scope(f, reference) {
                    ItemScope::Own => Ok(
                        before.push(WitnessColumnModel::Generated { field: f }),
                    ),
                    ItemScope::Outer(_) => Ok(before),
                    ItemScope::Linked(c) => if linked.contains(c) {
                        Ok(before.push(WitnessColumnModel::Linked { name: f.name, column: c }))
                    } else {
                        Err(said("column '"@ + c + "' not found in linked-slot batch"@))
                    },
                }
            },
        }
    }
}

proof fn lemma_witness_error_stays(
    items: Seq<FieldModel>,
    reference: Seq<char>,
    linked: Seq<Seq<char>>,
    a: int,
    b: int,
)
    requires
        0 <= a <= b,
    ensures
        witness_columns(items, reference, linked, a) is Err ==> witness_columns(
            items,
            reference,
            linked,
            b,
        ) == witness_columns(items, reference, linked, a),
    decreases b,
{
    if a < b {
        lemma_witness_error_stays(items, reference, linked, a, b - 1);
    }
}

/// The columns of the rows drawn for a list field.
pub fn plan_witness_columns(items: &Vec<Field>, reference: &str, linked: &Vec<String>) -> (r: Result<
    Vec<WitnessColumn>,
    Problem,
>)
    ensures
        ({
            let want = witness_columns(
                fields_model(items@),
                reference@,
                texts(linked@),
                items.len() as int,
            );
            match r {
                Ok(v) => want == Ok::<Seq<WitnessColumnModel>, Seq<PartModel>>(
                    witness_columns_model(v@),
                ),
                Err(p) => want == Err::<Seq<WitnessColumnModel>, Seq<PartModel>>(p.model()),
            }
        }),
{
    let ghost im = fields_model(items@);
    let ghost lm = texts(linked@);
    let mut r: Vec<WitnessColumn> = Vec::new();
    let mut i: usize = 0;
    assert(witness_columns_model(r@) =~= Seq::empty());
    while i < items.len()
        invariant
            i <= items.len(),
            im == fields_model(items@),
            lm == texts(linked@),
            witness_columns(im, reference@, lm, i as int) == Ok::<
                Seq<WitnessColumnModel>,
                Seq<PartModel>,
            >(witness_columns_model(r@)),
        decreases items.len() - i,
    {
        let f = &items[i];
        assert(im[i as int] == f.model());
        let ghost before = r@;
        match f.simple_ref() {
            None => {
                let c = WitnessColumn::Generated { field: f.clone() };
                r.push(c);
                assert(witness_columns_model(r@) =~= witness_columns_model(before).push(c.model()));
            },
            Some(s) => {
                if let Some((name, column)) = split_ref(s) {
                    if same_text(name, reference) {
                        if holds_text(linked, column) {
                            let c = WitnessColumn::Linked {
                                name: f.name.clone(),
                                column: column.to_owned(),
                            };
                            r.push(c);
                            assert(witness_columns_model(r@) =~= witness_columns_model(
                                before,
                            ).push(c.model()));
                        } else {
                            let e = problem(
                                join3("column '", column, "' not found in linked-slot batch"),
                            );
                            proof {
                                lemma_witness_error_stays(
                                    im,
                                    reference@,
                                    lm,
                                    i + 1,
                                    items.len() as int,
                                );
                            }
                            return Err(e);
                        }
                    }
                }
            },
        }
        i += 1;
    }
    Ok(r)
}

/// A column that list items take from the row that has the list.
#[derive(Debug)]
pub struct OuterColumn {
    pub name: String,
    /// The column of that row.
    pub column: String,
}

/// The columns that list items take from the row that has the list.
pub open spec fn outer_model(s: Seq<OuterColumn>) -> Seq<(Seq<char>, Seq<char>)> {
    Seq::new(s.len(), |i: int| (s[i].name@, s[i].column@))
}

/// The column that a reference names, with or without the name of a dataset before it.
pub open spec fn column_part(reference: Seq<char>) -> Seq<char> {
    match ref_parts(reference) {
        Some((_, c)) => c,
        None => reference,
    }
}

/// The columns that the first `n` item fields take from the row that has the list, or the first
/// that is missing there: item fields with a reference that the drawn rows have no column for.
pub open spec fn outer_columns(
    items: Seq<FieldModel>,
    drawn: Seq<Seq<char>>,
    staging: Seq<Seq<char>>,
    n: int,
) -> Result<Seq<(Seq<char>, Seq<char>)>, Seq<PartModel>>
    decreases n,
{
    if n <= 0 {
        Ok(Seq::empty())
    } else {
        match outer_columns(items, drawn, staging, n - 1) {
            Err(e) => Err(e),
            Ok(before) => {
                let f = items[n - 1];
                if drawn.contains(f.name) {
                    Ok(before)
                } else {
                    match f.type_ref() {
                        None => Ok(before),
                        Some(s) => if staging.contains(column_part(s)) {
                            Ok(before.push((f.name, column_part(s))))
                        } else {
                            Err(
                                said(
                                    "outer-scoped column '"@ + column_part(s)
                                        + "' not found in staging batch"@,
                                ),
                            )
                        },
                    }
                }
            },
        }
    }
}

proof fn lemma_outer_error_stays(
    items: Seq<FieldModel>,
    drawn: Seq<Seq<char>>,
    staging: Seq<Seq<char>>,
    a: int,
    b: int,
)
    requires
        0 <= a <= b,
    ensures
        outer_columns(items, drawn, staging, a) is Err ==> outer_columns(items, drawn, staging, b)
            == outer_columns(items, drawn, staging, a),
    decreases b,
{
    if a < b {
        lemma_outer_error_stays(items, drawn, staging, a, b - 1);
    }
}

/// The columns that the items of a list field take from the row that has the list.
pub fn plan_outer_columns(items: &Vec<Field>, drawn: &Vec<String>, staging: &Vec<String>) -> (r: Result<
    Vec<OuterColumn>,
    Problem,
>)
    ensures
        ({
            let want = outer_columns(
                fields_model(items@),
                texts(drawn@),
                texts(staging@),
                items.len() as int,
            );
            match r {
                Ok(v) => want == Ok::<Seq<(Seq<char>, Seq<char>)>, Seq<PartModel>>(
                    outer_model(v@),
                ),
                Err(p) => want == Err::<Seq<(Seq<char>, Seq<char>)>, Seq<PartModel>>(p.model()),
            }
        }),
{
    let ghost im = fields_model(items@);
    let ghost dm = texts(drawn@);
    let ghost sm = texts(staging@);
    let mut r: Vec<OuterColumn> = Vec::new();
    let mut i: usize = 0;
    assert(outer_model(r@) =~= Seq::empty());
    while i < items.len()
        invariant
            i <= items.len(),
            im == fields_model(items@),
            dm == texts(drawn@),
            sm == texts(staging@),
            outer_columns(im, dm, sm, i as int) == Ok::<
                Seq<(Seq<char>, Seq<char>)>,
                Seq<PartModel>,
            >(outer_model(r@)),
        decreases items.len() - i,
    {
        let f = &items[i];
        assert(im[i as int] == f.model());
        if !holds_text(drawn, &f.name) {
            if let Some(s) = f.simple_ref() {
                let column = match split_ref(s) {
                    Some((_, c)) => c,
                    None => s,
                };
                if holds_text(staging, column) {
                    let ghost before = r@;
                    let c = OuterColumn { name: f.name.clone(), column: column.to_owned() };
                    r.push(c);
                    assert(outer_model(r@) =~= outer_model(before).push((c.name@, c.column@)));
                } else {
                    let e = problem(
                        join3("outer-scoped column '", column, "' not found in staging batch"),
                    );
                    proof {
                        lemma_outer_error_stays(im, dm, sm, i + 1, items.len() as int);
                    }
                    return Err(e);
                }
            }
        }
        i += 1;
    }
    Ok(r)
}

/// An item field of this name is hidden.
pub open spec fn hidden_item(items: Seq<FieldModel>, name: Seq<char>) -> bool {
    exists|i: int| 0 <= i < items.len() && (#[trigger] items[i]).hidden && items[i].name == name
}

fn is_hidden_item(items: &Vec<Field>, name: &str) -> (r: bool)
    ensures
        r == hidden_item(fields_model(items@), name@),
{
    let ghost im = fields_model(items@);
    let mut i: usize = 0;
    while i < items.len()
        invariant
            i <= items.len(),
            im == fields_model(items@),
            forall|j: int| 0 <= j < i ==> !((#[trigger] im[j]).hidden && im[j].name == name@),
        decreases items.len() - i,
    {
        assert(im[i as int] == items[i as int].model());
        if items[i].hidden && same_text(&items[i].name, name) {
            return true;
        }
        i += 1;
    }
    false
}

/// What the elements of a list column are.
#[derive(Debug)]
pub enum ListElements {
    /// The values of this column.
    Column(usize),
    /// Records of these columns.
    Record(Vec<usize>),
}

/// The first `n` columns that are not hidden.
pub open spec fn visible_columns(names: Seq<Seq<char>>, items: Seq<FieldModel>, n: int) -> Seq<usize>
    decreases n,
{
    if n <= 0 {
        Seq::empty()
    } else if hidden_item(items, names[n - 1]) {
        visible_columns(names, items, n - 1)
    } else {
        visible_columns(names, items, n - 1).push((n - 1) as usize)
    }
}

/// What the elements of a list column are: the projected column, which must exist, or records of
/// all columns that are not hidden.
pub fn list_elements(
    field: &str,
    names: &Vec<String>,
    items: &Vec<Field>,
    project_col: Option<&str>,
) -> (r: Result<ListElements, Problem>)
    ensures
        match project_col {
            Some(c) => match column_at(texts(names@), c@, 0) {
                Some(i) => r matches Ok(ListElements::Column(k)) && k == i,
                None => r matches Err(p) && p.model() == said(
                    "project: column '"@ + c@ + "' not found in witness for '"@ + field@ + "'"@,
                ),
            },
            None => r matches Ok(ListElements::Record(v)) && v@ == visible_columns(
                texts(names@),
                fields_model(items@),
                names.len() as int,
            ),
        },
{
    match project_col {
        Some(c) => match find_column(names, c) {
            Some(i) => Ok(ListElements::Column(i)),
            None => Err(
                problem(
                    join5(
                        "project: column '",
                        c,
                        "' not found in witness for '",
                        field,
                        "'",
                    ),
                ),
            ),
        },
        None => {
            let ghost nm = texts(names@);
            let ghost im = fields_model(items@);
            let mut r: Vec<usize> = Vec::new();
            let mut i: usize = 0;
            while i < names.len()
                invariant
                    i <= names.len(),
                    nm == texts(names@),
                    im == fields_model(items@),
                    r@ == visible_columns(nm, im, i as int),
                decreases names.len() - i,
            {
                assert(nm[i as int] == names[i as int]@);
                if !is_hidden_item(items, &names[i]) {
                    r.push(i);
                }
                i += 1;
            }
            Ok(ListElements::Record(r))
        },
    }
}

/// Every item field is served once: its values come from the linked rows, from the row that has
/// the list, or are generated, and what the drawn rows hold is never taken from the outer row.
pub proof fn law_drawn_columns_are_not_outer(
    items: Seq<FieldModel>,
    drawn: Seq<Seq<char>>,
    staging: Seq<Seq<char>>,
    n: int,
    k: int,
)
    requires
        0 <= n <= items.len(),
        outer_columns(items, drawn, staging, n) is Ok,
        0 <= k < outer_columns(items, drawn, staging, n)->Ok_0.len(),
    ensures
        !drawn.contains(outer_columns(items, drawn, staging, n)->Ok_0[k].0),
    decreases n,
{
    if n > 0 {
        let before = outer_columns(items, drawn, staging, n - 1)->Ok_0;
        if k < before.len() {
            law_drawn_columns_are_not_outer(items, drawn, staging, n - 1, k);
        }
    }
}

// ---------------------------------------------------------------------------
// Computed columns
// ---------------------------------------------------------------------------

/// The fields with an expression among the first `n`.
pub open spec fn computed_fields(data: Seq<FieldModel>, n: int) -> Seq<FieldModel>
    decreases n,
{
    if n <= 0 {
        Seq::empty()
    } else if data[n - 1].expression is Some {
        computed_fields(data, n - 1).push(data[n - 1])
    } else {
        computed_fields(data, n - 1)
    }
}

/// The name of the table after `n` computed columns.
pub open spec fn table_name(n: int) -> Seq<char> {
    if n <= 0 {
        "src"@
    } else {
        "step"@ + decimal_text((n - 1) as nat)
    }
}

/// The table that adds computed column `i` to the table before it.
pub open spec fn table_text(f: FieldModel, i: int) -> Seq<char> {
    table_name(i + 1) + " AS (SELECT *, "@ + f.expression->0 + " AS \""@ + f.name + "\" FROM "@
        + table_name(i) + ")"@
}

/// The first `n` tables, one after the other.
pub open spec fn table_texts(fields: Seq<FieldModel>, n: int) -> Seq<char>
    decreases n,
{
    if n <= 0 {
        Seq::empty()
    } else if n == 1 {
        table_text(fields[0], 0)
    } else {
        table_texts(fields, n - 1) + ", "@ + table_text(fields[n - 1], n - 1)
    }
}

/// The query that adds all computed columns of a dataset, each built on those before it.
pub open spec fn query_text(data: Seq<FieldModel>) -> Option<Seq<char>> {
    let fields = computed_fields(data, data.len() as int);
    let n = fields.len() as int;
    if n == 0 {
        None
    } else {
        Some("WITH "@ + table_texts(fields, n) + " SELECT * FROM "@ + table_name(n))
    }
}

fn table_name_of(n: usize) -> (r: String)
    ensures
        r@ == table_name(n as int),
{
    if n == 0 {
        "src".to_owned()
    } else {
        join2("step", &decimal((n - 1) as u64))
    }
}

fn table_of(expression: &str, name: &str, i: usize) -> (r: String)
    requires
        i < usize::MAX,
    ensures
        forall|f: FieldModel|
            f.expression == Some(expression@) && f.name == name@ ==> r@ == #[trigger] table_text(
                f,
                i as int,
            ),
{
    let head = table_name_of(i + 1).concat(" AS (SELECT *, ").concat(expression);
    head.concat(" AS \"").concat(name).concat("\" FROM ").concat(&table_name_of(i)).concat(")")
}

/// The query that adds all computed columns of a dataset; none where there is nothing to compute.
pub fn expression_query(data: &Vec<Field>) -> (r: Option<String>)
    ensures
        match r {
            Some(s) => query_text(fields_model(data@)) == Some(s@),
            None => query_text(fields_model(data@)) is None,
        },
{
    let ghost dm = fields_model(data@);
    let mut tables = String::new();
    let mut n: usize = 0;
    let mut i: usize = 0;
    while i < data.len()
        invariant
            i <= data.len(),
            n <= i,
            dm == fields_model(data@),
            n == computed_fields(dm, i as int).len(),
            tables@ == table_texts(computed_fields(dm, i as int), n as int),
        decreases data.len() - i,
    {
        let f = &data[i];
        assert(dm[i as int] == f.model());
        if let Some(e) = &f.expression {
            let ghost before = computed_fields(dm, i as int);
            let ghost after = computed_fields(dm, i + 1);
            let t = table_of(e, &f.name, n);
            proof {
                assert(after == before.push(f.model()));
                assert(t@ == table_text(after[n as int], n as int));
                lemma_tables_prefix(before, f.model(), n as int);
            }
            tables = if n == 0 {
                t
            } else {
                tables.concat(", ").concat(&t)
            };
            n += 1;
        }
        i += 1;
    }
    if n == 0 {
        None
    } else {
        let head = "WITH ".to_owned().concat(&tables);
        Some(head.concat(" SELECT * FROM ").concat(&table_name_of(n)))
    }
}

proof fn lemma_tables_prefix(fields: Seq<FieldModel>, f: FieldModel, n: int)
    requires
        0 <= n <= fields.len(),
    ensures
        table_texts(fields.push(f), n) == table_texts(fields, n),
    decreases n,
{
    if n > 0 {
        lemma_tables_prefix(fields, f, n - 1);
    }
}

} // verus!
