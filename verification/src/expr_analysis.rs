//! Where computed columns are placed, what they may read, and which types they may have.
use vstd::prelude::*;

use crate::constraints::NumericInterval;
use crate::expressions::{extract_identifiers, names_from, slices_view};
use crate::models::{fields_model, Field, FieldModel, FieldType};
use crate::schema::{column_of, columns_model, field_to_arrow, typed, ColumnField, ColumnModel};
use crate::text::{same_text, texts};

verus! {

// ---------------------------------------------------------------------------
// Placement
// ---------------------------------------------------------------------------

/// A field that yields a list without being computed.
pub open spec fn yields_list(f: FieldModel) -> bool {
    f.expression is None && (f.field_type == Some(FieldType::List) || f.content is Some)
}

/// True when a field yields a list without being computed.
pub fn is_list_producing(field: &Field) -> (r: bool)
    ensures
        r == yields_list(field.model()),
{
    field.expression.is_none() && (matches!(field.field_type, Some(FieldType::List))
        || field.content.is_some())
}

/// Where computed columns go: before the lists are assembled, or after.
pub struct PlacementModel {
    /// Names of columns that are there only after the lists are assembled.
    pub late: Seq<Seq<char>>,
    /// Positions of the computed fields that need no list.
    pub staging: Seq<usize>,
    /// Positions of the computed fields that need one.
    pub assembly: Seq<usize>,
}

/// True when an expression reads one of the given columns.
pub open spec fn reads_any(expression: Seq<char>, columns: Seq<Seq<char>>) -> bool {
    exists|i: int|
        0 <= i < names_from(expression, 0).len() && columns.contains(
            #[trigger] names_from(expression, 0)[i],
        )
}

/// The placement of the computed columns among the first `n` fields: one that reads a late column
/// is late itself.
pub open spec fn placement(fields: Seq<FieldModel>, n: int) -> PlacementModel
    decreases n,
{
    if n <= 0 {
        PlacementModel { late: Seq::empty(), staging: Seq::empty(), assembly: Seq::empty() }
    } else {
        let p = placement(fields, n - 1);
        let f = fields[n - 1];
        if yields_list(f) {
            PlacementModel { late: p.late.push(f.name), ..p }
        } else {
            match f.expression {
                None => p,
                Some(e) => if reads_any(e, p.late) {
                    PlacementModel {
                        late: p.late.push(f.name),
                        assembly: p.assembly.push((n - 1) as usize),
                        ..p
                    }
                } else {
                    PlacementModel { staging: p.staging.push((n - 1) as usize), ..p }
                },
            }
        }
    }
}

fn reads_one_of(expression: &str, columns: &Vec<String>) -> (r: bool)
    ensures
        r == reads_any(expression@, texts(columns@)),
{
    let names = extract_identifiers(expression);
    let ghost nm = names_from(expression@, 0);
    assert(slices_view(names@) == nm);
    let mut i: usize = 0;
    while i < names.len()
        invariant
            i <= names.len(),
            slices_view(names@) == nm,
            nm == names_from(expression@, 0),
            forall|j: int| 0 <= j < i ==> !texts(columns@).contains(#[trigger] nm[j]),
        decreases names.len() - i,
    {
        assert(slices_view(names@)[i as int] == names@[i as int]@);
        if crate::text::holds_text(columns, names[i]) {
            return true;
        }
        i += 1;
    }
    false
}

/// Splits the computed fields of a dataset into those that can be computed before the lists are
/// assembled and those that need an assembled list, as positions in field order.
pub fn classify_expression_placement(data: &Vec<Field>) -> (r: (Vec<usize>, Vec<usize>))
    ensures
        r.0@ == placement(fields_model(data@), data@.len() as int).staging,
        r.1@ == placement(fields_model(data@), data@.len() as int).assembly,
{
    let ghost dm = fields_model(data@);
    let mut late: Vec<String> = Vec::new();
    let mut staging: Vec<usize> = Vec::new();
    let mut assembly: Vec<usize> = Vec::new();
    let mut i: usize = 0;
    assert(texts(late@) =~= placement(dm, 0).late);
    while i < data.len()
        invariant
            i <= data.len(),
            dm == fields_model(data@),
            texts(late@) == placement(dm, i as int).late,
            staging@ == placement(dm, i as int).staging,
            assembly@ == placement(dm, i as int).assembly,
        decreases data.len() - i,
    {
        let f = &data[i];
        assert(dm[i as int] == f.model());
        let ghost before = late@;
        if is_list_producing(f) {
            late.push(f.name.clone());
            assert(texts(late@) =~= texts(before).push(f.name@));
        } else if let Some(e) = &f.expression {
            if reads_one_of(e, &late) {
                late.push(f.name.clone());
                assert(texts(late@) =~= texts(before).push(f.name@));
                assembly.push(i);
            } else {
                staging.push(i);
            }
        }
        i += 1;
    }
    (staging, assembly)
}

/// Every computed field is placed exactly once, before or after the lists.
pub proof fn law_computed_fields_are_placed_once(fields: Seq<FieldModel>, n: int, i: usize)
    requires
        0 <= n <= fields.len() <= usize::MAX,
    ensures
        placement(fields, n).staging.contains(i) ==> i < n && fields[i as int].expression is Some,
        placement(fields, n).assembly.contains(i) ==> i < n && fields[i as int].expression is Some,
        i < n && fields[i as int].expression is Some ==> (placement(fields, n).staging.contains(i)
            <==> !placement(fields, n).assembly.contains(i)),
    decreases n,
{
    if n > 0 {
        law_computed_fields_are_placed_once(fields, n - 1, i);
        let p = placement(fields, n - 1);
        let q = placement(fields, n);
        lemma_push_contains(p.staging, (n - 1) as usize, i);
        lemma_push_contains(p.assembly, (n - 1) as usize, i);
    }
}

proof fn lemma_push_contains(s: Seq<usize>, x: usize, i: usize)
    ensures
        s.push(x).contains(i) == (s.contains(i) || i == x),
{
    let t = s.push(x);
    assert(t[s.len() as int] == x);
    if s.contains(i) {
        let k = s.index_of(i);
        assert(t[k] == i);
    }
    if t.contains(i) && i != x {
        let k = t.index_of(i);
        assert(s[k] == i);
    }
}

/// Without a list, everything is computed before the lists.
pub proof fn law_no_list_no_late_columns(fields: Seq<FieldModel>, n: int)
    requires
        0 <= n <= fields.len(),
        forall|i: int| 0 <= i < fields.len() ==> !yields_list(#[trigger] fields[i]),
    ensures
        placement(fields, n).late.len() == 0,
        placement(fields, n).assembly.len() == 0,
    decreases n,
{
    if n > 0 {
        law_no_list_no_late_columns(fields, n - 1);
    }
}

// ---------------------------------------------------------------------------
// Input of computed columns
// ---------------------------------------------------------------------------

/// A column with the interval of its values.
#[derive(Debug)]
pub struct NamedInterval {
    pub name: String,
    pub interval: NumericInterval,
}

/// What is known of the columns that an expression may read.
#[derive(Debug)]
pub struct InputContext {
    pub columns: Vec<ColumnField>,
    pub ranges: Vec<NamedInterval>,
}

/// A field whose column an expression may read as a scalar.
pub open spec fn scalar_input(f: FieldModel) -> bool {
    f.is_direct() && f.field_type is Some
}

/// The scalar columns of the first `n` fields.
pub open spec fn input_columns(fields: Seq<FieldModel>, n: int) -> Seq<ColumnModel>
    decreases n,
{
    if n <= 0 {
        Seq::empty()
    } else if scalar_input(fields[n - 1]) {
        input_columns(fields, n - 1).push(column_of(fields[n - 1]))
    } else {
        input_columns(fields, n - 1)
    }
}

/// The declared ranges of the first `n` fields.
pub open spec fn input_ranges(fields: Seq<FieldModel>, n: int) -> Seq<(Seq<char>, NumericInterval)>
    decreases n,
{
    if n <= 0 {
        Seq::empty()
    } else {
        match fields[n - 1].range {
            Some(r) => input_ranges(fields, n - 1).push(
                (fields[n - 1].name, NumericInterval { min: r.min, max: r.max }),
            ),
            None => input_ranges(fields, n - 1),
        }
    }
}

/// The pairs of name and interval.
pub open spec fn intervals_model(s: Seq<NamedInterval>) -> Seq<(Seq<char>, NumericInterval)> {
    Seq::new(s.len(), |i: int| (s[i].name@, s[i].interval))
}

/// The columns that an expression over a field list may read, with their declared ranges.
pub fn scalar_input_context(fields: &Vec<Field>) -> (r: InputContext)
    requires
        forall|i: int|
            0 <= i < fields.len() && scalar_input((#[trigger] fields[i]).model()) ==> typed(
                fields[i].model(),
            ),
    ensures
        columns_model(r.columns@) == input_columns(fields_model(fields@), fields@.len() as int),
        intervals_model(r.ranges@) == input_ranges(fields_model(fields@), fields@.len() as int),
{
    let ghost fm = fields_model(fields@);
    let mut columns: Vec<ColumnField> = Vec::new();
    let mut ranges: Vec<NamedInterval> = Vec::new();
    let mut i: usize = 0;
    assert(columns_model(columns@) =~= input_columns(fm, 0));
    assert(intervals_model(ranges@) =~= input_ranges(fm, 0));
    while i < fields.len()
        invariant
            i <= fields.len(),
            fm == fields_model(fields@),
            forall|j: int|
                0 <= j < fields.len() && scalar_input((#[trigger] fields[j]).model()) ==> typed(
                    fields[j].model(),
                ),
            columns_model(columns@) == input_columns(fm, i as int),
            intervals_model(ranges@) == input_ranges(fm, i as int),
        decreases fields.len() - i,
    {
        let f = &fields[i];
        assert(fm[i as int] == f.model());
        if f.is_direct() && f.field_type.is_some() {
            let c = field_to_arrow(f);
            let ghost before = columns@;
            columns.push(c);
            assert(columns_model(columns@) =~= columns_model(before).push(c.model()));
        }
        if let Some(r) = &f.range {
            let n = NamedInterval {
                name: f.name.clone(),
                interval: NumericInterval { min: r.min, max: r.max },
            };
            let ghost before = ranges@;
            ranges.push(n);
            assert(intervals_model(ranges@) =~= intervals_model(before).push(
                (n.name@, n.interval),
            ));
        }
        i += 1;
    }
    InputContext { columns, ranges }
}

// ---------------------------------------------------------------------------
// Types of computed columns
// ---------------------------------------------------------------------------

/// The family of a column type.
#[derive(Debug, Clone, Copy, PartialEq, Eq, Structural)]
pub enum TypeFamily {
    Numeric,
    Text,
    Other,
}

/// True when a computed column can take its declared type: the types are the same, or both are
/// numbers, or both are texts.
pub fn types_compatible(same: bool, declared: TypeFamily, inferred: TypeFamily) -> (r: bool)
    ensures
        r == (same || (declared == inferred && declared != TypeFamily::Other)),
{
    if same {
        return true;
    }
    match (declared, inferred) {
        (TypeFamily::Numeric, TypeFamily::Numeric) => true,
        (TypeFamily::Text, TypeFamily::Text) => true,
        _ => false,
    }
}

/// The last of the first `n` computed fields that has the given name.
pub open spec fn last_named(names: Seq<Seq<char>>, name: Seq<char>, n: int) -> Option<int>
    decreases n,
{
    if n <= 0 {
        None
    } else if names[n - 1] == name {
        Some(n - 1)
    } else {
        last_named(names, name, n - 1)
    }
}

fn find_last_named(names: &Vec<String>, name: &str) -> (r: Option<usize>)
    ensures
        match r {
            Some(i) => i < names.len() && last_named(texts(names@), name@, names@.len() as int)
                == Some(i as int),
            None => last_named(texts(names@), name@, names@.len() as int) is None,
        },
{
    let ghost nm = texts(names@);
    let mut n: usize = names.len();
    while n > 0
        invariant
            n <= names.len(),
            nm == texts(names@),
            last_named(nm, name@, names@.len() as int) == last_named(nm, name@, n as int),
        decreases n,
    {
        assert(nm[n - 1] == names[n - 1]@);
        if same_text(&names[n - 1], name) {
            return Some(n - 1);
        }
        n -= 1;
    }
    None
}

/// For each column of a batch, the computed field whose declared type it takes; none for a column
/// that stays as it is.
pub fn cast_computed_columns(columns: &Vec<String>, computed: &Vec<String>) -> (r: Vec<
    Option<usize>,
>)
    ensures
        r.len() == columns.len(),
        forall|i: int|
            0 <= i < r.len() ==> match #[trigger] r[i] {
                Some(k) => k < computed.len() && last_named(
                    texts(computed@),
                    columns[i]@,
                    computed@.len() as int,
                ) == Some(k as int),
                None => last_named(texts(computed@), columns[i]@, computed@.len() as int) is None,
            },
{
    let mut r: Vec<Option<usize>> = Vec::new();
    let mut i: usize = 0;
    while i < columns.len()
        invariant
            i <= columns.len(),
            r.len() == i,
            forall|j: int|
                0 <= j < i ==> match #[trigger] r[j] {
                    Some(k) => k < computed.len() && last_named(
                        texts(computed@),
                        columns[j]@,
                        computed@.len() as int,
                    ) == Some(k as int),
                    None => last_named(texts(computed@), columns[j]@, computed@.len() as int)
                        is None,
                },
        decreases columns.len() - i,
    {
        r.push(find_last_named(computed, &columns[i]));
        i += 1;
    }
    r
}

} // verus!
