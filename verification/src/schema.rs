//! The column types of generated batches.
use vstd::prelude::*;

use crate::models::{
    fields_model, lemma_content_model, union_cases_model, Field, FieldModel, FieldType,
    ParquetDatatype, UnionCase, UnionCaseModel,
};

verus! {

/// The type of a column.
#[derive(Debug)]
pub enum ColumnType {
    Plain(ParquetDatatype),
    Struct(Vec<ColumnField>),
    /// A list; its items are called `item`.
    List(Box<ColumnType>),
    /// A dense union with one child per case.
    Union(Vec<ColumnField>),
}

/// A column with its name and type; every column may hold nulls.
#[derive(Debug)]
pub struct ColumnField {
    pub name: String,
    pub kind: ColumnType,
}

/// What a [`ColumnType`] says, free of representation.
pub enum ColumnTypeModel {
    Plain(ParquetDatatype),
    Struct(Seq<ColumnModel>),
    List(Box<ColumnTypeModel>),
    Union(Seq<ColumnModel>),
}

/// What a [`ColumnField`] says, free of representation.
pub struct ColumnModel {
    pub name: Seq<char>,
    pub kind: ColumnTypeModel,
}

impl ColumnType {
    /// The content of this value, free of representation.
    pub open spec fn model(self) -> ColumnTypeModel
        decreases self,
    {
        match self {
            ColumnType::Plain(p) => ColumnTypeModel::Plain(p),
            ColumnType::Struct(v) => ColumnTypeModel::Struct(columns_model(v@)),
            ColumnType::List(b) => ColumnTypeModel::List(Box::new(b.model())),
            ColumnType::Union(v) => ColumnTypeModel::Union(columns_model(v@)),
        }
    }
}

impl ColumnField {
    /// The content of this value, free of representation.
    pub open spec fn model(self) -> ColumnModel
        decreases self,
    {
        ColumnModel { name: self.name@, kind: self.kind.model() }
    }
}

/// The models of a list of columns.
pub open spec fn columns_model(s: Seq<ColumnField>) -> Seq<ColumnModel>
    decreases s,
{
    Seq::new(
        s.len(),
        |i: int|
            if 0 <= i < s.len() {
                s[i].model()
            } else {
                arbitrary()
            },
    )
}

// ---------------------------------------------------------------------------
// From fields to columns
// ---------------------------------------------------------------------------

/// A field whose column type is settled, at any depth.
pub open spec fn typed(f: FieldModel) -> bool
    decreases f,
{
    f.parquet is Some || match f.field_type {
        None => false,
        Some(FieldType::Variant) => false,
        Some(FieldType::Object) => all_typed(f.fields),
        Some(FieldType::List) => match f.content {
            None => true,
            Some(c) => if c.from is None {
                typed(c.item)
            } else {
                all_typed(c.item.fields)
            },
        },
        Some(FieldType::Union) => cases_typed(f.union_cases),
        Some(_) => true,
    }
}

/// Fields whose column types are all settled.
pub open spec fn all_typed(s: Seq<FieldModel>) -> bool
    decreases s,
{
    forall|i: int| 0 <= i < s.len() ==> typed(#[trigger] s[i])
}

/// Cases whose column types are all settled.
pub open spec fn cases_typed(s: Seq<UnionCaseModel>) -> bool
    decreases s,
{
    forall|i: int| 0 <= i < s.len() ==> typed((#[trigger] s[i]).field)
}

/// The type of a field's column: the declared storage type, else what follows from the field type.
pub open spec fn column_type(f: FieldModel) -> ColumnTypeModel
    decreases f,
{
    match f.parquet {
        Some(p) => ColumnTypeModel::Plain(p.datatype),
        None => match f.field_type {
            Some(FieldType::Number) => ColumnTypeModel::Plain(ParquetDatatype::Float64),
            Some(FieldType::Boolean) => ColumnTypeModel::Plain(ParquetDatatype::Boolean),
            Some(FieldType::Date) => ColumnTypeModel::Plain(ParquetDatatype::Date32),
            Some(FieldType::DateTime) => ColumnTypeModel::Plain(ParquetDatatype::TimestampUs),
            Some(FieldType::Object) => ColumnTypeModel::Struct(columns_of(f.fields)),
            Some(FieldType::List) => ColumnTypeModel::List(
                Box::new(
                    match f.content {
                        None => ColumnTypeModel::Plain(ParquetDatatype::Utf8),
                        Some(c) => if c.from is None {
                            column_type(c.item)
                        } else {
                            ColumnTypeModel::Struct(columns_of(c.item.fields))
                        },
                    },
                ),
            ),
            Some(FieldType::Union) => ColumnTypeModel::Union(case_columns(f.union_cases)),
            _ => ColumnTypeModel::Plain(ParquetDatatype::Utf8),
        },
    }
}

/// The column of a field; a nameless field is called `item`.
pub open spec fn column_of(f: FieldModel) -> ColumnModel
    decreases f, 1int,
{
    ColumnModel {
        name: if f.name.len() == 0 {
            "item"@
        } else {
            f.name
        },
        kind: column_type(f),
    }
}

/// The columns of a list of fields.
pub open spec fn columns_of(s: Seq<FieldModel>) -> Seq<ColumnModel>
    decreases s,
{
    Seq::new(
        s.len(),
        |i: int|
            if 0 <= i < s.len() {
                ColumnModel {
                    name: if s[i].name.len() == 0 {
                        "item"@
                    } else {
                        s[i].name
                    },
                    kind: column_type(s[i]),
                }
            } else {
                arbitrary()
            },
    )
}

/// The columns of the cases of a union.
pub open spec fn case_columns(s: Seq<UnionCaseModel>) -> Seq<ColumnModel>
    decreases s,
{
    Seq::new(
        s.len(),
        |i: int|
            if 0 <= i < s.len() {
                ColumnModel {
                    name: if s[i].field.name.len() == 0 {
                        "item"@
                    } else {
                        s[i].field.name
                    },
                    kind: column_type(s[i].field),
                }
            } else {
                arbitrary()
            },
    )
}

/// True when the column type of a field is settled, at any depth.
pub fn is_typed(field: &Field) -> (r: bool)
    ensures
        r == typed(field.model()),
    decreases field, 1int,
{
    if field.parquet.is_some() {
        return true;
    }
    match field.field_type {
        None => false,
        Some(FieldType::Variant) => false,
        Some(FieldType::Object) => {
            assert(field.model().fields == fields_model(field.fields@));
            are_typed(&field.fields)
        },
        Some(FieldType::List) => match &field.content {
            None => true,
            Some(c) => {
                proof {
                    lemma_content_model(*field);
                }
                if c.from.is_none() {
                    is_typed(&c.item)
                } else {
                    are_typed(&c.item.fields)
                }
            },
        },
        Some(FieldType::Union) => {
            assert(field.model().union_cases == union_cases_model(field.union_cases@));
            are_cases_typed(&field.union_cases)
        },
        Some(_) => true,
    }
}

fn are_typed(fields: &Vec<Field>) -> (r: bool)
    ensures
        r == all_typed(fields_model(fields@)),
    decreases fields, 0int,
{
    let ghost fm = fields_model(fields@);
    let mut i: usize = 0;
    while i < fields.len()
        invariant
            i <= fields.len(),
            fm == fields_model(fields@),
            forall|j: int| 0 <= j < i ==> typed(#[trigger] fm[j]),
        decreases fields.len() - i,
    {
        assert(fm[i as int] == fields[i as int].model());
        if !is_typed(&fields[i]) {
            return false;
        }
        i += 1;
    }
    true
}

fn are_cases_typed(cases: &Vec<UnionCase>) -> (r: bool)
    ensures
        r == cases_typed(union_cases_model(cases@)),
    decreases cases, 0int,
{
    let ghost cm = union_cases_model(cases@);
    let mut i: usize = 0;
    while i < cases.len()
        invariant
            i <= cases.len(),
            cm == union_cases_model(cases@),
            forall|j: int| 0 <= j < i ==> typed((#[trigger] cm[j]).field),
        decreases cases.len() - i,
    {
        assert(cm[i as int] == cases[i as int].model());
        assert(cm[i as int].field == cases[i as int].field.model());
        if !is_typed(&cases[i].field) {
            return false;
        }
        i += 1;
    }
    true
}

/// The column of a field.
pub fn field_to_arrow(field: &Field) -> (r: ColumnField)
    requires
        typed(field.model()),
    ensures
        r.model() == column_of(field.model()),
    decreases field, 1int,
{
    let name: String = if field.name.as_str().unicode_len() == 0 {
        "item".to_owned()
    } else {
        field.name.clone()
    };
    ColumnField { name, kind: type_of(field) }
}

fn type_of(field: &Field) -> (r: ColumnType)
    requires
        typed(field.model()),
    ensures
        r.model() == column_type(field.model()),
    decreases field, 0int,
{
    if let Some(p) = &field.parquet {
        return ColumnType::Plain(p.datatype);
    }
    match field.field_type {
        Some(FieldType::Number) => ColumnType::Plain(ParquetDatatype::Float64),
        Some(FieldType::Boolean) => ColumnType::Plain(ParquetDatatype::Boolean),
        Some(FieldType::Date) => ColumnType::Plain(ParquetDatatype::Date32),
        Some(FieldType::DateTime) => ColumnType::Plain(ParquetDatatype::TimestampUs),
        Some(FieldType::Object) => {
            assert(field.model().fields == fields_model(field.fields@));
            let sub = types_of(&field.fields);
            let r = ColumnType::Struct(sub);
            assert(r.model() == ColumnTypeModel::Struct(columns_model(sub@)));
            r
        },
        Some(FieldType::List) => {
            let item: ColumnType = match &field.content {
                None => ColumnType::Plain(ParquetDatatype::Utf8),
                Some(c) => {
                    proof {
                        lemma_content_model(*field);
                    }
                    if c.from.is_none() {
                        type_of(&c.item)
                    } else {
                        let sub = types_of(&c.item.fields);
                        let r = ColumnType::Struct(sub);
                        assert(r.model() == ColumnTypeModel::Struct(columns_model(sub@)));
                        r
                    }
                },
            };
            let r = ColumnType::List(Box::new(item));
            assert(r.model() == ColumnTypeModel::List(Box::new(item.model())));
            r
        },
        Some(FieldType::Union) => {
            assert(field.model().union_cases == union_cases_model(field.union_cases@));
            let sub = case_types_of(&field.union_cases);
            let r = ColumnType::Union(sub);
            assert(r.model() == ColumnTypeModel::Union(columns_model(sub@)));
            r
        },
        _ => ColumnType::Plain(ParquetDatatype::Utf8),
    }
}

fn types_of(fields: &Vec<Field>) -> (r: Vec<ColumnField>)
    requires
        all_typed(fields_model(fields@)),
    ensures
        columns_model(r@) == columns_of(fields_model(fields@)),
    decreases fields, 0int,
{
    let ghost fm = fields_model(fields@);
    let mut r: Vec<ColumnField> = Vec::new();
    let mut i: usize = 0;
    while i < fields.len()
        invariant
            i <= fields.len(),
            fm == fields_model(fields@),
            all_typed(fm),
            r.len() == i,
            forall|j: int| 0 <= j < i ==> (#[trigger] r[j]).model() == column_of(fm[j]),
        decreases fields.len() - i,
    {
        assert(fm[i as int] == fields[i as int].model());
        assert(typed(fm[i as int]));
        r.push(field_to_arrow(&fields[i]));
        i += 1;
    }
    assert(columns_model(r@) =~= columns_of(fm));
    r
}

fn case_types_of(cases: &Vec<UnionCase>) -> (r: Vec<ColumnField>)
    requires
        cases_typed(union_cases_model(cases@)),
    ensures
        columns_model(r@) == case_columns(union_cases_model(cases@)),
    decreases cases, 0int,
{
    let ghost cm = union_cases_model(cases@);
    let mut r: Vec<ColumnField> = Vec::new();
    let mut i: usize = 0;
    while i < cases.len()
        invariant
            i <= cases.len(),
            cm == union_cases_model(cases@),
            cases_typed(cm),
            r.len() == i,
            forall|j: int| 0 <= j < i ==> (#[trigger] r[j]).model() == column_of(cm[j].field),
        decreases cases.len() - i,
    {
        assert(cm[i as int] == cases[i as int].model());
        assert(cm[i as int].field == cases[i as int].field.model());
        assert(typed(cm[i as int].field));
        r.push(field_to_arrow(&cases[i].field));
        i += 1;
    }
    assert(columns_model(r@) =~= case_columns(cm));
    r
}

/// The fields among the first `n` whose columns are generated directly.
pub open spec fn direct_columns(s: Seq<FieldModel>, n: int) -> Seq<ColumnModel>
    decreases n,
{
    if n <= 0 {
        Seq::empty()
    } else if s[n - 1].is_direct() {
        direct_columns(s, n - 1).push(column_of(s[n - 1]))
    } else {
        direct_columns(s, n - 1)
    }
}

/// The columns of a schema: those of the fields that are generated directly, in their order.
pub fn schema_to_arrow(schema: &Vec<Field>) -> (r: Vec<ColumnField>)
    requires
        forall|i: int|
            0 <= i < schema.len() && (#[trigger] schema[i]).model().is_direct() ==> typed(
                schema[i].model(),
            ),
    ensures
        columns_model(r@) == direct_columns(fields_model(schema@), schema@.len() as int),
{
    let ghost fm = fields_model(schema@);
    let mut r: Vec<ColumnField> = Vec::new();
    let mut i: usize = 0;
    assert(columns_model(r@) =~= direct_columns(fm, 0));
    while i < schema.len()
        invariant
            i <= schema.len(),
            fm == fields_model(schema@),
            forall|j: int|
                0 <= j < schema.len() && (#[trigger] schema[j]).model().is_direct() ==> typed(
                    schema[j].model(),
                ),
            columns_model(r@) == direct_columns(fm, i as int),
        decreases schema.len() - i,
    {
        assert(fm[i as int] == schema[i as int].model());
        if schema[i].is_direct() {
            let c = field_to_arrow(&schema[i]);
            let ghost before = r@;
            r.push(c);
            assert(columns_model(r@) =~= columns_model(before).push(c.model()));
        }
        i += 1;
    }
    r
}

/// A declared storage type decides the column type alone.
pub proof fn law_storage_type_wins(f: FieldModel)
    requires
        f.parquet is Some,
    ensures
        typed(f),
        column_of(f).kind == ColumnTypeModel::Plain(f.parquet->0.datatype),
{
}

} // verus!
