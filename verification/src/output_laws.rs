//! What written columns promise: the type of every field, the place of every column, and what
//! becomes of the levels below a flattened one.
use vstd::prelude::*;

use crate::columns::column_at;
use crate::models::{FieldModel, FieldType, FlattenStrategy, Format, ParquetDatatype};
use crate::output::{
    case_entry_outputs, case_of, case_outputs, case_row, entry_outputs, extension_of, file_name_of,
    flattened, hidden_name, leading_columns, outputs, portable, strategy_of, trailing_columns,
    visible_columns, OutModel, OutSource,
};
use crate::paths::extension_part;
use crate::schema::{column_type, direct_columns, ColumnModel, ColumnTypeModel};
use crate::segment_laws::is_plain;

verus! {

// ---------------------------------------------------------------------------
// Types of columns
// ---------------------------------------------------------------------------

/// A scalar column can hold what its field generates, in the widest form: doubles for numbers,
/// days for dates, microseconds for instants, text for text.
pub proof fn law_scalar_columns_hold_their_field(f: FieldModel)
    requires
        f.parquet is None,
    ensures
        f.field_type == Some(FieldType::Number) ==> column_type(f) == ColumnTypeModel::Plain(
            ParquetDatatype::Float64,
        ),
        f.field_type == Some(FieldType::Boolean) ==> column_type(f) == ColumnTypeModel::Plain(
            ParquetDatatype::Boolean,
        ),
        f.field_type == Some(FieldType::String) ==> column_type(f) == ColumnTypeModel::Plain(
            ParquetDatatype::Utf8,
        ),
        f.field_type == Some(FieldType::Date) ==> column_type(f) == ColumnTypeModel::Plain(
            ParquetDatatype::Date32,
        ),
        f.field_type == Some(FieldType::DateTime) ==> column_type(f) == ColumnTypeModel::Plain(
            ParquetDatatype::TimestampUs,
        ),
{
}

/// A record column has an entry for each field of the record, under its name and with its type.
pub proof fn law_records_have_their_fields(f: FieldModel, i: int)
    requires
        f.parquet is None,
        f.field_type == Some(FieldType::Object),
        0 <= i < f.fields.len(),
    ensures
        column_type(f) is Struct,
        column_type(f)->Struct_0.len() == f.fields.len(),
        column_type(f)->Struct_0[i].kind == column_type(f.fields[i]),
        f.fields[i].name.len() > 0 ==> column_type(f)->Struct_0[i].name == f.fields[i].name,
{
    reveal_with_fuel(column_type, 3);
    reveal_with_fuel(crate::schema::columns_of, 3);
}

/// A union column has a child for each case, under its name and with its type.
pub proof fn law_unions_have_their_cases(f: FieldModel, i: int)
    requires
        f.parquet is None,
        f.field_type == Some(FieldType::Union),
        0 <= i < f.union_cases.len(),
    ensures
        column_type(f) is Union,
        column_type(f)->Union_0.len() == f.union_cases.len(),
        column_type(f)->Union_0[i].kind == column_type(f.union_cases[i].field),
        f.union_cases[i].field.name.len() > 0 ==> column_type(f)->Union_0[i].name
            == f.union_cases[i].field.name,
{
    reveal_with_fuel(column_type, 3);
    reveal_with_fuel(crate::schema::case_columns, 3);
}

/// A list column holds items of the type of its item field; items that are drawn from a link are
/// records of the fields below it.
pub proof fn law_lists_hold_their_items(f: FieldModel, i: int)
    requires
        f.parquet is None,
        f.field_type == Some(FieldType::List),
        f.content is Some,
    ensures
        column_type(f) is List,
        f.content->0.from is None ==> *column_type(f)->List_0 == column_type(f.content->0.item),
        f.content->0.from is Some && 0 <= i < f.content->0.item.fields.len() ==> {
            let items = *column_type(f)->List_0;
            &&& items is Struct
            &&& items->Struct_0.len() == f.content->0.item.fields.len()
            &&& items->Struct_0[i].kind == column_type(f.content->0.item.fields[i])
            &&& f.content->0.item.fields[i].name.len() > 0 ==> items->Struct_0[i].name
                == f.content->0.item.fields[i].name
        },
{
    reveal_with_fuel(column_type, 3);
    reveal_with_fuel(crate::schema::columns_of, 3);
}

/// A schema has a column for every plain field, under its name and with its type, and no other.
pub proof fn law_schemas_have_every_plain_field(s: Seq<FieldModel>, n: int, i: int)
    requires
        0 <= i < n <= s.len(),
        is_plain(s[i]),
    ensures
        direct_columns(s, i).len() < direct_columns(s, n).len(),
        direct_columns(s, n)[direct_columns(s, i).len() as int].kind == column_type(s[i]),
        s[i].name.len() > 0 ==> direct_columns(s, n)[direct_columns(s, i).len() as int].name
            == s[i].name,
    decreases n,
{
    if i < n - 1 {
        law_schemas_have_every_plain_field(s, n - 1, i);
    } else {
        assert(s[i].is_direct());
    }
}

/// Every column of a schema is that of a plain field.
pub proof fn law_schema_columns_are_plain_fields(s: Seq<FieldModel>, n: int, k: int)
    requires
        0 <= n <= s.len(),
        0 <= k < direct_columns(s, n).len(),
    ensures
        exists|i: int|
            0 <= i < n && is_plain(#[trigger] s[i]) && direct_columns(s, n)[k].kind == column_type(
                s[i],
            ),
    decreases n,
{
    if n > 0 {
        if k < direct_columns(s, n - 1).len() {
            law_schema_columns_are_plain_fields(s, n - 1, k);
        } else {
            assert(is_plain(s[n - 1]));
        }
    }
}

// ---------------------------------------------------------------------------
// Order of columns
// ---------------------------------------------------------------------------

proof fn lemma_at(names: Seq<Seq<char>>, name: Seq<char>, i: int)
    requires
        0 <= i <= names.len(),
    ensures
        match column_at(names, name, i) {
            Some(k) => i <= k < names.len() && names[k] == name,
            None => forall|j: int| i <= j < names.len() ==> names[j] != name,
        },
    decreases names.len() - i,
{
    if i < names.len() && names[i] != name {
        lemma_at(names, name, i + 1);
    }
}

proof fn lemma_leading_named(fields: Seq<FieldModel>, names: Seq<Seq<char>>, n: int, k: int)
    requires
        0 <= n <= fields.len(),
        names.len() <= usize::MAX,
        0 <= k < leading_columns(fields, names, n).len(),
    ensures
        leading_columns(fields, names, n)[k] < names.len(),
        exists|i: int|
            0 <= i < n && !(#[trigger] fields[i]).hidden && fields[i].name
                == names[leading_columns(fields, names, n)[k] as int],
    decreases n,
{
    if n > 0 {
        lemma_at(names, fields[n - 1].name, 0);
        if k < leading_columns(fields, names, n - 1).len() {
            lemma_leading_named(fields, names, n - 1, k);
        } else {
            assert(!fields[n - 1].hidden);
        }
    }
}

proof fn lemma_leading_kept(fields: Seq<FieldModel>, names: Seq<Seq<char>>, a: int, b: int, k: int)
    requires
        0 <= a <= b,
        0 <= k < leading_columns(fields, names, a).len(),
    ensures
        k < leading_columns(fields, names, b).len(),
        leading_columns(fields, names, b)[k] == leading_columns(fields, names, a)[k],
    decreases b,
{
    if a < b {
        lemma_leading_kept(fields, names, a, b - 1, k);
    }
}

/// The columns of visible fields are written in the order of the fields, whatever order they came
/// in.
pub proof fn law_columns_follow_the_fields(
    fields: Seq<FieldModel>,
    names: Seq<Seq<char>>,
    i: int,
    j: int,
    p: usize,
    q: usize,
)
    requires
        names.len() <= usize::MAX,
        names.no_duplicates(),
        0 <= i < j < fields.len(),
        !fields[i].hidden,
        !fields[j].hidden,
        forall|k: int| 0 <= k < j ==> (#[trigger] fields[k]).name != fields[j].name,
        p < names.len(),
        q < names.len(),
        names[p as int] == fields[i].name,
        names[q as int] == fields[j].name,
    ensures
        exists|a: int, b: int|
            0 <= a < b < visible_columns(fields, names).len() && #[trigger] visible_columns(
                fields,
                names,
            )[a] == p && #[trigger] visible_columns(fields, names)[b] == q,
{
    lemma_at(names, fields[i].name, 0);
    lemma_at(names, fields[j].name, 0);
    let n = fields.len() as int;
    let early = leading_columns(fields, names, i + 1);
    let mid = leading_columns(fields, names, j);
    let late = leading_columns(fields, names, j + 1);
    assert(early.contains(p)) by {
        let before = leading_columns(fields, names, i);
        if !before.contains(p) {
            assert(early[before.len() as int] == p);
        }
    }
    let a = choose|a: int| 0 <= a < early.len() && early[a] == p;
    lemma_leading_kept(fields, names, i + 1, j, a);
    if mid.contains(q) {
        let c = choose|c: int| 0 <= c < mid.len() && mid[c] == q;
        lemma_leading_named(fields, names, j, c);
    }
    let b = mid.len() as int;
    assert(late[b] == q);
    lemma_leading_kept(fields, names, j + 1, n, b);
    lemma_leading_kept(fields, names, j, n, a);
    assert(visible_columns(fields, names)[a] == p);
    assert(visible_columns(fields, names)[b] == q);
}

proof fn lemma_trailing_not_hidden(
    fields: Seq<FieldModel>,
    names: Seq<Seq<char>>,
    lead: Seq<usize>,
    n: int,
    k: int,
)
    requires
        0 <= n <= names.len() <= usize::MAX,
        0 <= k < trailing_columns(fields, names, lead, n).len(),
    ensures
        trailing_columns(fields, names, lead, n)[k] < names.len(),
        !hidden_name(fields, names[trailing_columns(fields, names, lead, n)[k] as int]),
    decreases n,
{
    if n > 0 && k < trailing_columns(fields, names, lead, n - 1).len() {
        lemma_trailing_not_hidden(fields, names, lead, n - 1, k);
    }
}

/// The column of a hidden field is not written, unless a visible field has its name.
pub proof fn law_hidden_fields_are_not_written(
    fields: Seq<FieldModel>,
    names: Seq<Seq<char>>,
    i: int,
    k: int,
)
    requires
        names.len() <= usize::MAX,
        0 <= i < fields.len(),
        fields[i].hidden,
        forall|j: int|
            0 <= j < fields.len() && (#[trigger] fields[j]).name == fields[i].name
                ==> fields[j].hidden,
        0 <= k < visible_columns(fields, names).len(),
    ensures
        names[visible_columns(fields, names)[k] as int] != fields[i].name,
{
    let lead = leading_columns(fields, names, fields.len() as int);
    if k < lead.len() {
        lemma_leading_named(fields, names, fields.len() as int, k);
    } else {
        lemma_trailing_not_hidden(fields, names, lead, names.len() as int, k - lead.len());
        assert(fields[i].hidden && fields[i].name == fields[i].name);
    }
}

// ---------------------------------------------------------------------------
// Portable types
// ---------------------------------------------------------------------------

/// In portable form a union is a record with one entry per case, a record keeps its entries, and
/// everything else stays.
pub proof fn law_portable_types_keep_their_parts(t: ColumnTypeModel, i: int)
    ensures
        t is Plain || t is List ==> portable(t) == t,
        t is Union ==> portable(t) is Struct && portable(t)->Struct_0.len() == t->Union_0.len(),
        t is Union && 0 <= i < t->Union_0.len() ==> portable(t)->Struct_0[i].name
            == t->Union_0[i].name && portable(t)->Struct_0[i].kind == portable(
            t->Union_0[i].kind,
        ),
        t is Struct ==> portable(t) is Struct && portable(t)->Struct_0.len() == t->Struct_0.len(),
        t is Struct && 0 <= i < t->Struct_0.len() ==> portable(t)->Struct_0[i].name
            == t->Struct_0[i].name && portable(t)->Struct_0[i].kind == portable(
            t->Struct_0[i].kind,
        ),
{
    reveal_with_fuel(portable, 3);
    reveal_with_fuel(crate::output::portable_all, 3);
}

/// Each row is in the child of its own case and of no other, at its offset.
pub proof fn law_rows_stand_in_their_case(id: i8, row_id: i8, offset: i32)
    requires
        offset >= 0,
    ensures
        case_row(id, row_id, offset) is Some <==> row_id == id,
        row_id == id ==> case_row(id, row_id, offset)->0 == offset,
{
}

/// The active case of a row is one that has the id of the row, and there is one whenever the id is
/// known.
pub proof fn law_active_cases_have_the_id(ids: Seq<i8>, id: i8, n: int)
    requires
        0 <= n <= ids.len(),
    ensures
        case_of(ids, id, n) is Some ==> 0 <= case_of(ids, id, n)->0 < n && ids[case_of(
            ids,
            id,
            n,
        )->0] == id,
        case_of(ids, id, n) is None ==> forall|k: int| 0 <= k < n ==> ids[k] != id,
    decreases n,
{
    if n > 0 {
        law_active_cases_have_the_id(ids, id, n - 1);
    }
}

// ---------------------------------------------------------------------------
// Flattening
// ---------------------------------------------------------------------------

/// The last field that flattens the column.
pub open spec fn flattens(fields: Seq<FieldModel>, name: Seq<char>, i: int) -> bool {
    &&& 0 <= i < fields.len()
    &&& fields[i].flatten
    &&& fields[i].name == name
    &&& forall|j: int|
        i < j < fields.len() ==> !((#[trigger] fields[j]).flatten && fields[j].name == name)
}

/// A column is flattened exactly where a field of its name asks for it: the way the field
/// declares, side by side where it declares none, and always side by side where rows have keys.
pub proof fn law_columns_are_flattened_as_declared(
    fields: Seq<FieldModel>,
    name: Seq<char>,
    keyed: bool,
    i: int,
)
    ensures
        strategy_of(fields, name, keyed, fields.len() as int) is Some <==> exists|j: int|
            0 <= j < fields.len() && (#[trigger] fields[j]).flatten && fields[j].name == name,
        flattens(fields, name, i) && keyed ==> strategy_of(
            fields,
            name,
            keyed,
            fields.len() as int,
        ) == Some(FlattenStrategy::Superset),
        flattens(fields, name, i) && !keyed && fields[i].flatten_strategy is Some ==> strategy_of(
            fields,
            name,
            keyed,
            fields.len() as int,
        ) == fields[i].flatten_strategy,
        flattens(fields, name, i) && !keyed && fields[i].flatten_strategy is None ==> strategy_of(
            fields,
            name,
            keyed,
            fields.len() as int,
        ) == Some(FlattenStrategy::Superset),
{
    lemma_strategy(fields, name, keyed, fields.len() as int);
    if flattens(fields, name, i) {
        lemma_last_strategy(fields, name, keyed, fields.len() as int, i);
    }
}

proof fn lemma_strategy(fields: Seq<FieldModel>, name: Seq<char>, keyed: bool, n: int)
    requires
        0 <= n <= fields.len(),
    ensures
        strategy_of(fields, name, keyed, n) is Some <==> exists|j: int|
            0 <= j < n && (#[trigger] fields[j]).flatten && fields[j].name == name,
    decreases n,
{
    if n > 0 {
        lemma_strategy(fields, name, keyed, n - 1);
    }
}

proof fn lemma_last_strategy(
    fields: Seq<FieldModel>,
    name: Seq<char>,
    keyed: bool,
    n: int,
    i: int,
)
    requires
        flattens(fields, name, i),
        i < n <= fields.len(),
    ensures
        strategy_of(fields, name, keyed, n) == strategy_of(fields, name, keyed, i + 1),
    decreases n,
{
    if i + 1 < n {
        assert(!(fields[n - 1].flatten && fields[n - 1].name == name));
        lemma_last_strategy(fields, name, keyed, n - 1, i);
    }
}

/// Every entry of a flattened record becomes a column of its own, in order, under its name.
pub proof fn law_record_entries_become_columns(
    column: usize,
    entries: Seq<ColumnModel>,
    n: int,
    k: int,
)
    requires
        0 <= k < n <= entries.len() <= usize::MAX,
    ensures
        entry_outputs(column as int, entries, n).len() == n,
        ({
            let o = entry_outputs(column as int, entries, n)[k];
            &&& o.name == entries[k].name
            &&& o.source == OutSource::Entry { column, entry: k as usize }
            &&& o.kind == portable(entries[k].kind)
        }),
    decreases n,
{
    if n > 1 {
        law_record_entries_become_columns(
            column,
            entries,
            n - 1,
            if k < n - 1 {
                k
            } else {
                0
            },
        );
    } else {
        assert(entry_outputs(column as int, entries, 0).len() == 0);
    }
}

/// Every entry of a record case becomes a column, in order: under its name, with the name of the
/// case before it where the strategy asks for that.
pub proof fn law_case_entries_become_columns(
    column: usize,
    case: usize,
    label: Seq<char>,
    entries: Seq<ColumnModel>,
    strategy: FlattenStrategy,
    n: int,
    k: int,
)
    requires
        0 <= k < n <= entries.len() <= usize::MAX,
    ensures
        case_entry_outputs(column as int, case as int, label, entries, strategy, n).len() == n,
        ({
            let o = case_entry_outputs(
                column as int,
                case as int,
                label,
                entries,
                strategy,
                n,
            )[k];
            &&& strategy == FlattenStrategy::Prefixed ==> o.name == label + "_"@ + entries[k].name
            &&& strategy != FlattenStrategy::Prefixed ==> o.name == entries[k].name
            &&& o.source == OutSource::CaseEntry { column, case, entry: k as usize }
            &&& o.kind == portable(entries[k].kind)
        }),
    decreases n,
{
    if n > 1 {
        law_case_entries_become_columns(
            column,
            case,
            label,
            entries,
            strategy,
            n - 1,
            if k < n - 1 {
                k
            } else {
                0
            },
        );
    } else {
        assert(case_entry_outputs(column as int, case as int, label, entries, strategy, 0).len()
            == 0);
    }
}

/// Every case of a flattened union becomes columns: the entries of a record case, any other case
/// as a whole under its name.
pub proof fn law_cases_become_columns(
    column: usize,
    cases: Seq<ColumnModel>,
    strategy: FlattenStrategy,
    n: int,
    c: int,
    k: int,
)
    requires
        0 <= c < n <= cases.len() <= usize::MAX,
        cases[c].kind is Struct ==> 0 <= k < cases[c].kind->Struct_0.len() <= usize::MAX,
    ensures
        cases[c].kind is Struct ==> case_outputs(column as int, cases, strategy, n).contains(
            (OutModel {
                name: if strategy == FlattenStrategy::Prefixed {
                    cases[c].name + "_"@ + cases[c].kind->Struct_0[k].name
                } else {
                    cases[c].kind->Struct_0[k].name
                },
                source: OutSource::CaseEntry { column, case: c as usize, entry: k as usize },
                kind: portable(cases[c].kind->Struct_0[k].kind),
            }),
        ),
        !(cases[c].kind is Struct) ==> case_outputs(column as int, cases, strategy, n).contains(
            (OutModel {
                name: cases[c].name,
                source: OutSource::Case { column, case: c as usize },
                kind: cases[c].kind,
            }),
        ),
    decreases n,
{
    let now = case_outputs(column as int, cases, strategy, n);
    let before = case_outputs(column as int, cases, strategy, n - 1);
    let want = if cases[c].kind is Struct {
        OutModel {
            name: if strategy == FlattenStrategy::Prefixed {
                cases[c].name + "_"@ + cases[c].kind->Struct_0[k].name
            } else {
                cases[c].kind->Struct_0[k].name
            },
            source: OutSource::CaseEntry { column, case: c as usize, entry: k as usize },
            kind: portable(cases[c].kind->Struct_0[k].kind),
        }
    } else {
        OutModel {
            name: cases[c].name,
            source: OutSource::Case { column, case: c as usize },
            kind: cases[c].kind,
        }
    };
    if c < n - 1 {
        law_cases_become_columns(column, cases, strategy, n - 1, c, k);
        let i = choose|i: int| 0 <= i < before.len() && before[i] == want;
        assert(now[i] == want);
    } else if cases[c].kind is Struct {
        let s = cases[c].kind->Struct_0;
        law_case_entries_become_columns(
            column,
            c as usize,
            cases[c].name,
            s,
            strategy,
            s.len() as int,
            k,
        );
        assert(now[before.len() + k] == want);
    } else {
        assert(now[before.len() as int] == want);
    }
}

/// Only records and unions can be flattened. A flattened union has a column for the label of the
/// active case, behind all others, exactly where the strategy asks for one.
pub proof fn law_labels_are_written_where_asked(
    column: usize,
    c: ColumnModel,
    strategy: FlattenStrategy,
)
    ensures
        flattened(column as int, c, strategy) is Some <==> c.kind is Union || c.kind is Struct,
        c.kind is Union && strategy == FlattenStrategy::Discriminant ==> {
            let o = flattened(column as int, c, strategy)->0.last();
            &&& flattened(column as int, c, strategy)->0.len() == case_outputs(
                column as int,
                c.kind->Union_0,
                strategy,
                c.kind->Union_0.len() as int,
            ).len() + 1
            &&& o.name == c.name + "_case"@
            &&& o.source == OutSource::Tag(column)
            &&& o.kind == ColumnTypeModel::Plain(ParquetDatatype::Utf8)
        },
        c.kind is Union && strategy != FlattenStrategy::Discriminant ==> flattened(
            column as int,
            c,
            strategy,
        )->0 == case_outputs(
            column as int,
            c.kind->Union_0,
            strategy,
            c.kind->Union_0.len() as int,
        ),
{
}

proof fn lemma_outputs_ok(
    columns: Seq<ColumnModel>,
    shown: Seq<Seq<char>>,
    fields: Seq<FieldModel>,
    keyed: bool,
    a: int,
    b: int,
    o: OutModel,
)
    requires
        0 <= a <= b <= columns.len(),
        outputs(columns, shown, fields, keyed, b) is Ok,
    ensures
        outputs(columns, shown, fields, keyed, a) is Ok,
        outputs(columns, shown, fields, keyed, a)->Ok_0.contains(o) ==> outputs(
            columns,
            shown,
            fields,
            keyed,
            b,
        )->Ok_0.contains(o),
    decreases b,
{
    if a < b {
        lemma_outputs_ok(columns, shown, fields, keyed, a, b - 1, o);
        let before = outputs(columns, shown, fields, keyed, b - 1)->Ok_0;
        let now = outputs(columns, shown, fields, keyed, b)->Ok_0;
        if before.contains(o) {
            let i = choose|i: int| 0 <= i < before.len() && before[i] == o;
            assert(now[i] == o);
        }
    }
}

/// Every column of a batch is written: as a whole where no field flattens it, else with all that
/// flattening makes of it.
pub proof fn law_every_column_is_written(
    columns: Seq<ColumnModel>,
    shown: Seq<Seq<char>>,
    fields: Seq<FieldModel>,
    keyed: bool,
    n: int,
    c: int,
    k: int,
)
    requires
        0 <= c < n <= columns.len() <= usize::MAX,
        outputs(columns, shown, fields, keyed, n) is Ok,
    ensures
        (forall|j: int|
            0 <= j < fields.len() && (#[trigger] fields[j]).flatten ==> fields[j].name
                != columns[c].name) ==> outputs(
            columns,
            shown,
            fields,
            keyed,
            n,
        )->Ok_0.contains(
            (OutModel {
                name: columns[c].name,
                source: OutSource::Whole(c as usize),
                kind: portable(columns[c].kind),
            }),
        ),
        strategy_of(fields, columns[c].name, keyed, fields.len() as int) is Some ==> {
            let more = flattened(
                c,
                columns[c],
                strategy_of(fields, columns[c].name, keyed, fields.len() as int)->0,
            );
            &&& more is Some
            &&& 0 <= k < more->0.len() ==> outputs(
                columns,
                shown,
                fields,
                keyed,
                n,
            )->Ok_0.contains(more->0[k])
        },
{
    let name = columns[c].name;
    lemma_strategy(fields, name, keyed, fields.len() as int);
    let whole = OutModel {
        name,
        source: OutSource::Whole(c as usize),
        kind: portable(columns[c].kind),
    };
    lemma_outputs_ok(columns, shown, fields, keyed, c + 1, n, whole);
    lemma_outputs_ok(columns, shown, fields, keyed, c, n, whole);
    let before = outputs(columns, shown, fields, keyed, c)->Ok_0;
    let now = outputs(columns, shown, fields, keyed, c + 1)->Ok_0;
    match strategy_of(fields, name, keyed, fields.len() as int) {
        None => {
            assert(now[before.len() as int] == whole);
        },
        Some(s) => {
            let more = flattened(c, columns[c], s)->0;
            if 0 <= k < more.len() {
                assert(now[before.len() + k] == more[k]);
                lemma_outputs_ok(columns, shown, fields, keyed, c + 1, n, more[k]);
            }
        },
    }
}

/// A batch is refused exactly where a field flattens a column that is neither a record nor a
/// union.
pub proof fn law_plain_columns_cannot_be_flattened(
    columns: Seq<ColumnModel>,
    shown: Seq<Seq<char>>,
    fields: Seq<FieldModel>,
    keyed: bool,
    n: int,
)
    requires
        0 <= n <= columns.len(),
    ensures
        outputs(columns, shown, fields, keyed, n) is Err <==> exists|c: int, j: int|
            0 <= c < n && 0 <= j < fields.len() && (#[trigger] fields[j]).flatten && fields[j].name
                == (#[trigger] columns[c]).name && !(columns[c].kind is Union || columns[c].kind
                is Struct),
    decreases n,
{
    if n > 0 {
        law_plain_columns_cannot_be_flattened(columns, shown, fields, keyed, n - 1);
        lemma_strategy(fields, columns[n - 1].name, keyed, fields.len() as int);
        if outputs(columns, shown, fields, keyed, n) is Err && outputs(
            columns,
            shown,
            fields,
            keyed,
            n - 1,
        ) is Ok {
            let j = choose|j: int|
                0 <= j < fields.len() && (#[trigger] fields[j]).flatten && fields[j].name
                    == columns[n - 1].name;
            assert(fields[j].name == columns[n - 1].name);
        }
    }
}

// ---------------------------------------------------------------------------
// Names of files
// ---------------------------------------------------------------------------

/// A name that has the extension of the format is kept, and any other gets it behind a dot.
pub proof fn law_files_have_the_extension_of_their_format(name: Seq<char>, format: Format)
    ensures
        extension_part(name) == Some(extension_of(format)) ==> file_name_of(name, format) == name,
        extension_part(name) != Some(extension_of(format)) ==> file_name_of(name, format) == name
            + "."@ + extension_of(format),
{
}

/// Different formats have different extensions.
pub proof fn law_extensions_differ(a: Format, b: Format)
    requires
        a != b,
    ensures
        extension_of(a) != extension_of(b),
{
    reveal_strlit("parquet");
    reveal_strlit("csv");
    reveal_strlit("json");
    reveal_strlit("jsonl");
    assert("parquet"@.len() == 7 && "csv"@.len() == 3 && "json"@.len() == 4 && "jsonl"@.len() == 5);
}

} // verus!
