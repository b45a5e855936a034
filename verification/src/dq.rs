//! Degradation of finished rows: duplicates, missing rows, nulls, default values and corruptions.
//! Which cells are hit is drawn outside; what happens to them is decided here.
use vstd::prelude::*;
use vstd::string::StringSliceAdditionalSpecFns;

use crate::draws::{ascends, draw_between, draw_inclusive, pick, picked, sorted_positions};
use crate::models::{
    field_position, fields_model, find_field, opt_yaml_values_model, yaml_values_model,
    Corruptions, DataQuality, DataQualityModel, DefaultsMode, Field, FieldModel, FieldType, Num,
    YamlModel, YamlValue,
};
use crate::text::{opt_text, texts};

verus! {

/// Microseconds of a day.
pub const MICROS_PER_DAY: i64 = 86_400_000_000;

/// Milliseconds of a day.
pub const MILLIS_PER_DAY: i64 = 86_400_000;

// ---------------------------------------------------------------------------
// Rows
// ---------------------------------------------------------------------------

/// A rate that has an effect.
pub open spec fn active(rate: Option<Num>) -> bool {
    rate is Some && !rate->0.at_most(Num::zero())
}

/// True when a rate has an effect.
pub fn is_active(rate: Option<Num>) -> (r: bool)
    ensures
        r == active(rate),
{
    match rate {
        Some(n) => !n.le(Num { key: 0 }),
        None => false,
    }
}

/// Draws the rows to repeat: `count` of `n`, in ascending order.
pub fn duplicated_rows(n: usize, count: usize) -> (r: Vec<u32>)
    requires
        0 < n <= u32::MAX,
        count <= u32::MAX,
    ensures
        r.len() == count,
        forall|i: int| 0 <= i < r.len() ==> #[trigger] r[i] < n,
        forall|i: int, j: int| 0 <= i <= j < r.len() ==> #[trigger] r[i] <= #[trigger] r[j],
{
    let mut drawn: Vec<u32> = Vec::new();
    let mut i: usize = 0;
    while i < count
        invariant
            i <= count,
            0 < n <= u32::MAX,
            drawn.len() == i,
            forall|k: int| 0 <= k < i ==> #[trigger] drawn@[k] < n,
        decreases count - i,
    {
        drawn.push(draw_between(0, n as u64) as u32);
        i += 1;
    }
    in_ascending_order(&drawn)
}

/// The numbers in ascending order.
pub fn in_ascending_order(drawn: &Vec<u32>) -> (r: Vec<u32>)
    requires
        drawn.len() <= u32::MAX,
    ensures
        r.len() == drawn.len(),
        exists|order: Seq<u32>| #[trigger] ascends(order, drawn@) && r@ == picked(drawn@, order),
        forall|i: int, j: int| 0 <= i <= j < r.len() ==> #[trigger] r[i] <= #[trigger] r[j],
        forall|i: int| 0 <= i < r.len() ==> drawn@.contains(#[trigger] r[i]),
{
    let order = sorted_positions(drawn);
    let r = pick(drawn, &order);
    proof {
        assert(ascends(order@, drawn@));
        assert forall|i: int, j: int| 0 <= i <= j < r.len() implies #[trigger] r[i]
            <= #[trigger] r[j] by {
            assert(drawn@[order@[i] as int] <= drawn@[order@[j] as int]);
        }
        assert forall|i: int| 0 <= i < r.len() implies drawn@.contains(#[trigger] r[i]) by {
            assert(r[i] == drawn@[order@[i] as int]);
            assert(order@[i] < drawn@.len());
        }
    }
    r
}

/// Which rows or cells are spared: those whose draw reaches the rate.
pub fn spared(draws: &Vec<Num>, rate: Num) -> (r: Vec<bool>)
    ensures
        r@ == Seq::new(draws@.len(), |i: int| rate.at_most(draws@[i])),
{
    let mut r: Vec<bool> = Vec::new();
    let mut i: usize = 0;
    while i < draws.len()
        invariant
            i <= draws.len(),
            r.len() == i,
            forall|k: int| 0 <= k < i ==> #[trigger] r[k] == rate.at_most(draws@[k]),
        decreases draws.len() - i,
    {
        r.push(rate.le(draws[i]));
        i += 1;
    }
    assert(r@ =~= Seq::new(draws@.len(), |i: int| rate.at_most(draws@[i])));
    r
}

// ---------------------------------------------------------------------------
// What applies to a column
// ---------------------------------------------------------------------------

/// The degradation that applies to one column.
#[derive(Debug)]
pub struct ColumnQuality {
    pub nulls: Option<Num>,
    pub default_rate: Option<Num>,
    pub corruptions: Option<Corruptions>,
    /// The type of the column, as far as defaults and corruptions go by it.
    pub field_type: FieldType,
    /// Position of the field in the schema, if the column has one.
    pub field: Option<usize>,
}

/// The field's own setting, else that of the dataset.
pub open spec fn own_or<T>(own: Option<T>, general: Option<T>) -> Option<T> {
    if own is Some {
        own
    } else {
        general
    }
}

/// The field's own degradation settings.
pub open spec fn own_quality(schema: Seq<FieldModel>, name: Seq<char>) -> Option<DataQualityModel> {
    match field_position(schema, name, 0) {
        Some(i) => schema[i].quality,
        None => None,
    }
}

/// The settings of a field, slot by slot before those of the dataset.
pub fn column_quality(name: &str, quality: &DataQuality, schema: &Vec<Field>) -> (r: ColumnQuality)
    ensures
        ({
            let sm = fields_model(schema@);
            let q = quality.model();
            let own = own_quality(sm, name@);
            let at = field_position(sm, name@, 0);
            &&& r.nulls == own_or(
                match own {
                    Some(o) => o.nulls,
                    None => None,
                },
                q.nulls,
            )
            &&& r.default_rate == own_or(
                match own {
                    Some(o) => o.default_rate,
                    None => None,
                },
                q.default_rate,
            )
            &&& r.corruptions == own_or(
                match own {
                    Some(o) => o.corruptions,
                    None => None,
                },
                q.corruptions,
            )
            &&& r.field_type == match at {
                Some(i) => match sm[i].field_type {
                    Some(t) => t,
                    None => FieldType::String,
                },
                None => FieldType::String,
            }
            &&& match at {
                Some(i) => r.field == Some(i as usize),
                None => r.field is None,
            }
        }),
{
    let ghost sm = fields_model(schema@);
    match find_field(schema, name) {
        None => ColumnQuality {
            nulls: quality.nulls,
            default_rate: quality.default_rate,
            corruptions: quality.corruptions,
            field_type: FieldType::String,
            field: None,
        },
        Some(i) => {
            let f = &schema[i];
            assert(sm[i as int] == f.model());
            let t = match f.field_type {
                Some(t) => t,
                None => FieldType::String,
            };
            match &f.quality {
                None => ColumnQuality {
                    nulls: quality.nulls,
                    default_rate: quality.default_rate,
                    corruptions: quality.corruptions,
                    field_type: t,
                    field: Some(i),
                },
                Some(o) => ColumnQuality {
                    nulls: if o.nulls.is_some() {
                        o.nulls
                    } else {
                        quality.nulls
                    },
                    default_rate: if o.default_rate.is_some() {
                        o.default_rate
                    } else {
                        quality.default_rate
                    },
                    corruptions: if o.corruptions.is_some() {
                        o.corruptions
                    } else {
                        quality.corruptions
                    },
                    field_type: t,
                    field: Some(i),
                },
            }
        },
    }
}

// ---------------------------------------------------------------------------
// Default values
// ---------------------------------------------------------------------------

/// A value that stands for "nothing".
#[derive(Debug)]
pub enum DefaultValue {
    Text(String),
    Number(Num),
    Flag(bool),
    Day(i32),
    Micros(i64),
}

/// What a [`DefaultValue`] says, free of representation.
pub enum DefaultModel {
    Text(Seq<char>),
    Number(Num),
    Flag(bool),
    Day(i32),
    Micros(i64),
}

impl DefaultValue {
    /// The content of this value, free of representation.
    pub open spec fn model(self) -> DefaultModel {
        match self {
            DefaultValue::Text(s) => DefaultModel::Text(s@),
            DefaultValue::Number(n) => DefaultModel::Number(n),
            DefaultValue::Flag(b) => DefaultModel::Flag(b),
            DefaultValue::Day(d) => DefaultModel::Day(d),
            DefaultValue::Micros(t) => DefaultModel::Micros(t),
        }
    }
}

/// The models of a list of defaults.
pub open spec fn defaults_model(s: Seq<DefaultValue>) -> Seq<DefaultModel> {
    Seq::new(s.len(), |i: int| s[i].model())
}

/// The usual defaults of a type.
pub open spec fn builtin_defaults(t: FieldType) -> Seq<DefaultModel> {
    match t {
        FieldType::String => seq![
            DefaultModel::Text(""@),
            DefaultModel::Text("N/A"@),
            DefaultModel::Text("NA"@),
            DefaultModel::Text("None"@),
            DefaultModel::Text("NULL"@),
            DefaultModel::Text("n/a"@),
        ],
        FieldType::Number => seq![DefaultModel::Number(Num { key: 0 })],
        FieldType::Boolean => seq![DefaultModel::Flag(false)],
        FieldType::Date => seq![
            DefaultModel::Day(0),
            DefaultModel::Day(-25567i32),
            DefaultModel::Day(2932896),
        ],
        FieldType::DateTime => seq![DefaultModel::Micros(0)],
        _ => Seq::empty(),
    }
}

/// A declared default as a value of a type. `shown` is how a value that is no text is written
/// out.
pub open spec fn default_of(v: YamlModel, shown: Seq<char>, t: FieldType) -> Option<DefaultModel> {
    match t {
        FieldType::String => match v {
            YamlModel::Text(s) => Some(DefaultModel::Text(s)),
            _ => Some(DefaultModel::Text(shown)),
        },
        FieldType::Number => match v.num() {
            Some(n) => Some(DefaultModel::Number(n)),
            None => None,
        },
        FieldType::Boolean => match v {
            YamlModel::Bool(b) => Some(DefaultModel::Flag(b)),
            _ => None,
        },
        _ => None,
    }
}

/// The first `n` declared defaults as values of a type; what fits no value is passed over.
pub open spec fn declared_defaults(
    values: Seq<YamlModel>,
    shown: Seq<Seq<char>>,
    t: FieldType,
    n: int,
) -> Seq<DefaultModel>
    decreases n,
{
    if n <= 0 {
        Seq::empty()
    } else {
        let before = declared_defaults(values, shown, t, n - 1);
        match default_of(values[n - 1], shown[n - 1], t) {
            Some(d) => before.push(d),
            None => before,
        }
    }
}

/// All defaults of a column: the declared ones alone in override mode, else behind the usual ones.
pub open spec fn default_set(
    t: FieldType,
    values: Option<Seq<YamlModel>>,
    shown: Seq<Seq<char>>,
    mode: Option<DefaultsMode>,
) -> Seq<DefaultModel> {
    let declared = match values {
        Some(v) => declared_defaults(v, shown, t, v.len() as int),
        None => Seq::empty(),
    };
    if mode == Some(DefaultsMode::Override) {
        declared
    } else {
        builtin_defaults(t) + declared
    }
}

fn yaml_to_default(v: &YamlValue, shown: &str, t: FieldType) -> (r: Option<DefaultValue>)
    ensures
        match r {
            Some(d) => default_of(v.model(), shown@, t) == Some(d.model()),
            None => default_of(v.model(), shown@, t) is None,
        },
{
    match t {
        FieldType::String => match v.as_str() {
            Some(s) => Some(DefaultValue::Text(s.to_owned())),
            None => Some(DefaultValue::Text(shown.to_owned())),
        },
        FieldType::Number => match v.as_num() {
            Some(n) => Some(DefaultValue::Number(n)),
            None => None,
        },
        FieldType::Boolean => match v.as_bool() {
            Some(b) => Some(DefaultValue::Flag(b)),
            None => None,
        },
        _ => None,
    }
}

fn builtins(t: FieldType) -> (r: Vec<DefaultValue>)
    ensures
        defaults_model(r@) == builtin_defaults(t),
{
    let mut r: Vec<DefaultValue> = Vec::new();
    match t {
        FieldType::String => {
            r.push(DefaultValue::Text("".to_owned()));
            r.push(DefaultValue::Text("N/A".to_owned()));
            r.push(DefaultValue::Text("NA".to_owned()));
            r.push(DefaultValue::Text("None".to_owned()));
            r.push(DefaultValue::Text("NULL".to_owned()));
            r.push(DefaultValue::Text("n/a".to_owned()));
        },
        FieldType::Number => {
            r.push(DefaultValue::Number(Num { key: 0 }));
        },
        FieldType::Boolean => {
            r.push(DefaultValue::Flag(false));
        },
        FieldType::Date => {
            r.push(DefaultValue::Day(0));
            r.push(DefaultValue::Day(-25567));
            r.push(DefaultValue::Day(2932896));
        },
        FieldType::DateTime => {
            r.push(DefaultValue::Micros(0));
        },
        _ => {},
    }
    assert(defaults_model(r@) =~= builtin_defaults(t));
    r
}

/// All defaults of a column. `shown` holds, for each declared value, how it is written out.
pub fn build_default_set(
    t: FieldType,
    values: &Option<Vec<YamlValue>>,
    shown: &Vec<String>,
    mode: Option<DefaultsMode>,
) -> (r: Vec<DefaultValue>)
    requires
        values matches Some(v) ==> shown.len() == v.len(),
    ensures
        defaults_model(r@) == default_set(t, opt_yaml_values_model(*values), texts(shown@), mode),
{
    let mut r: Vec<DefaultValue> = if mode == Some(DefaultsMode::Override) {
        Vec::new()
    } else {
        builtins(t)
    };
    let ghost start = defaults_model(r@);
    if mode == Some(DefaultsMode::Override) {
        assert(start =~= Seq::empty());
    }
    if let Some(v) = values {
        let ghost vm = yaml_values_model(v@);
        let ghost sm = texts(shown@);
        let mut i: usize = 0;
        assert(defaults_model(r@) =~= start + declared_defaults(vm, sm, t, 0));
        while i < v.len()
            invariant
                i <= v.len(),
                shown.len() == v.len(),
                vm == yaml_values_model(v@),
                sm == texts(shown@),
                defaults_model(r@) == start + declared_defaults(vm, sm, t, i as int),
            decreases v.len() - i,
        {
            assert(vm[i as int] == v[i as int].model());
            assert(sm[i as int] == shown[i as int]@);
            if let Some(d) = yaml_to_default(&v[i], &shown[i], t) {
                let ghost before = r@;
                r.push(d);
                assert(defaults_model(r@) =~= defaults_model(before).push(d.model()));
            }
            i += 1;
            assert(defaults_model(r@) =~= start + declared_defaults(vm, sm, t, i as int));
        }
    }
    assert(defaults_model(r@) =~= default_set(
        t,
        opt_yaml_values_model(*values),
        texts(shown@),
        mode,
    ));
    r
}

/// The cells of a column, null where there is nothing.
#[derive(Debug)]
pub enum Cells {
    Texts(Vec<Option<String>>),
    Numbers(Vec<Option<Num>>),
    Flags(Vec<Option<bool>>),
    Days(Vec<Option<i32>>),
    Micros(Vec<Option<i64>>),
}

/// What [`Cells`] say, free of representation.
pub enum CellsModel {
    Texts(Seq<Option<Seq<char>>>),
    Numbers(Seq<Option<Num>>),
    Flags(Seq<Option<bool>>),
    Days(Seq<Option<i32>>),
    Micros(Seq<Option<i64>>),
}

/// The texts of a list of optional strings.
pub open spec fn opt_texts(s: Seq<Option<String>>) -> Seq<Option<Seq<char>>> {
    Seq::new(s.len(), |i: int| opt_text(s[i]))
}

impl Cells {
    /// The content of these cells, free of representation.
    pub open spec fn model(self) -> CellsModel {
        match self {
            Cells::Texts(v) => CellsModel::Texts(opt_texts(v@)),
            Cells::Numbers(v) => CellsModel::Numbers(v@),
            Cells::Flags(v) => CellsModel::Flags(v@),
            Cells::Days(v) => CellsModel::Days(v@),
            Cells::Micros(v) => CellsModel::Micros(v@),
        }
    }

    /// The number of cells.
    pub open spec fn count(self) -> nat {
        match self {
            Cells::Texts(v) => v@.len(),
            Cells::Numbers(v) => v@.len(),
            Cells::Flags(v) => v@.len(),
            Cells::Days(v) => v@.len(),
            Cells::Micros(v) => v@.len(),
        }
    }
}

/// The default that replaces a cell, if one does.
pub open spec fn chosen(defaults: Seq<DefaultModel>, replacement: Option<usize>) -> Option<DefaultModel> {
    match replacement {
        Some(i) => Some(defaults[i as int]),
        None => None,
    }
}

/// The cells with defaults in place of some: a default of another kind than the column changes
/// nothing.
pub open spec fn replaced(
    c: CellsModel,
    defaults: Seq<DefaultModel>,
    replacements: Seq<Option<usize>>,
) -> CellsModel {
    match c {
        CellsModel::Texts(s) => CellsModel::Texts(
            Seq::new(
                s.len(),
                |i: int|
                    match chosen(defaults, replacements[i]) {
                        Some(DefaultModel::Text(t)) => Some(t),
                        _ => s[i],
                    },
            ),
        ),
        CellsModel::Numbers(s) => CellsModel::Numbers(
            Seq::new(
                s.len(),
                |i: int|
                    match chosen(defaults, replacements[i]) {
                        Some(DefaultModel::Number(n)) => Some(n),
                        _ => s[i],
                    },
            ),
        ),
        CellsModel::Flags(s) => CellsModel::Flags(
            Seq::new(
                s.len(),
                |i: int|
                    match chosen(defaults, replacements[i]) {
                        Some(DefaultModel::Flag(b)) => Some(b),
                        _ => s[i],
                    },
            ),
        ),
        CellsModel::Days(s) => CellsModel::Days(
            Seq::new(
                s.len(),
                |i: int|
                    match chosen(defaults, replacements[i]) {
                        Some(DefaultModel::Day(d)) => Some(d),
                        _ => s[i],
                    },
            ),
        ),
        CellsModel::Micros(s) => CellsModel::Micros(
            Seq::new(
                s.len(),
                |i: int|
                    match chosen(defaults, replacements[i]) {
                        Some(DefaultModel::Micros(t)) => Some(t),
                        _ => s[i],
                    },
            ),
        ),
    }
}

/// Every replacement names a default.
pub open spec fn replacements_fit(replacements: Seq<Option<usize>>, count: nat, defaults: nat) -> bool {
    &&& replacements.len() == count
    &&& forall|i: int|
        0 <= i < replacements.len() && (#[trigger] replacements[i]) is Some ==> replacements[i]->0
            < defaults
}

/// Which default replaces a cell, if any: the one that was picked for it, where its draw lies below
/// the rate.
pub open spec fn replacement(draw: Num, rate: Num, pick: usize) -> Option<usize> {
    if draw.below(rate) {
        Some(pick)
    } else {
        None
    }
}

/// Which default replaces each cell, given a draw and a pick for each.
pub fn choose_replacements(draws: &Vec<Num>, rate: Num, picks: &Vec<usize>) -> (r: Vec<
    Option<usize>,
>)
    requires
        picks.len() == draws.len(),
    ensures
        r@ == Seq::new(draws@.len(), |i: int| replacement(draws@[i], rate, picks@[i])),
{
    let mut r: Vec<Option<usize>> = Vec::new();
    let mut i: usize = 0;
    while i < draws.len()
        invariant
            i <= draws.len(),
            picks.len() == draws.len(),
            r.len() == i,
            forall|k: int|
                0 <= k < i ==> #[trigger] r[k] == replacement(draws@[k], rate, picks@[k]),
        decreases draws.len() - i,
    {
        r.push(
            if draws[i].lt(rate) {
                Some(picks[i])
            } else {
                None
            },
        );
        i += 1;
    }
    assert(r@ =~= Seq::new(draws@.len(), |i: int| replacement(draws@[i], rate, picks@[i])));
    r
}

/// Draws which of so many defaults replaces each cell: one of them for every cell whose draw lies
/// below the rate, and none for the others.
pub fn draw_replacements(draws: &Vec<Num>, rate: Num, defaults: usize) -> (r: Vec<Option<usize>>)
    requires
        defaults > 0,
    ensures
        replacements_fit(r@, draws@.len(), defaults as nat),
        forall|i: int| 0 <= i < r.len() ==> (#[trigger] r[i] is Some <==> draws[i].below(rate)),
{
    let mut picks: Vec<usize> = Vec::new();
    let mut i: usize = 0;
    while i < draws.len()
        invariant
            i <= draws.len(),
            defaults > 0,
            picks.len() == i,
            forall|k: int| 0 <= k < i ==> #[trigger] picks[k] < defaults,
        decreases draws.len() - i,
    {
        picks.push(draw_between(0, defaults as u64) as usize);
        i += 1;
    }
    choose_replacements(draws, rate, &picks)
}

fn replace_texts(
    v: &Vec<Option<String>>,
    defaults: &Vec<DefaultValue>,
    replacements: &Vec<Option<usize>>,
) -> (r: Vec<Option<String>>)
    requires
        replacements_fit(replacements@, v@.len(), defaults@.len()),
    ensures
        CellsModel::Texts(opt_texts(r@)) == replaced(
            CellsModel::Texts(opt_texts(v@)),
            defaults_model(defaults@),
            replacements@,
        ),
{
    let ghost dm = defaults_model(defaults@);
    let ghost want = replaced(CellsModel::Texts(opt_texts(v@)), dm, replacements@);
    let mut r: Vec<Option<String>> = Vec::new();
    let mut i: usize = 0;
    while i < v.len()
        invariant
            i <= v.len(),
            replacements_fit(replacements@, v@.len(), defaults@.len()),
            dm == defaults_model(defaults@),
            want == replaced(CellsModel::Texts(opt_texts(v@)), dm, replacements@),
            r.len() == i,
            forall|j: int| 0 <= j < i ==> opt_text(#[trigger] r[j]) == want->Texts_0[j],
        decreases v.len() - i,
    {
        let mut cell: Option<String> = crate::text::clone_opt_text(&v[i]);
        if let Some(k) = replacements[i] {
            assert(dm[k as int] == defaults[k as int].model());
            if let DefaultValue::Text(s) = &defaults[k] {
                cell = Some(s.clone());
            }
        }
        r.push(cell);
        i += 1;
    }
    assert(opt_texts(r@) =~= want->Texts_0);
    r
}

fn replace_numbers(
    v: &Vec<Option<Num>>,
    defaults: &Vec<DefaultValue>,
    replacements: &Vec<Option<usize>>,
) -> (r: Vec<Option<Num>>)
    requires
        replacements_fit(replacements@, v@.len(), defaults@.len()),
    ensures
        CellsModel::Numbers(r@) == replaced(
            CellsModel::Numbers(v@),
            defaults_model(defaults@),
            replacements@,
        ),
{
    let ghost dm = defaults_model(defaults@);
    let ghost want = replaced(CellsModel::Numbers(v@), dm, replacements@);
    let mut r: Vec<Option<Num>> = Vec::new();
    let mut i: usize = 0;
    while i < v.len()
        invariant
            i <= v.len(),
            replacements_fit(replacements@, v@.len(), defaults@.len()),
            dm == defaults_model(defaults@),
            want == replaced(CellsModel::Numbers(v@), dm, replacements@),
            r.len() == i,
            forall|j: int| 0 <= j < i ==> #[trigger] r[j] == want->Numbers_0[j],
        decreases v.len() - i,
    {
        let mut cell: Option<Num> = v[i];
        if let Some(k) = replacements[i] {
            assert(dm[k as int] == defaults[k as int].model());
            if let DefaultValue::Number(n) = &defaults[k] {
                cell = Some(*n);
            }
        }
        r.push(cell);
        i += 1;
    }
    assert(r@ =~= want->Numbers_0);
    r
}

fn replace_flags(
    v: &Vec<Option<bool>>,
    defaults: &Vec<DefaultValue>,
    replacements: &Vec<Option<usize>>,
) -> (r: Vec<Option<bool>>)
    requires
        replacements_fit(replacements@, v@.len(), defaults@.len()),
    ensures
        CellsModel::Flags(r@) == replaced(
            CellsModel::Flags(v@),
            defaults_model(defaults@),
            replacements@,
        ),
{
    let ghost dm = defaults_model(defaults@);
    let ghost want = replaced(CellsModel::Flags(v@), dm, replacements@);
    let mut r: Vec<Option<bool>> = Vec::new();
    let mut i: usize = 0;
    while i < v.len()
        invariant
            i <= v.len(),
            replacements_fit(replacements@, v@.len(), defaults@.len()),
            dm == defaults_model(defaults@),
            want == replaced(CellsModel::Flags(v@), dm, replacements@),
            r.len() == i,
            forall|j: int| 0 <= j < i ==> #[trigger] r[j] == want->Flags_0[j],
        decreases v.len() - i,
    {
        let mut cell: Option<bool> = v[i];
        if let Some(k) = replacements[i] {
            assert(dm[k as int] == defaults[k as int].model());
            if let DefaultValue::Flag(b) = &defaults[k] {
                cell = Some(*b);
            }
        }
        r.push(cell);
        i += 1;
    }
    assert(r@ =~= want->Flags_0);
    r
}

fn replace_days(
    v: &Vec<Option<i32>>,
    defaults: &Vec<DefaultValue>,
    replacements: &Vec<Option<usize>>,
) -> (r: Vec<Option<i32>>)
    requires
        replacements_fit(replacements@, v@.len(), defaults@.len()),
    ensures
        CellsModel::Days(r@) == replaced(
            CellsModel::Days(v@),
            defaults_model(defaults@),
            replacements@,
        ),
{
    let ghost dm = defaults_model(defaults@);
    let ghost want = replaced(CellsModel::Days(v@), dm, replacements@);
    let mut r: Vec<Option<i32>> = Vec::new();
    let mut i: usize = 0;
    while i < v.len()
        invariant
            i <= v.len(),
            replacements_fit(replacements@, v@.len(), defaults@.len()),
            dm == defaults_model(defaults@),
            want == replaced(CellsModel::Days(v@), dm, replacements@),
            r.len() == i,
            forall|j: int| 0 <= j < i ==> #[trigger] r[j] == want->Days_0[j],
        decreases v.len() - i,
    {
        let mut cell: Option<i32> = v[i];
        if let Some(k) = replacements[i] {
            assert(dm[k as int] == defaults[k as int].model());
            if let DefaultValue::Day(d) = &defaults[k] {
                cell = Some(*d);
            }
        }
        r.push(cell);
        i += 1;
    }
    assert(r@ =~= want->Days_0);
    r
}

fn replace_micros(
    v: &Vec<Option<i64>>,
    defaults: &Vec<DefaultValue>,
    replacements: &Vec<Option<usize>>,
) -> (r: Vec<Option<i64>>)
    requires
        replacements_fit(replacements@, v@.len(), defaults@.len()),
    ensures
        CellsModel::Micros(r@) == replaced(
            CellsModel::Micros(v@),
            defaults_model(defaults@),
            replacements@,
        ),
{
    let ghost dm = defaults_model(defaults@);
    let ghost want = replaced(CellsModel::Micros(v@), dm, replacements@);
    let mut r: Vec<Option<i64>> = Vec::new();
    let mut i: usize = 0;
    while i < v.len()
        invariant
            i <= v.len(),
            replacements_fit(replacements@, v@.len(), defaults@.len()),
            dm == defaults_model(defaults@),
            want == replaced(CellsModel::Micros(v@), dm, replacements@),
            r.len() == i,
            forall|j: int| 0 <= j < i ==> #[trigger] r[j] == want->Micros_0[j],
        decreases v.len() - i,
    {
        let mut cell: Option<i64> = v[i];
        if let Some(k) = replacements[i] {
            assert(dm[k as int] == defaults[k as int].model());
            if let DefaultValue::Micros(t) = &defaults[k] {
                cell = Some(*t);
            }
        }
        r.push(cell);
        i += 1;
    }
    assert(r@ =~= want->Micros_0);
    r
}

/// Puts defaults in place of cells: the cell at position `i` gets the default that
/// `replacements[i]` names, if it names one of the column's kind.
pub fn replace_with_defaults(
    cells: &Cells,
    defaults: &Vec<DefaultValue>,
    replacements: &Vec<Option<usize>>,
) -> (r: Cells)
    requires
        replacements_fit(replacements@, cells.count(), defaults@.len()),
    ensures
        r.model() == replaced(cells.model(), defaults_model(defaults@), replacements@),
{
    match cells {
        Cells::Texts(v) => Cells::Texts(replace_texts(v, defaults, replacements)),
        Cells::Numbers(v) => Cells::Numbers(replace_numbers(v, defaults, replacements)),
        Cells::Flags(v) => Cells::Flags(replace_flags(v, defaults, replacements)),
        Cells::Days(v) => Cells::Days(replace_days(v, defaults, replacements)),
        Cells::Micros(v) => Cells::Micros(replace_micros(v, defaults, replacements)),
    }
}

/// Every usual default of a type is of the kind of that type's columns, so it replaces cells.
pub proof fn law_builtin_defaults_replace(t: FieldType, i: int)
    requires
        0 <= i < builtin_defaults(t).len(),
    ensures
        t is String ==> builtin_defaults(t)[i] is Text,
        t is Number ==> builtin_defaults(t)[i] is Number,
        t is Boolean ==> builtin_defaults(t)[i] is Flag,
        t is Date ==> builtin_defaults(t)[i] is Day,
        t is DateTime ==> builtin_defaults(t)[i] is Micros,
{
}

// ---------------------------------------------------------------------------
// Corruptions
// ---------------------------------------------------------------------------

/// One kind of corruption with its rate.
#[derive(Debug, Clone, Copy, PartialEq, Eq, Structural)]
pub enum CorruptionStep {
    Deletion(Num),
    Insertion(Num),
    Truncation(Num),
    Encoding(Num),
    /// Normal noise; `scale` multiplies the spread of the column.
    Noise { rate: Num, scale: Num },
    DayShift { rate: Num, max_days: i64 },
}

/// A step where a rate is given.
pub open spec fn step_if(rate: Option<Num>, step: CorruptionStep) -> Seq<CorruptionStep> {
    if rate is Some {
        seq![step]
    } else {
        Seq::empty()
    }
}

/// The corruptions of a column, in the order in which they are applied: texts lose, gain and
/// mangle characters, numbers get noise, and dates are shifted.
pub open spec fn corruption_steps_of(t: FieldType, c: Corruptions) -> Seq<CorruptionStep> {
    match t {
        FieldType::String => step_if(
            c.character_deletion,
            CorruptionStep::Deletion(c.character_deletion->0),
        ) + step_if(
            c.character_insertion,
            CorruptionStep::Insertion(c.character_insertion->0),
        ) + step_if(c.truncation, CorruptionStep::Truncation(c.truncation->0)) + step_if(
            c.encoding,
            CorruptionStep::Encoding(c.encoding->0),
        ),
        FieldType::Number => step_if(
            c.noise,
            CorruptionStep::Noise { rate: c.noise->0, scale: c.noise_scale },
        ),
        FieldType::Date => step_if(
            c.day_shift,
            CorruptionStep::DayShift { rate: c.day_shift->0, max_days: c.day_shift_max },
        ),
        FieldType::DateTime => step_if(
            c.day_shift,
            CorruptionStep::DayShift { rate: c.day_shift->0, max_days: c.day_shift_max },
        ),
        _ => Seq::empty(),
    }
}

/// The corruptions of a column, in the order in which they are applied.
pub fn corruption_steps(t: FieldType, c: &Corruptions) -> (r: Vec<CorruptionStep>)
    ensures
        r@ == corruption_steps_of(t, *c),
{
    let mut r: Vec<CorruptionStep> = Vec::new();
    match t {
        FieldType::String => {
            if let Some(n) = c.character_deletion {
                r.push(CorruptionStep::Deletion(n));
            }
            if let Some(n) = c.character_insertion {
                r.push(CorruptionStep::Insertion(n));
            }
            if let Some(n) = c.truncation {
                r.push(CorruptionStep::Truncation(n));
            }
            if let Some(n) = c.encoding {
                r.push(CorruptionStep::Encoding(n));
            }
        },
        FieldType::Number => {
            if let Some(n) = c.noise {
                r.push(CorruptionStep::Noise { rate: n, scale: c.noise_scale });
            }
        },
        FieldType::Date | FieldType::DateTime => {
            if let Some(n) = c.day_shift {
                r.push(CorruptionStep::DayShift { rate: n, max_days: c.day_shift_max });
            }
        },
        _ => {},
    }
    assert(r@ =~= corruption_steps_of(t, *c));
    r
}

// ---------------------------------------------------------------------------
// Order of the passes
// ---------------------------------------------------------------------------

/// A pass over the rows of a batch.
#[derive(Debug, Clone, Copy, PartialEq, Eq, Structural)]
pub enum RowPass {
    /// Repeat a share of the rows.
    Duplicate(Num),
    /// Leave a share of the rows out.
    Drop(Num),
}

/// The passes over the rows: rows are repeated before rows are left out, and a rate without effect
/// makes no pass.
pub open spec fn row_passes_of(q: DataQualityModel) -> Seq<RowPass> {
    (if active(q.duplication) {
        seq![RowPass::Duplicate(q.duplication->0)]
    } else {
        Seq::empty()
    }) + (if active(q.missing) {
        seq![RowPass::Drop(q.missing->0)]
    } else {
        Seq::empty()
    })
}

/// The passes over the rows of a batch, in their order.
pub fn row_passes(quality: &DataQuality) -> (r: Vec<RowPass>)
    ensures
        r@ == row_passes_of(quality.model()),
{
    let mut r: Vec<RowPass> = Vec::new();
    if let Some(rate) = quality.duplication {
        if is_active(quality.duplication) {
            r.push(RowPass::Duplicate(rate));
        }
    }
    if let Some(rate) = quality.missing {
        if is_active(quality.missing) {
            r.push(RowPass::Drop(rate));
        }
    }
    assert(r@ =~= row_passes_of(quality.model()));
    r
}

/// A pass over the cells of a column.
#[derive(Debug, Clone, Copy, PartialEq, Eq, Structural)]
pub enum CellPass {
    Nulls(Num),
    Defaults(Num),
    Corrupt(CorruptionStep),
}

/// Corruptions as passes.
pub open spec fn corrupting(s: Seq<CorruptionStep>) -> Seq<CellPass> {
    Seq::new(s.len(), |i: int| CellPass::Corrupt(s[i]))
}

/// The passes over a column: nulls, then defaults, then corruptions.
pub open spec fn cell_passes_of(q: ColumnQuality) -> Seq<CellPass> {
    (if active(q.nulls) {
        seq![CellPass::Nulls(q.nulls->0)]
    } else {
        Seq::empty()
    }) + (if active(q.default_rate) {
        seq![CellPass::Defaults(q.default_rate->0)]
    } else {
        Seq::empty()
    }) + (match q.corruptions {
        Some(c) => corrupting(corruption_steps_of(q.field_type, c)),
        None => Seq::empty(),
    })
}

/// The passes over the cells of a column, in their order.
pub fn cell_passes(q: &ColumnQuality) -> (r: Vec<CellPass>)
    ensures
        r@ == cell_passes_of(*q),
{
    let mut r: Vec<CellPass> = Vec::new();
    if let Some(rate) = q.nulls {
        if is_active(q.nulls) {
            r.push(CellPass::Nulls(rate));
        }
    }
    if let Some(rate) = q.default_rate {
        if is_active(q.default_rate) {
            r.push(CellPass::Defaults(rate));
        }
    }
    let ghost front = r@;
    if let Some(c) = &q.corruptions {
        let steps = corruption_steps(q.field_type, c);
        let mut i: usize = 0;
        assert(r@ =~= front + corrupting(steps@.subrange(0, 0)));
        while i < steps.len()
            invariant
                i <= steps.len(),
                r@ == front + corrupting(steps@.subrange(0, i as int)),
            decreases steps.len() - i,
        {
            r.push(CellPass::Corrupt(steps[i]));
            i += 1;
            assert(r@ =~= front + corrupting(steps@.subrange(0, i as int)));
        }
        assert(steps@.subrange(0, steps@.len() as int) =~= steps@);
    }
    assert(r@ =~= cell_passes_of(*q));
    r
}

// ---------------------------------------------------------------------------
// Corrupted cells
// ---------------------------------------------------------------------------

/// A draw that hits a cell.
pub open spec fn hits(draw: Num, rate: Num) -> bool {
    !rate.at_most(draw)
}

/// A text without the character at `at`.
pub open spec fn without_char(s: Seq<char>, at: int) -> Seq<char> {
    s.subrange(0, at) + s.subrange(at + 1, s.len() as int)
}

/// Drops the character at `at` where the draw hits; an empty text stays.
pub fn corrupt_char_deletion(s: &str, draw: Num, rate: Num, at: usize) -> (r: String)
    requires
        s@.len() > 0 ==> at < s@.len(),
    ensures
        r@ == if s@.len() == 0 || !hits(draw, rate) {
            s@
        } else {
            without_char(s@, at as int)
        },
{
    let n: usize = s.unicode_len();
    if n == 0 || rate.le(draw) {
        return s.to_owned();
    }
    s.substring_char(0, at).to_owned().concat(s.substring_char(at + 1, n))
}

/// The characters that an insertion may add: all printable ones of ASCII.
pub open spec fn printable() -> Seq<char> {
    " !\"#$%&'()*+,-./0123456789:;<=>?@ABCDEFGHIJKLMNOPQRSTUVWXYZ[\\]^_`abcdefghijklmnopqrstuvwxyz{|}~"@
}

/// A text with the printable character number `which` put in at `at`.
pub open spec fn with_char(s: Seq<char>, at: int, which: int) -> Seq<char> {
    s.subrange(0, at) + printable().subrange(which, which + 1) + s.subrange(at, s.len() as int)
}

/// Adds the printable character number `which` at `at` where the draw hits.
pub fn corrupt_char_insertion(s: &str, draw: Num, rate: Num, at: usize, which: usize) -> (r: String)
    requires
        at <= s@.len(),
        which < 95,
    ensures
        r@ == if !hits(draw, rate) {
            s@
        } else {
            with_char(s@, at as int, which as int)
        },
{
    let n: usize = s.unicode_len();
    if rate.le(draw) {
        return s.to_owned();
    }
    let all =
        " !\"#$%&'()*+,-./0123456789:;<=>?@ABCDEFGHIJKLMNOPQRSTUVWXYZ[\\]^_`abcdefghijklmnopqrstuvwxyz{|}~";
    proof {
        reveal_strlit(
            " !\"#$%&'()*+,-./0123456789:;<=>?@ABCDEFGHIJKLMNOPQRSTUVWXYZ[\\]^_`abcdefghijklmnopqrstuvwxyz{|}~",
        );
        assert(all@.len() == 95);
    }
    let piece = all.substring_char(which, which + 1);
    s.substring_char(0, at).to_owned().concat(piece).concat(s.substring_char(at, n))
}

/// Cuts a text off after `len` characters where the draw hits; an empty text stays.
pub fn corrupt_truncation(s: &str, draw: Num, rate: Num, len: usize) -> (r: String)
    requires
        s@.len() > 0 ==> len < s@.len(),
    ensures
        r@ == if s@.len() == 0 || !hits(draw, rate) {
            s@
        } else {
            s@.subrange(0, len as int)
        },
{
    let n: usize = s.unicode_len();
    if n == 0 || rate.le(draw) {
        return s.to_owned();
    }
    s.substring_char(0, len).to_owned()
}

/// The byte that takes the place of one outside ASCII.
pub open spec fn mangled(b: u8) -> u8 {
    if b > 127 {
        0xC0u8 | (b >> 6)
    } else {
        b
    }
}

/// Bytes with those between `start` and `end` mangled.
pub open spec fn mangled_bytes(s: Seq<u8>, start: int, end: int) -> Seq<u8> {
    Seq::new(
        s.len(),
        |i: int|
            if start <= i < end {
                mangled(s[i])
            } else {
                s[i]
            },
    )
}

/// Mangles the bytes between `start` and `end`.
pub fn mangle(bytes: &Vec<u8>, start: usize, end: usize) -> (r: Vec<u8>)
    requires
        start <= end <= bytes.len(),
    ensures
        r@ == mangled_bytes(bytes@, start as int, end as int),
{
    let mut r: Vec<u8> = Vec::new();
    let mut i: usize = 0;
    while i < bytes.len()
        invariant
            i <= bytes.len(),
            r.len() == i,
            forall|j: int|
                0 <= j < i ==> #[trigger] r[j] == mangled_bytes(
                    bytes@,
                    start as int,
                    end as int,
                )[j],
        decreases bytes.len() - i,
    {
        let b: u8 = bytes[i];
        if start <= i && i < end && b > 127 {
            r.push(0xC0u8 | (b >> 6));
        } else {
            r.push(b);
        }
        i += 1;
    }
    assert(r@ =~= mangled_bytes(bytes@, start as int, end as int));
    r
}

/// What `String::from_utf8_lossy` makes of bytes.
pub uninterp spec fn lossy_text(bytes: Seq<u8>) -> Seq<char>;

/// Calls `String::from_utf8_lossy`: the text of the bytes, with a replacement character for what
/// is no UTF-8. The decoding is not stated: the result is named.
#[verifier::external_body]
pub(crate) fn decode_lossy(bytes: &Vec<u8>) -> (r: String)
    ensures
        r@ == lossy_text(bytes@),
{
    String::from_utf8_lossy(bytes).into_owned()
}

/// Mangles the bytes of a text between `start` and `end` where the draw hits, and reads the result
/// as text; an empty text stays.
pub fn corrupt_encoding(s: &str, draw: Num, rate: Num, start: usize, end: usize) -> (r: String)
    requires
        start <= end <= s.spec_bytes().len(),
    ensures
        r@ == if s@.len() == 0 || !hits(draw, rate) {
            s@
        } else {
            lossy_text(mangled_bytes(s.spec_bytes(), start as int, end as int))
        },
{
    if s.unicode_len() == 0 || rate.le(draw) {
        return s.to_owned();
    }
    let bytes = s.as_bytes_vec();
    decode_lossy(&mangle(&bytes, start, end))
}

/// Draws by how many days a date is shifted: by no more than `max_days`, to either side.
pub fn draw_shift(max_days: i64) -> (r: i64)
    requires
        0 <= max_days,
    ensures
        -max_days <= r <= max_days,
{
    let d: u64 = draw_inclusive(0, 2 * (max_days as u64));
    (d as i128 - max_days as i128) as i64
}

/// Shifts a day by `shift` days, no more than `max_days` to either side, where the draw hits.
pub fn shift_day(day: i32, draw: Num, rate: Num, max_days: i64, shift: i32) -> (r: i32)
    requires
        -max_days <= shift <= max_days,
        max_days != 0 && hits(draw, rate) ==> i32::MIN <= day + shift <= i32::MAX,
    ensures
        -max_days <= r - day <= max_days,
        r == if max_days == 0 || !hits(draw, rate) {
            day as int
        } else {
            day + shift
        },
{
    if max_days == 0 || rate.le(draw) {
        day
    } else {
        day + shift
    }
}

/// Shifts a point in time by `shift` days of `per_day` units, no more than `max_days` to either
/// side, where the draw hits.
pub fn shift_time(time: i64, draw: Num, rate: Num, max_days: i64, shift: i64, per_day: i64) -> (r:
    i64)
    requires
        -max_days <= shift <= max_days,
        max_days != 0 && hits(draw, rate) ==> {
            &&& i64::MIN <= shift * per_day <= i64::MAX
            &&& i64::MIN <= time + shift * per_day <= i64::MAX
        },
    ensures
        r == if max_days == 0 || !hits(draw, rate) {
            time as int
        } else {
            time + shift * per_day
        },
{
    if max_days == 0 || rate.le(draw) {
        time
    } else {
        time + shift * per_day
    }
}

/// A deletion shortens a text by one character, an insertion lengthens it by one, and a truncation
/// leaves a proper beginning of it.
pub proof fn law_corruptions_change_length(s: Seq<char>, at: int, which: int, len: int)
    requires
        0 <= at < s.len(),
        0 <= which < 95,
        0 <= len < s.len(),
    ensures
        without_char(s, at).len() == s.len() - 1,
        with_char(s, at, which).len() == s.len() + 1,
        s.subrange(0, len).len() < s.len(),
        s.subrange(0, len).is_prefix_of(s),
{
    reveal_strlit(
        " !\"#$%&'()*+,-./0123456789:;<=>?@ABCDEFGHIJKLMNOPQRSTUVWXYZ[\\]^_`abcdefghijklmnopqrstuvwxyz{|}~",
    );
}

} // verus!
