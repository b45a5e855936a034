//! What degradation promises: which cells it touches, what it makes of them, and in which order.
use vstd::prelude::*;

use crate::dates::{day_fits, instant_fits, Instant, FIRST_DAY, LAST_DAY, OPEN_DAYS};
use crate::dq::{
    active, builtin_defaults, cell_passes_of, corruption_steps_of, declared_defaults, default_of,
    default_set, hits, mangled, mangled_bytes, own_or, own_quality, printable, replaced,
    replacement, row_passes_of, with_char, without_char, CellPass, CellsModel, ColumnQuality,
    CorruptionStep, DefaultModel, RowPass, MICROS_PER_DAY, MILLIS_PER_DAY,
};
use crate::models::{
    field_position, Corruptions, DataQualityModel, DefaultsMode, FieldModel, FieldType, Num,
    YamlModel,
};

verus! {

// ---------------------------------------------------------------------------
// Settings
// ---------------------------------------------------------------------------

/// A field's own setting counts before that of the dataset, which counts where the field has none.
pub proof fn law_own_settings_come_first<T>(own: Option<T>, general: Option<T>)
    ensures
        own is Some ==> own_or(own, general) == own,
        own is None ==> own_or(own, general) == general,
{
}

/// The settings of a column are those of the first field of its name, and a column without a field
/// has none of its own.
pub proof fn law_settings_belong_to_the_field_of_the_name(
    schema: Seq<FieldModel>,
    name: Seq<char>,
    i: int,
)
    ensures
        0 <= i < schema.len() && schema[i].name == name && (forall|j: int|
            0 <= j < i ==> (#[trigger] schema[j]).name != name) ==> own_quality(schema, name)
            == schema[i].quality && field_position(schema, name, 0) == Some(i),
        (forall|j: int| 0 <= j < schema.len() ==> (#[trigger] schema[j]).name != name)
            ==> own_quality(schema, name) is None,
{
    lemma_field_position(schema, name, 0);
}

proof fn lemma_field_position(schema: Seq<FieldModel>, name: Seq<char>, from: int)
    requires
        0 <= from <= schema.len(),
    ensures
        match field_position(schema, name, from) {
            Some(p) => from <= p < schema.len() && schema[p].name == name && forall|j: int|
                from <= j < p ==> (#[trigger] schema[j]).name != name,
            None => forall|j: int| from <= j < schema.len() ==> (#[trigger] schema[j]).name != name,
        },
    decreases schema.len() - from,
{
    if from < schema.len() {
        lemma_field_position(schema, name, from + 1);
    }
}

/// A positive rate has an effect; a rate of zero, a negative one and none have not.
pub proof fn law_positive_rates_count(rate: Option<Num>)
    ensures
        rate is None ==> !active(rate),
        rate is Some && !rate->0.nan() ==> (active(rate) <==> rate->0.key > 0),
{
}

/// A draw hits exactly where it lies below the rate, and a cell is replaced exactly where its draw
/// hits, by the default that was picked for it.
pub proof fn law_draws_below_the_rate_hit(draw: Num, rate: Num, pick: usize)
    requires
        !draw.nan(),
        !rate.nan(),
    ensures
        hits(draw, rate) <==> draw.key < rate.key,
        replacement(draw, rate, pick) is Some <==> draw.key < rate.key,
        draw.key < rate.key ==> replacement(draw, rate, pick) == Some(pick),
{
}

// ---------------------------------------------------------------------------
// Passes
// ---------------------------------------------------------------------------

/// Rows are repeated and left out at the declared rates, where these are positive, and repeated
/// before they are left out.
pub proof fn law_rows_are_degraded_as_declared(q: DataQualityModel, r: Num)
    requires
        !r.nan(),
        r.key > 0,
    ensures
        q.duplication == Some(r) <==> row_passes_of(q).contains(RowPass::Duplicate(r)),
        q.missing == Some(r) <==> row_passes_of(q).contains(RowPass::Drop(r)),
        forall|i: int, j: int|
            0 <= i < j < row_passes_of(q).len() ==> (#[trigger] row_passes_of(q)[i]) is Duplicate
                && (#[trigger] row_passes_of(q)[j]) is Drop,
{
    let s = row_passes_of(q);
    if q.duplication == Some(r) {
        assert(s[0] == RowPass::Duplicate(r));
    }
    if q.missing == Some(r) {
        assert(s[s.len() - 1] == RowPass::Drop(r));
    }
}

/// The place of a pass among the passes over a column.
pub open spec fn rank(p: CellPass) -> int {
    match p {
        CellPass::Nulls(_) => 0,
        CellPass::Defaults(_) => 1,
        CellPass::Corrupt(CorruptionStep::Deletion(_)) => 2,
        CellPass::Corrupt(CorruptionStep::Insertion(_)) => 3,
        CellPass::Corrupt(CorruptionStep::Truncation(_)) => 4,
        CellPass::Corrupt(CorruptionStep::Encoding(_)) => 5,
        CellPass::Corrupt(CorruptionStep::Noise { .. }) => 6,
        CellPass::Corrupt(CorruptionStep::DayShift { .. }) => 7,
    }
}

/// A column gets nulls first, then defaults, then corruptions, which for a text are deletions,
/// insertions, truncations and misreadings, in this order; no pass comes twice.
pub proof fn law_passes_come_in_order(q: ColumnQuality, i: int, j: int)
    requires
        0 <= i < j < cell_passes_of(q).len(),
    ensures
        rank(cell_passes_of(q)[i]) < rank(cell_passes_of(q)[j]),
{
}

/// A column gets nulls and defaults at the declared rates, where these are positive.
pub proof fn law_cells_are_degraded_as_declared(q: ColumnQuality, r: Num)
    requires
        !r.nan(),
        r.key > 0,
    ensures
        q.nulls == Some(r) <==> cell_passes_of(q).contains(CellPass::Nulls(r)),
        q.default_rate == Some(r) <==> cell_passes_of(q).contains(CellPass::Defaults(r)),
{
    let s = cell_passes_of(q);
    if q.nulls == Some(r) {
        assert(s[0] == CellPass::Nulls(r));
    }
    if q.default_rate == Some(r) {
        let at: int = if active(q.nulls) {
            1
        } else {
            0
        };
        assert(s[at] == CellPass::Defaults(r));
    }
}

/// A column gets exactly the corruptions that fit its type and that have a rate: texts lose, gain
/// and mangle characters, numbers get noise of the declared scale, dates and instants are shifted
/// by up to the declared days.
pub proof fn law_corruptions_fit_the_type(t: FieldType, c: Corruptions, r: Num)
    ensures
        ({
            let s = corruption_steps_of(t, c);
            let text = t == FieldType::String;
            let number = t == FieldType::Number;
            let time = t == FieldType::Date || t == FieldType::DateTime;
            &&& s.contains(CorruptionStep::Deletion(r)) <==> text && c.character_deletion == Some(r)
            &&& s.contains(CorruptionStep::Insertion(r)) <==> text && c.character_insertion == Some(
                r,
            )
            &&& s.contains(CorruptionStep::Truncation(r)) <==> text && c.truncation == Some(r)
            &&& s.contains(CorruptionStep::Encoding(r)) <==> text && c.encoding == Some(r)
            &&& s.contains((CorruptionStep::Noise { rate: r, scale: c.noise_scale })) <==> number
                && c.noise == Some(r)
            &&& s.contains((CorruptionStep::DayShift { rate: r, max_days: c.day_shift_max }))
                <==> time && c.day_shift == Some(r)
        }),
{
    let s = corruption_steps_of(t, c);
    if t == FieldType::String {
        let a = crate::dq::step_if(
            c.character_deletion,
            CorruptionStep::Deletion(c.character_deletion->0),
        ).len() as int;
        let b = crate::dq::step_if(
            c.character_insertion,
            CorruptionStep::Insertion(c.character_insertion->0),
        ).len() as int;
        let d = crate::dq::step_if(
            c.truncation,
            CorruptionStep::Truncation(c.truncation->0),
        ).len() as int;
        if c.character_deletion == Some(r) {
            assert(s[0] == CorruptionStep::Deletion(r));
        }
        if c.character_insertion == Some(r) {
            assert(s[a] == CorruptionStep::Insertion(r));
        }
        if c.truncation == Some(r) {
            assert(s[a + b] == CorruptionStep::Truncation(r));
        }
        if c.encoding == Some(r) {
            assert(s[a + b + d] == CorruptionStep::Encoding(r));
        }
    } else if t == FieldType::Number && c.noise == Some(r) {
        assert(s[0] == (CorruptionStep::Noise { rate: r, scale: c.noise_scale }));
    } else if (t == FieldType::Date || t == FieldType::DateTime) && c.day_shift == Some(r) {
        assert(s[0] == (CorruptionStep::DayShift { rate: r, max_days: c.day_shift_max }));
    }
}

/// Every corruption of a column is one of the passes over it.
pub proof fn law_every_corruption_is_a_pass(q: ColumnQuality, step: CorruptionStep)
    ensures
        cell_passes_of(q).contains(CellPass::Corrupt(step)) <==> q.corruptions is Some
            && corruption_steps_of(q.field_type, q.corruptions->0).contains(step),
{
    let s = cell_passes_of(q);
    if q.corruptions is Some {
        let all = corruption_steps_of(q.field_type, q.corruptions->0);
        let first = s.len() - all.len();
        if all.contains(step) {
            let k = choose|k: int| 0 <= k < all.len() && all[k] == step;
            assert(s[first + k] == CellPass::Corrupt(step));
        }
        if s.contains(CellPass::Corrupt(step)) {
            let k = choose|k: int| 0 <= k < s.len() && s[k] == CellPass::Corrupt(step);
            assert(k >= first);
            assert(all[k - first] == step);
        }
    }
}

// ---------------------------------------------------------------------------
// Defaults
// ---------------------------------------------------------------------------

proof fn lemma_declared(values: Seq<YamlModel>, shown: Seq<Seq<char>>, t: FieldType, n: int, i: int)
    requires
        0 <= i < n <= values.len(),
        default_of(values[i], shown[i], t) is Some,
    ensures
        declared_defaults(values, shown, t, n).contains(default_of(values[i], shown[i], t)->0),
    decreases n,
{
    let d = default_of(values[i], shown[i], t)->0;
    let before = declared_defaults(values, shown, t, n - 1);
    let now = declared_defaults(values, shown, t, n);
    if i < n - 1 {
        lemma_declared(values, shown, t, n - 1, i);
        let k = choose|k: int| 0 <= k < before.len() && before[k] == d;
        assert(now[k] == d);
    } else {
        assert(now[before.len() as int] == d);
    }
}

/// Every declared default that a column can hold is offered to it: any value as text, a number to
/// a number column, a flag to a flag column.
pub proof fn law_declared_defaults_are_offered(
    t: FieldType,
    values: Seq<YamlModel>,
    shown: Seq<Seq<char>>,
    mode: Option<DefaultsMode>,
    i: int,
)
    requires
        0 <= i < values.len(),
        shown.len() == values.len(),
    ensures
        ({
            let all = default_set(t, Some(values), shown, mode);
            &&& t == FieldType::String && values[i] is Text ==> all.contains(
                DefaultModel::Text(values[i]->Text_0),
            )
            &&& t == FieldType::String && !(values[i] is Text) ==> all.contains(
                DefaultModel::Text(shown[i]),
            )
            &&& t == FieldType::Number && values[i].num() is Some ==> all.contains(
                DefaultModel::Number(values[i].num()->0),
            )
            &&& t == FieldType::Boolean && values[i] is Bool ==> all.contains(
                DefaultModel::Flag(values[i]->Bool_0),
            )
        }),
{
    let declared = declared_defaults(values, shown, t, values.len() as int);
    let all = default_set(t, Some(values), shown, mode);
    if default_of(values[i], shown[i], t) is Some {
        lemma_declared(values, shown, t, values.len() as int, i);
        let d = default_of(values[i], shown[i], t)->0;
        let k = choose|k: int| 0 <= k < declared.len() && declared[k] == d;
        let at = all.len() - declared.len() + k;
        assert(all[at] == d);
    }
}

/// The usual defaults are offered before the declared ones, unless these override them; in
/// override mode nothing but declared defaults is offered.
pub proof fn law_usual_defaults_are_offered(
    t: FieldType,
    values: Option<Seq<YamlModel>>,
    shown: Seq<Seq<char>>,
    mode: Option<DefaultsMode>,
    d: DefaultModel,
)
    ensures
        mode != Some(DefaultsMode::Override) && builtin_defaults(t).contains(d) ==> default_set(
            t,
            values,
            shown,
            mode,
        ).contains(d),
        mode == Some(DefaultsMode::Override) && values is None ==> default_set(
            t,
            values,
            shown,
            mode,
        ).len() == 0,
        default_set(t, values, shown, mode).contains(d) ==> (mode != Some(DefaultsMode::Override)
            && builtin_defaults(t).contains(d)) || (values is Some && exists|i: int|
            0 <= i < values->0.len() && default_of(#[trigger] (values->0)[i], shown[i], t) == Some(
                d,
            )),
{
    let usual = builtin_defaults(t);
    let all = default_set(t, values, shown, mode);
    if mode != Some(DefaultsMode::Override) && usual.contains(d) {
        let k = choose|k: int| 0 <= k < usual.len() && usual[k] == d;
        assert(all[k] == d);
    }
    if all.contains(d) && !(mode != Some(DefaultsMode::Override) && usual.contains(d)) {
        let k = choose|k: int| 0 <= k < all.len() && all[k] == d;
        let first: int = if mode == Some(DefaultsMode::Override) {
            0
        } else {
            usual.len() as int
        };
        if k < first {
            assert(usual[k] == d);
        }
        lemma_declared_from(values->0, shown, t, values->0.len() as int, k - first);
    }
}

proof fn lemma_declared_from(
    values: Seq<YamlModel>,
    shown: Seq<Seq<char>>,
    t: FieldType,
    n: int,
    k: int,
)
    requires
        0 <= n <= values.len(),
        0 <= k < declared_defaults(values, shown, t, n).len(),
    ensures
        exists|i: int|
            0 <= i < n && default_of(#[trigger] values[i], shown[i], t) == Some(
                declared_defaults(values, shown, t, n)[k],
            ),
    decreases n,
{
    if n > 0 {
        if k < declared_defaults(values, shown, t, n - 1).len() {
            lemma_declared_from(values, shown, t, n - 1, k);
        } else {
            assert(default_of(values[n - 1], shown[n - 1], t) is Some);
        }
    }
}

/// The usual default dates are the first day of 1900, of 1970 and the last of 9999, counted from
/// 1970 by the leap years between.
pub proof fn law_usual_dates_are_marked_days()
    ensures
        builtin_defaults(FieldType::Date).contains(DefaultModel::Day(0)),
        builtin_defaults(FieldType::Date).contains(
            DefaultModel::Day((year_days(1899) - year_days(1969)) as i32),
        ),
        builtin_defaults(FieldType::Date).contains(
            DefaultModel::Day((year_days(9999) - year_days(1969) - 1) as i32),
        ),
{
    let s = builtin_defaults(FieldType::Date);
    assert(s[0] == DefaultModel::Day(0));
    assert(s[1] == DefaultModel::Day((year_days(1899) - year_days(1969)) as i32));
    assert(s[2] == DefaultModel::Day((year_days(9999) - year_days(1969) - 1) as i32));
}

/// The days of the first `y` years.
pub open spec fn year_days(y: int) -> int {
    365 * y + y / 4 - y / 100 + y / 400
}

/// A cell is changed exactly where a default of its kind is picked for it, to that default; every
/// other cell stays, and their number too.
pub proof fn law_replaced_cells_hold_the_default(
    c: CellsModel,
    defaults: Seq<DefaultModel>,
    replacements: Seq<Option<usize>>,
    i: int,
)
    ensures
        match c {
            CellsModel::Texts(s) => {
                let r = replaced(c, defaults, replacements);
                &&& r is Texts
                &&& r->Texts_0.len() == s.len()
                &&& 0 <= i < s.len() && replacements[i] is None ==> r->Texts_0[i] == s[i]
                &&& 0 <= i < s.len() && replacements[i] is Some
                    && defaults[replacements[i]->0 as int] is Text ==> r->Texts_0[i] == Some(
                    defaults[replacements[i]->0 as int]->Text_0,
                )
            },
            CellsModel::Numbers(s) => {
                let r = replaced(c, defaults, replacements);
                &&& r is Numbers
                &&& r->Numbers_0.len() == s.len()
                &&& 0 <= i < s.len() && replacements[i] is None ==> r->Numbers_0[i] == s[i]
                &&& 0 <= i < s.len() && replacements[i] is Some
                    && defaults[replacements[i]->0 as int] is Number ==> r->Numbers_0[i] == Some(
                    defaults[replacements[i]->0 as int]->Number_0,
                )
            },
            CellsModel::Flags(s) => {
                let r = replaced(c, defaults, replacements);
                &&& r is Flags
                &&& r->Flags_0.len() == s.len()
                &&& 0 <= i < s.len() && replacements[i] is None ==> r->Flags_0[i] == s[i]
                &&& 0 <= i < s.len() && replacements[i] is Some
                    && defaults[replacements[i]->0 as int] is Flag ==> r->Flags_0[i] == Some(
                    defaults[replacements[i]->0 as int]->Flag_0,
                )
            },
            CellsModel::Days(s) => {
                let r = replaced(c, defaults, replacements);
                &&& r is Days
                &&& r->Days_0.len() == s.len()
                &&& 0 <= i < s.len() && replacements[i] is None ==> r->Days_0[i] == s[i]
                &&& 0 <= i < s.len() && replacements[i] is Some
                    && defaults[replacements[i]->0 as int] is Day ==> r->Days_0[i] == Some(
                    defaults[replacements[i]->0 as int]->Day_0,
                )
            },
            CellsModel::Micros(s) => {
                let r = replaced(c, defaults, replacements);
                &&& r is Micros
                &&& r->Micros_0.len() == s.len()
                &&& 0 <= i < s.len() && replacements[i] is None ==> r->Micros_0[i] == s[i]
                &&& 0 <= i < s.len() && replacements[i] is Some
                    && defaults[replacements[i]->0 as int] is Micros ==> r->Micros_0[i] == Some(
                    defaults[replacements[i]->0 as int]->Micros_0,
                )
            },
        },
{
}

// ---------------------------------------------------------------------------
// Corruptions of texts
// ---------------------------------------------------------------------------

/// A deletion takes one character out and keeps all others in their order.
pub proof fn law_deletions_take_one_character(s: Seq<char>, at: int, i: int)
    requires
        0 <= at < s.len(),
        0 <= i < s.len() - 1,
    ensures
        without_char(s, at).len() == s.len() - 1,
        i < at ==> without_char(s, at)[i] == s[i],
        i >= at ==> without_char(s, at)[i] == s[i + 1],
{
}

/// An insertion puts one printable character of ASCII in and keeps all others in their order.
pub proof fn law_insertions_add_one_character(s: Seq<char>, at: int, which: int, i: int)
    requires
        0 <= at <= s.len(),
        0 <= which < printable().len(),
        0 <= i <= s.len(),
    ensures
        with_char(s, at, which).len() == s.len() + 1,
        i < at ==> with_char(s, at, which)[i] == s[i],
        i > at ==> with_char(s, at, which)[i] == s[i - 1],
        with_char(s, at, which)[at] == printable()[which],
{
}

/// A mangled byte is one that no ASCII text holds, and says no more of the byte than its upper
/// half; a byte of ASCII is never mangled.
pub proof fn law_mangling_spares_ascii(b: u8)
    ensures
        b < 128 ==> mangled(b) == b,
        128 <= b < 192 ==> mangled(b) == 0xC2,
        192 <= b ==> mangled(b) == 0xC3,
{
    assert(128 <= b < 192 ==> 0xC0u8 | (b >> 6) == 0xC2u8) by (bit_vector);
    assert(192 <= b ==> 0xC0u8 | (b >> 6) == 0xC3u8) by (bit_vector);
}

/// Only bytes between the two ends are mangled.
pub proof fn law_mangling_stays_within_its_ends(s: Seq<u8>, start: int, end: int, i: int)
    requires
        0 <= i < s.len(),
    ensures
        mangled_bytes(s, start, end).len() == s.len(),
        i < start || i >= end ==> mangled_bytes(s, start, end)[i] == s[i],
        start <= i < end ==> mangled_bytes(s, start, end)[i] == mangled(s[i]),
{
}

// ---------------------------------------------------------------------------
// Dates
// ---------------------------------------------------------------------------

/// A day has as many units as hours, minutes and seconds make.
pub proof fn law_days_have_their_units()
    ensures
        MILLIS_PER_DAY == 24 * 60 * 60 * 1_000,
        MICROS_PER_DAY == 24 * 60 * 60 * 1_000_000,
        MICROS_PER_DAY == MILLIS_PER_DAY * 1_000,
{
}

/// A drawn day lies between its bounds, both of which it may reach; without bounds it is a day of
/// the years 1 to 2999.
pub proof fn law_days_lie_between_their_bounds(day: int, after: Option<i64>, before: Option<i64>)
    ensures
        day_fits(day, after, before) && after is Some ==> after->0 <= day,
        day_fits(day, after, before) && before is Some ==> day <= before->0,
        after is Some && before is Some && after->0 <= day <= before->0 ==> day_fits(
            day,
            after,
            before,
        ),
        after is None && before is None ==> (day_fits(day, after, before) <==> -year_days(1969)
            <= day < year_days(2999) - year_days(1969)),
        after is Some && before is None && day_fits(day, after, before) ==> day - after->0
            <= OPEN_DAYS,
        after is None && before is Some && day_fits(day, after, before) ==> before->0 - day
            <= OPEN_DAYS,
        FIRST_DAY == -year_days(1969),
        LAST_DAY + 1 == year_days(2999) - year_days(1969),
{
}

/// A drawn point in time never lies before its lower bound and always before its upper one.
pub proof fn law_instants_lie_between_their_bounds(
    t: Instant,
    after: Option<Instant>,
    before: Option<Instant>,
)
    requires
        instant_fits(t, after, before),
    ensures
        after is Some ==> after->0.secs * 1_000_000_000 + after->0.nanos <= t.secs * 1_000_000_000
            + t.nanos,
        before is Some ==> t.secs * 1_000_000_000 + t.nanos < before->0.secs * 1_000_000_000
            + before->0.nanos,
        after is Some ==> t.nanos == after->0.nanos && (t.secs - after->0.secs) % 60 == 0,
        after is None && before is Some ==> t.nanos == before->0.nanos && (before->0.secs - t.secs)
            % 60 == 0,
{
}

/// A date that is hit moves by at most so many days, one that is not hit stays, and a missing one
/// is not touched.
pub proof fn law_shifts_stay_within_their_limit(
    draw: Num,
    rate: Num,
    max_days: int,
    unit: int,
    v: int,
    r: int,
)
    requires
        !draw.nan(),
        !rate.nan(),
        0 < unit,
        crate::corrupt::shifted(draw, rate, max_days, unit, v, r),
    ensures
        draw.key >= rate.key ==> r == v,
        max_days >= 0 ==> -(max_days * unit) <= r - v <= max_days * unit,
        (r - v) % unit == 0,
{
    if draw.key < rate.key {
        let days = choose|days: int|
            -max_days <= days <= max_days && r == v + #[trigger] (days * unit);
        assert(days * unit <= max_days * unit) by (nonlinear_arith)
            requires
                days <= max_days,
                0 < unit,
        ;
        assert(-(max_days * unit) <= days * unit) by (nonlinear_arith)
            requires
                -max_days <= days,
                0 < unit,
        ;
        vstd::arithmetic::div_mod::lemma_mod_multiples_basic(days, unit);
        assert((r - v) % unit == 0);
    } else {
        assert((r - v) % unit == 0) by {
            vstd::arithmetic::div_mod::lemma_mod_multiples_basic(0, unit);
        }
        if max_days >= 0 {
            assert(0 <= max_days * unit) by (nonlinear_arith)
                requires
                    0 <= max_days,
                    0 < unit,
            ;
        }
    }
}

/// Every text that is hit loses or gains one character, is cut off or is misread, as its step
/// says, and every other text stays.
pub proof fn law_texts_change_by_their_step(
    step: CorruptionStep,
    draw: Num,
    rate: Num,
    s: Seq<char>,
    r: Seq<char>,
)
    requires
        !draw.nan(),
        !rate.nan(),
        crate::corrupt::text_after(step, draw, s, r),
    ensures
        step == CorruptionStep::Deletion(rate) ==> r.len() == s.len() - if draw.key < rate.key
            && s.len() > 0 {
            1int
        } else {
            0int
        },
        step == CorruptionStep::Insertion(rate) ==> r.len() == s.len() + if draw.key < rate.key {
            1int
        } else {
            0int
        },
        step == CorruptionStep::Truncation(rate) ==> r.is_prefix_of(s) && (draw.key < rate.key
            && s.len() > 0 <==> r.len() < s.len()),
        draw.key >= rate.key && (step == CorruptionStep::Deletion(rate) || step
            == CorruptionStep::Insertion(rate) || step == CorruptionStep::Truncation(rate) || step
            == CorruptionStep::Encoding(rate)) ==> r == s,
        step is Noise || step is DayShift ==> r == s,
{
    if step == CorruptionStep::Deletion(rate) && draw.key < rate.key && s.len() > 0 {
        let at = choose|at: int| 0 <= at < s.len() && r == #[trigger] without_char(s, at);
        assert(r.len() == s.len() - 1);
    }
    if step == CorruptionStep::Insertion(rate) && draw.key < rate.key {
        let (at, which) = choose|at: int, which: int|
            0 <= at <= s.len() && 0 <= which < 95 && r == #[trigger] with_char(s, at, which);
        law_printable_characters_are_those_of_ascii(which);
        assert(r.len() == s.len() + 1);
    }
    if step == CorruptionStep::Truncation(rate) {
        if draw.key < rate.key && s.len() > 0 {
            let len = choose|len: int| 0 <= len < s.len() && r == #[trigger] s.subrange(0, len);
            assert(r.is_prefix_of(s));
        } else {
            assert(s.is_prefix_of(s)) by {
                assert(s.subrange(0, s.len() as int) =~= s);
            }
        }
    }
}

/// The characters that an insertion may add are the printable ones of ASCII, from the space to the
/// tilde, each once.
pub proof fn law_printable_characters_are_those_of_ascii(i: int)
    ensures
        printable().len() == 95,
        0 <= i < 95 ==> printable()[i] as int == 32 + i,
{
    reveal_strlit(
        " !\"#$%&'()*+,-./0123456789:;<=>?@ABCDEFGHIJKLMNOPQRSTUVWXYZ[\\]^_`abcdefghijklmnopqrstuvwxyz{|}~",
    );
}

} // verus!
