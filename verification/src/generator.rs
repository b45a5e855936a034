//! How a column of a field is generated: by which rule, from which cases, and with which texts.
use vstd::prelude::*;

use crate::constraints::{holds_value, within};
use crate::dates::{
    any_day_text, any_instant_text, bad_day, bad_instant, constant_day, constant_instant, day_of,
    instant_of, is_day_text, is_instant_text, Instant,
};
use crate::draws::draw_inclusive;
use crate::expand_variants::{differ, disagree, shared_type, unified_variant_type};
use crate::fakers;
use crate::fakers::{
    all_lorem, buzzwords, city_names, company_names, company_suffixes, country_codes,
    country_names, currency_codes, currency_names, currency_symbols, family_names, fills_plate,
    fills_some_plate, fills_some_template, fills_template, free_emails, given_names, glued,
    industries, is_any_text, is_bic, is_card_number, is_geohash, is_ipv4, is_ipv6, is_isbn,
    is_isin, is_mac_address, is_name, is_paragraph, is_password, is_sentence, is_titled_name,
    is_uuid, is_version, latitudes, longitudes, lorem_words, most_parts, phone_templates,
    professions, state_abbrs, street_names, time_zones, titles, user_agents, usernames,
    zip_templates,
};
use crate::message::{join3, problem, said, PartModel, Problem};
use crate::models::{
    arg_entries_model, clone_opt_yaml_value, default_field_model, default_field_variant_model,
    field_variants_model, fields_model, opt_arg_entries_model, yaml_values_model, ArgEntry,
    ArgEntryModel, CountSpec, Field, FieldModel, FieldType, FieldVariant, FieldVariantModel,
    Generator, Locale, Num, ParquetDatatype, YamlModel, YamlValue,
};
use crate::segment::{sum_counts, total_of};
use crate::text::{same_text, texts};

verus! {

// ---------------------------------------------------------------------------
// Counts
// ---------------------------------------------------------------------------

/// A count that a specification can give, when a normal draw has been rounded to `rounded`.
pub open spec fn count_fits(spec: CountSpec, rounded: i64, count: usize) -> bool {
    match spec {
        CountSpec::Fixed(n) => count == n,
        CountSpec::Uniform { min, max } => min <= count <= max,
        CountSpec::Normal { .. } => count == if rounded < 0 {
            0
        } else {
            rounded as usize
        },
    }
}

/// Draws a count. A normal draw comes rounded in `rounded`; what is below zero counts as zero.
pub fn sample_count(spec: &CountSpec, rounded: i64) -> (r: usize)
    requires
        *spec matches CountSpec::Uniform { min, max } ==> min <= max,
    ensures
        count_fits(*spec, rounded, r),
{
    match *spec {
        CountSpec::Fixed(n) => n,
        CountSpec::Uniform { min, max } => draw_inclusive(min as u64, max as u64) as usize,
        CountSpec::Normal { .. } => if rounded < 0 {
            0
        } else {
            rounded as usize
        },
    }
}

/// How many rows are left to generate behind rows that are there already.
pub fn fresh_rows(rows: usize, prefix: usize) -> (r: usize)
    ensures
        r == fresh_of(rows as int, prefix as int),
{
    if rows > prefix {
        rows - prefix
    } else {
        0
    }
}

// ---------------------------------------------------------------------------
// Cases drawn row by row
// ---------------------------------------------------------------------------

/// The first case, from `i` on, whose cumulative share lies above the draw; the last case where
/// none does.
pub open spec fn case_at(cumulative: Seq<Num>, draw: Num, i: int) -> int
    decreases cumulative.len() - i,
{
    if i < 0 || i >= cumulative.len() - 1 {
        cumulative.len() - 1
    } else if draw.below(cumulative[i]) {
        i
    } else {
        case_at(cumulative, draw, i + 1)
    }
}

/// How often a case was drawn among the first `n` rows.
pub open spec fn drawn(cases: Seq<usize>, case: int, n: int) -> int
    decreases n,
{
    if n <= 0 {
        0
    } else {
        drawn(cases, case, n - 1) + if cases[n - 1] == case {
            1int
        } else {
            0int
        }
    }
}

proof fn lemma_drawn_bound(cases: Seq<usize>, case: int, n: int)
    requires
        0 <= n,
    ensures
        0 <= drawn(cases, case, n) <= n,
    decreases n,
{
    if n > 0 {
        lemma_drawn_bound(cases, case, n - 1);
    }
}

fn find_case(cumulative: &Vec<Num>, draw: Num) -> (r: usize)
    requires
        cumulative.len() > 0,
    ensures
        r == case_at(cumulative@, draw, 0),
        r < cumulative.len(),
{
    let mut i: usize = 0;
    while i < cumulative.len() - 1
        invariant
            i <= cumulative.len() - 1,
            cumulative.len() > 0,
            case_at(cumulative@, draw, 0) == case_at(cumulative@, draw, i as int),
        decreases cumulative.len() - i,
    {
        if draw.lt(cumulative[i]) {
            return i;
        }
        i += 1;
    }
    i
}

/// The case of every row, and how often each case was drawn, from the cumulative shares of the
/// cases and one draw for each row.
pub fn draw_categorical(cumulative: &Vec<Num>, draws: &Vec<Num>) -> (r: (Vec<usize>, Vec<usize>))
    requires
        cumulative.len() > 0,
    ensures
        r.0@ == Seq::new(
            draws@.len(),
            |k: int| case_at(cumulative@, draws@[k], 0) as usize,
        ),
        forall|k: int| 0 <= k < r.0.len() ==> #[trigger] r.0[k] < cumulative.len(),
        r.1.len() == cumulative.len(),
        forall|c: int|
            0 <= c < r.1.len() ==> #[trigger] r.1[c] == drawn(r.0@, c, r.0.len() as int),
{
    let mut cases: Vec<usize> = Vec::new();
    let mut counts: Vec<usize> = Vec::new();
    let mut c: usize = 0;
    while c < cumulative.len()
        invariant
            c <= cumulative.len(),
            counts.len() == c,
            forall|j: int| 0 <= j < c ==> #[trigger] counts[j] == 0,
        decreases cumulative.len() - c,
    {
        counts.push(0);
        c += 1;
    }
    let mut k: usize = 0;
    while k < draws.len()
        invariant
            k <= draws.len(),
            cumulative.len() > 0,
            cases.len() == k,
            counts.len() == cumulative.len(),
            forall|j: int|
                0 <= j < k ==> #[trigger] cases[j] == case_at(cumulative@, draws@[j], 0)
                    && cases[j] < cumulative.len(),
            forall|c: int| 0 <= c < counts.len() ==> #[trigger] counts[c] == drawn(
                cases@,
                c,
                k as int,
            ),
        decreases draws.len() - k,
    {
        let i: usize = find_case(cumulative, draws[k]);
        let ghost before = cases@;
        proof {
            lemma_drawn_bound(cases@, i as int, k as int);
        }
        cases.push(i);
        let n: usize = counts[i];
        counts.set(i, n + 1);
        proof {
            assert forall|c: int| 0 <= c < counts.len() implies #[trigger] counts[c] == drawn(
                cases@,
                c,
                k + 1,
            ) by {
                lemma_drawn_prefix(before, i, c, k as int);
            }
        }
        k += 1;
    }
    assert(cases@ =~= Seq::new(
        draws@.len(),
        |k: int| case_at(cumulative@, draws@[k], 0) as usize,
    ));
    (cases, counts)
}

proof fn lemma_drawn_prefix(cases: Seq<usize>, last: usize, case: int, n: int)
    requires
        0 <= n <= cases.len(),
    ensures
        drawn(cases.push(last), case, n) == drawn(cases, case, n),
    decreases n,
{
    if n > 0 {
        lemma_drawn_prefix(cases, last, case, n - 1);
    }
}

/// For every row, how many rows before it drew the same case: the position of its value among the
/// values of that case.
pub fn scatter(cases: &Vec<usize>, n_cases: usize) -> (r: Vec<usize>)
    requires
        forall|k: int| 0 <= k < cases.len() ==> #[trigger] cases[k] < n_cases,
    ensures
        r.len() == cases.len(),
        forall|k: int| 0 <= k < r.len() ==> #[trigger] r[k] == drawn(cases@, cases[k] as int, k),
{
    let mut next: Vec<usize> = Vec::new();
    let mut c: usize = 0;
    while c < n_cases
        invariant
            c <= n_cases,
            next.len() == c,
            forall|j: int| 0 <= j < c ==> #[trigger] next[j] == 0,
        decreases n_cases - c,
    {
        next.push(0);
        c += 1;
    }
    let mut r: Vec<usize> = Vec::new();
    let mut k: usize = 0;
    while k < cases.len()
        invariant
            k <= cases.len(),
            next.len() == n_cases,
            forall|k: int| 0 <= k < cases.len() ==> #[trigger] cases[k] < n_cases,
            r.len() == k,
            forall|j: int| 0 <= j < k ==> #[trigger] r[j] == drawn(cases@, cases[j] as int, j),
            forall|c: int| 0 <= c < n_cases ==> #[trigger] next[c] == drawn(cases@, c, k as int),
        decreases cases.len() - k,
    {
        let i: usize = cases[k];
        assert(cases[k as int] < n_cases);
        proof {
            lemma_drawn_bound(cases@, i as int, k as int);
        }
        let o: usize = next[i];
        r.push(o);
        next.set(i, o + 1);
        k += 1;
    }
    r
}

proof fn lemma_drawn_grows(cases: Seq<usize>, case: int, m: int, n: int)
    requires
        0 <= m <= n,
    ensures
        drawn(cases, case, m) <= drawn(cases, case, n),
    decreases n,
{
    if m < n {
        lemma_drawn_grows(cases, case, m, n - 1);
    }
}

/// Every value of a case is used once: the position of a row's value lies among the values of its
/// case, and no two rows of a case share one.
pub proof fn law_scatter_uses_values_once(cases: Seq<usize>, i: int, j: int)
    requires
        0 <= i < j < cases.len(),
        cases[i] == cases[j],
    ensures
        drawn(cases, cases[i] as int, i) < drawn(cases, cases[j] as int, j),
        drawn(cases, cases[j] as int, j) < drawn(cases, cases[j] as int, cases.len() as int),
{
    lemma_drawn_grows(cases, cases[i] as int, i + 1, j);
    lemma_drawn_grows(cases, cases[j] as int, j + 1, cases.len() as int);
}

// ---------------------------------------------------------------------------
// Cases of a variant field
// ---------------------------------------------------------------------------

/// The cases among the first `n` whose value is in the set.
pub open spec fn cases_in(s: Seq<FieldVariantModel>, set: Seq<YamlModel>, n: int) -> Seq<
    FieldVariantModel,
>
    decreases n,
{
    if n <= 0 {
        Seq::empty()
    } else {
        let before = cases_in(s, set, n - 1);
        if s[n - 1].value is Some && set.contains(s[n - 1].value->0) {
            before.push(s[n - 1])
        } else {
            before
        }
    }
}

/// The cases of a variant field that remain under its restriction to a set of values.
pub open spec fn carrier(f: FieldModel) -> Seq<FieldVariantModel> {
    match f.one_of {
        Some(set) => cases_in(f.variants, set, f.variants.len() as int),
        None => f.variants,
    }
}

/// The field that generates one case of a variant field.
pub open spec fn case_generator(name: Seq<char>, t: FieldType, c: FieldVariantModel) -> FieldModel {
    FieldModel {
        name,
        field_type: Some(t),
        generator: c.generator,
        locale: c.locale,
        range: c.range,
        value: c.value,
        parquet: c.parquet,
        ..default_field_model()
    }
}

/// The fields that generate the cases of a variant field, or why they cannot be drawn from.
pub open spec fn case_generators(f: FieldModel) -> Result<Seq<FieldModel>, Seq<PartModel>> {
    let cases = carrier(f);
    if cases.len() == 0 {
        if f.one_of is Some {
            Err(
                said(
                    "variant field '"@ + f.name + "': `one_of` restricts to no declared cases"@,
                ),
            )
        } else {
            Err(said("variant field '"@ + f.name + "' has no cases"@))
        }
    } else {
        match shared_type(cases) {
            None => Err(
                said(
                    "variant field '"@ + f.name
                        + "': cases have inconsistent types (a heterogeneous variant should have lowered to a union)"@,
                ),
            ),
            Some(t) => Ok(
                Seq::new(cases.len(), |i: int| case_generator(f.name, t, cases[i])),
            ),
        }
    }
}

fn case_to_field(name: &str, t: FieldType, c: &FieldVariant) -> (r: Field)
    ensures
        r.model() == case_generator(name@, t, c.model()),
{
    let mut r = Field::default();
    r.name = name.to_owned();
    r.field_type = Some(t);
    r.generator = c.generator;
    r.locale = c.locale;
    r.range = c.range;
    r.value = clone_opt_yaml_value(&c.value);
    r.parquet = c.parquet;
    assert(r.model() == case_generator(name@, t, c.model()));
    r
}

fn carrier_cases(field: &Field) -> (r: Vec<FieldVariant>)
    ensures
        field_variants_model(r@) == carrier(field.model()),
{
    match &field.one_of {
        None => crate::models::clone_field_variants(&field.variants),
        Some(set) => {
            let ghost vm = field_variants_model(field.variants@);
            let ghost sm = yaml_values_model(set@);
            let mut r: Vec<FieldVariant> = Vec::new();
            let mut i: usize = 0;
            assert(field_variants_model(r@) =~= Seq::empty());
            while i < field.variants.len()
                invariant
                    i <= field.variants.len(),
                    vm == field_variants_model(field.variants@),
                    sm == yaml_values_model(set@),
                    field_variants_model(r@) == cases_in(vm, sm, i as int),
                decreases field.variants.len() - i,
            {
                let c = &field.variants[i];
                assert(vm[i as int] == c.model());
                if let Some(v) = &c.value {
                    if holds_value(set, v) {
                        let ghost before = r@;
                        let copy = c.clone();
                        r.push(copy);
                        assert(field_variants_model(r@) =~= field_variants_model(before).push(
                            copy.model(),
                        ));
                    }
                }
                i += 1;
            }
            r
        },
    }
}

/// The fields that generate the cases of a variant field with their shares.
#[derive(Debug)]
pub struct CasePlan {
    pub fields: Vec<Field>,
    pub ratios: Vec<Option<Num>>,
}

/// The shares of cases.
pub open spec fn case_ratios(s: Seq<FieldVariantModel>) -> Seq<Option<Num>> {
    Seq::new(s.len(), |i: int| s[i].ratio)
}

/// The fields that generate the cases of a variant field: those of its cases that its set of
/// values leaves, all of one type.
pub fn build_same_type_variant_column(field: &Field) -> (r: Result<CasePlan, Problem>)
    ensures
        match case_generators(field.model()) {
            Ok(s) => r matches Ok(p) && fields_model(p.fields@) == s && p.ratios@ == case_ratios(
                carrier(field.model()),
            ),
            Err(m) => r matches Err(p) && p.model() == m,
        },
{
    let ghost fm = field.model();
    let cases = carrier_cases(field);
    let ghost cm = field_variants_model(cases@);
    assert(cm.len() == cases.len());
    if cases.len() == 0 {
        return if field.one_of.is_some() {
            Err(
                problem(
                    join3(
                        "variant field '",
                        &field.name,
                        "': `one_of` restricts to no declared cases",
                    ),
                ),
            )
        } else {
            Err(problem(join3("variant field '", &field.name, "' has no cases")))
        };
    }
    let t = match unified_variant_type(&cases) {
        Some(t) => t,
        None => {
            return Err(
                problem(
                    join3(
                        "variant field '",
                        &field.name,
                        "': cases have inconsistent types (a heterogeneous variant should have lowered to a union)",
                    ),
                ),
            );
        },
    };
    let ghost want = Seq::new(cm.len(), |i: int| case_generator(fm.name, t, cm[i]));
    let mut fields: Vec<Field> = Vec::new();
    let mut ratios: Vec<Option<Num>> = Vec::new();
    let mut i: usize = 0;
    while i < cases.len()
        invariant
            i <= cases.len(),
            cm == field_variants_model(cases@),
            fm.name == field.name@,
            fields.len() == i,
            ratios.len() == i,
            forall|j: int|
                0 <= j < i ==> (#[trigger] fields[j]).model() == case_generator(
                    fm.name,
                    t,
                    cm[j],
                ),
            forall|j: int| 0 <= j < i ==> #[trigger] ratios[j] == cm[j].ratio,
        decreases cases.len() - i,
    {
        assert(cm[i as int] == cases[i as int].model());
        fields.push(case_to_field(&field.name, t, &cases[i]));
        ratios.push(cases[i].ratio);
        i += 1;
    }
    assert(fields_model(fields@) =~= want);
    assert(ratios@ =~= case_ratios(cm));
    Ok(CasePlan { fields, ratios })
}

// ---------------------------------------------------------------------------
// Constants
// ---------------------------------------------------------------------------

/// A constant as a value of a column.
#[derive(Debug)]
pub enum Constant {
    Number(Num),
    Flag(bool),
    Text(String),
    Day(i32),
    Instant(Instant),
}

/// What a [`Constant`] says, free of representation.
pub enum ConstantModel {
    Number(Num),
    Flag(bool),
    Text(Seq<char>),
    Day(i32),
    Instant(i64, u32),
}

impl Constant {
    /// The content of this value, free of representation.
    pub open spec fn model(self) -> ConstantModel {
        match self {
            Constant::Number(n) => ConstantModel::Number(n),
            Constant::Flag(b) => ConstantModel::Flag(b),
            Constant::Text(s) => ConstantModel::Text(s@),
            Constant::Day(d) => ConstantModel::Day(d),
            Constant::Instant(t) => ConstantModel::Instant(t.secs, t.nanos),
        }
    }
}

/// A constant as a value of a column of the given type, or why it is none. `day` and `instant` say
/// what its text reads as.
pub open spec fn constant_of(
    t: FieldType,
    v: YamlModel,
    day: Result<i32, Seq<char>>,
    instant: Result<(i64, u32), Seq<char>>,
) -> Result<ConstantModel, Seq<char>> {
    match t {
        FieldType::Number => match v.num() {
            Some(n) => Ok(ConstantModel::Number(n)),
            None => Err("constant `value` for number field is not numeric"@),
        },
        FieldType::Boolean => match v {
            YamlModel::Bool(b) => Ok(ConstantModel::Flag(b)),
            _ => Err("constant `value` for boolean field is not a boolean"@),
        },
        FieldType::String => match v {
            YamlModel::Text(s) => Ok(ConstantModel::Text(s)),
            _ => Err("constant `value` for string field is not a string"@),
        },
        FieldType::Date => match v {
            YamlModel::Text(s) => match day {
                Ok(d) => Ok(ConstantModel::Day(d)),
                Err(e) => Err(bad_day(s, e)),
            },
            _ => Err("constant `value` for date field must be a string (YYYY-MM-DD)"@),
        },
        FieldType::DateTime => match v {
            YamlModel::Text(s) => match instant {
                Ok((secs, nanos)) => Ok(ConstantModel::Instant(secs, nanos)),
                Err(e) => Err(bad_instant(s, e)),
            },
            _ => Err("constant `value` for date_time field must be a string (RFC 3339)"@),
        },
        _ => Err("constant `value` is not supported for object/list/variant/union fields"@),
    }
}

/// The text of a constant; empty for other constants.
pub open spec fn constant_text(v: YamlModel) -> Seq<char> {
    match v {
        YamlModel::Text(s) => s,
        _ => Seq::empty(),
    }
}

/// A constant as a value of a column of the given type.
pub fn constant_column(t: &FieldType, v: &YamlValue) -> (r: Result<Constant, String>)
    ensures
        ({
            let s = constant_text(v.model());
            match constant_of(*t, v.model(), day_of(s), instant_of(s)) {
                Ok(c) => r matches Ok(x) && x.model() == c,
                Err(m) => r matches Err(e) && e@ == m,
            }
        }),
{
    match *t {
        FieldType::Number => match v.as_num() {
            Some(n) => Ok(Constant::Number(n)),
            None => Err("constant `value` for number field is not numeric".to_owned()),
        },
        FieldType::Boolean => match v.as_bool() {
            Some(b) => Ok(Constant::Flag(b)),
            None => Err("constant `value` for boolean field is not a boolean".to_owned()),
        },
        FieldType::String => match v.as_str() {
            Some(s) => Ok(Constant::Text(s.to_owned())),
            None => Err("constant `value` for string field is not a string".to_owned()),
        },
        FieldType::Date => match v.as_str() {
            Some(s) => match constant_day(s) {
                Ok(d) => Ok(Constant::Day(d)),
                Err(e) => Err(e),
            },
            None => Err(
                "constant `value` for date field must be a string (YYYY-MM-DD)".to_owned(),
            ),
        },
        FieldType::DateTime => match v.as_str() {
            Some(s) => match constant_instant(s) {
                Ok(d) => Ok(Constant::Instant(d)),
                Err(e) => Err(e),
            },
            None => Err(
                "constant `value` for date_time field must be a string (RFC 3339)".to_owned(),
            ),
        },
        _ => Err(
            "constant `value` is not supported for object/list/variant/union fields".to_owned(),
        ),
    }
}

// ---------------------------------------------------------------------------
// Texts
// ---------------------------------------------------------------------------

/// The value of the argument with the given name, from `i` on.
pub open spec fn arg_at(args: Seq<ArgEntryModel>, name: Seq<char>, i: int) -> Option<YamlModel>
    decreases args.len() - i,
{
    if i < 0 || i >= args.len() {
        None
    } else if args[i].key == name {
        Some(args[i].value)
    } else {
        arg_at(args, name, i + 1)
    }
}

/// The value of the argument with the given name.
pub open spec fn arg_of(args: Option<Seq<ArgEntryModel>>, name: Seq<char>) -> Option<YamlModel> {
    match args {
        Some(a) => arg_at(a, name, 0),
        None => None,
    }
}

/// Finds the value of the argument with the given name.
pub(crate) fn find_arg<'a>(args: &'a Option<Vec<ArgEntry>>, name: &str) -> (r: Option<&'a YamlValue>)
    ensures
        match r {
            Some(v) => arg_of(opt_arg_entries_model(*args), name@) == Some(v.model()),
            None => arg_of(opt_arg_entries_model(*args), name@) is None,
        },
{
    match args {
        None => None,
        Some(a) => {
            let ghost am = arg_entries_model(a@);
            let mut i: usize = 0;
            while i < a.len()
                invariant
                    i <= a.len(),
                    am == arg_entries_model(a@),
                    opt_arg_entries_model(*args) == Some(am),
                    arg_at(am, name@, 0) == arg_at(am, name@, i as int),
                decreases a.len() - i,
            {
                assert(am[i as int] == a[i as int].model());
                if same_text(&a[i].key, name) {
                    return Some(&a[i].value);
                }
                i += 1;
            }
            None
        },
    }
}

/// An argument as a whole number, or a default.
pub open spec fn count_arg(args: Option<Seq<ArgEntryModel>>, name: Seq<char>, default: usize) -> usize {
    match arg_of(args, name) {
        Some(v) => match v.count() {
            Some(n) => n as usize,
            None => default,
        },
        None => default,
    }
}

fn read_count(args: &Option<Vec<ArgEntry>>, name: &str, default: usize) -> (r: usize)
    ensures
        r == count_arg(opt_arg_entries_model(*args), name@, default),
{
    match find_arg(args, name) {
        Some(v) => match v.as_u64() {
            Some(n) => n as usize,
            None => default,
        },
        None => default,
    }
}

/// The range of counts that the arguments `min` and `max` give, with defaults.
pub fn arg_range(args: &Option<Vec<ArgEntry>>, default_min: usize, default_max: usize) -> (r: (
    usize,
    usize,
))
    ensures
        r.0 == count_arg(opt_arg_entries_model(*args), "min"@, default_min),
        r.1 == count_arg(opt_arg_entries_model(*args), "max"@, default_max),
{
    (read_count(args, "min", default_min), read_count(args, "max", default_max))
}

/// The default range of counts of a generator that makes several words, sentences or characters.
pub open spec fn default_range(g: Generator) -> Option<(usize, usize)> {
    match g {
        Generator::Sentence => Some((5, 10)),
        Generator::Paragraph => Some((3, 6)),
        Generator::Words => Some((3, 8)),
        Generator::Sentences => Some((2, 5)),
        Generator::Paragraphs => Some((2, 4)),
        Generator::Password => Some((8, 20)),
        _ => None,
    }
}

fn range_of(g: &Generator) -> (r: Option<(usize, usize)>)
    ensures
        r == default_range(*g),
{
    match *g {
        Generator::Sentence => Some((5, 10)),
        Generator::Paragraph => Some((3, 6)),
        Generator::Words => Some((3, 8)),
        Generator::Sentences => Some((2, 5)),
        Generator::Paragraphs => Some((2, 4)),
        Generator::Password => Some((8, 20)),
        _ => None,
    }
}

/// What drawing a text gives.
#[derive(Debug)]
pub enum TextDraw {
    Text(String),
    /// The text of a random number, with four decimals; its sign is dropped where it is positive.
    Decimal { positive: bool },
    /// There is no count to draw: none lies between the arguments `min` and `max`, or `max` is
    /// more than a list can hold.
    NoCount,
}

/// Where a text comes from.
#[derive(Debug)]
pub enum TextSource {
    /// Any text.
    Anything,
    /// The texts of a generator in a locale.
    Local { generator: Generator, locale: Locale },
    /// The texts of a generator in a locale, of at least `min` and fewer than `max` parts.
    Counted { generator: Generator, locale: Locale, min: usize, max: usize },
    /// The texts of a generator that knows no locale.
    Plain { generator: Generator },
    /// Geohashes of a length.
    Geohash { precision: u8 },
    /// Numbers in a digit template.
    Template { template: String },
    /// Numbers with four decimals.
    Decimal { positive: bool },
    /// There is no count to draw.
    NoCount,
}

/// Where a text comes from.
#[verifier::ext_equal]
pub enum TextSourceModel {
    Anything,
    Local { generator: Generator, locale: Locale },
    Counted { generator: Generator, locale: Locale, min: usize, max: usize },
    Plain { generator: Generator },
    Geohash { precision: u8 },
    Template { template: Seq<char> },
    Decimal { positive: bool },
    NoCount,
}

impl TextSource {
    pub open spec fn model(self) -> TextSourceModel {
        match self {
            TextSource::Anything => TextSourceModel::Anything,
            TextSource::Local { generator, locale } => TextSourceModel::Local { generator, locale },
            TextSource::Counted { generator, locale, min, max } => TextSourceModel::Counted {
                generator,
                locale,
                min,
                max,
            },
            TextSource::Plain { generator } => TextSourceModel::Plain { generator },
            TextSource::Geohash { precision } => TextSourceModel::Geohash { precision },
            TextSource::Template { template } => TextSourceModel::Template { template: template@ },
            TextSource::Decimal { positive } => TextSourceModel::Decimal { positive },
            TextSource::NoCount => TextSourceModel::NoCount,
        }
    }
}

/// The digit template of a formatted number.
pub open spec fn template_of(args: Option<Seq<ArgEntryModel>>) -> Seq<char> {
    match arg_of(args, "format"@) {
        Some(YamlModel::Text(s)) => s,
        _ => "###"@,
    }
}

/// The length of a geohash.
pub open spec fn precision_of(args: Option<Seq<ArgEntryModel>>) -> u8 {
    match arg_of(args, "precision"@) {
        Some(v) => match v.count() {
            Some(n) => n as u8,
            None => 6,
        },
        None => 6,
    }
}

/// The locale that decides what a licence plate looks like.
pub open spec fn plate_locale(locale: Locale) -> Locale {
    match locale {
        Locale::ItIt | Locale::NlNl => locale,
        _ => Locale::FrFr,
    }
}

/// Where the texts of a generator come from; of any text without one. English is the default
/// locale.
pub open spec fn source_of(
    g: Option<Generator>,
    locale: Option<Locale>,
    args: Option<Seq<ArgEntryModel>>,
) -> TextSourceModel {
    let loc = match locale {
        Some(l) => l,
        None => Locale::En,
    };
    match g {
        None => TextSourceModel::Anything,
        Some(x) => match default_range(x) {
            Some((lo, hi)) => {
                let min = count_arg(args, "min"@, lo);
                let max = count_arg(args, "max"@, hi);
                if min < max && max <= most_parts() {
                    TextSourceModel::Counted { generator: x, locale: loc, min, max }
                } else {
                    TextSourceModel::NoCount
                }
            },
            None => match x {
                Generator::PositiveDecimal => TextSourceModel::Decimal { positive: true },
                Generator::Decimal => TextSourceModel::Decimal { positive: false },
                Generator::NumberWithFormat => TextSourceModel::Template {
                    template: template_of(args),
                },
                Generator::Geohash => TextSourceModel::Geohash { precision: precision_of(args) },
                Generator::LicencePlate => TextSourceModel::Local {
                    generator: x,
                    locale: plate_locale(loc),
                },
                _ => if x.is_localised() {
                    TextSourceModel::Local { generator: x, locale: loc }
                } else {
                    TextSourceModel::Plain { generator: x }
                },
            },
        },
    }
}

/// The generator makes the kind of text that the source asks for, and there is a count to draw.
pub open spec fn drawable(s: TextSourceModel) -> bool {
    match s {
        TextSourceModel::Local { generator, .. } => generator.is_localised() && default_range(
            generator,
        ) is None,
        TextSourceModel::Counted { generator, min, max, .. } => {
            &&& default_range(generator) is Some
            &&& min < max
            &&& max <= most_parts()
        },
        TextSourceModel::Plain { generator } => !generator.is_localised() && default_range(
            generator,
        ) is None,
        _ => true,
    }
}

/// At least `min` and fewer than `max` lorem words with spaces between them.
pub open spec fn is_phrase(locale: Locale, text: Seq<char>, min: int, max: int) -> bool {
    exists|parts: Seq<Seq<char>>|
        {
            &&& min <= parts.len() < max
            &&& all_lorem(locale, parts)
            &&& text == #[trigger] glued(parts, " "@, parts.len() as int)
        }
}

/// Sentences of four to nine words with spaces between them.
pub open spec fn is_text(locale: Locale, text: Seq<char>, min: int, max: int) -> bool {
    exists|parts: Seq<Seq<char>>|
        {
            &&& min <= parts.len() < max
            &&& text == #[trigger] glued(parts, " "@, parts.len() as int)
            &&& forall|i: int| 0 <= i < parts.len() ==> is_sentence(
                locale,
                #[trigger] parts[i],
                4,
                10,
            )
        }
}

/// Paragraphs of four to six sentences with empty lines between them.
pub open spec fn is_page(locale: Locale, text: Seq<char>, min: int, max: int) -> bool {
    exists|parts: Seq<Seq<char>>|
        {
            &&& min <= parts.len() < max
            &&& text == #[trigger] glued(parts, "\n\n"@, parts.len() as int)
            &&& forall|i: int| 0 <= i < parts.len() ==> is_paragraph(
                locale,
                #[trigger] parts[i],
                4,
                7,
            )
        }
}

/// The text has the parts that its generator was asked for.
pub open spec fn has_parts(
    g: Generator,
    locale: Locale,
    text: Seq<char>,
    min: int,
    max: int,
) -> bool {
    match g {
        Generator::Sentence => is_sentence(locale, text, min, max),
        Generator::Paragraph => is_paragraph(locale, text, min, max),
        Generator::Words => is_phrase(locale, text, min, max),
        Generator::Sentences => is_text(locale, text, min, max),
        Generator::Paragraphs => is_page(locale, text, min, max),
        _ => is_password(text, min, max),
    }
}

/// A licence plate of the country that the locale stands for.
pub open spec fn is_plate(locale: Locale, text: Seq<char>) -> bool {
    match locale {
        Locale::NlNl => {
            ||| fills_plate("$$-###-$"@, text)
            ||| fills_plate("$-###-$$"@, text)
            ||| fills_plate("$$$-##-$"@, text)
        },
        _ => fills_plate("$$-###-$$"@, text),
    }
}

/// What a generator that depends on the locale can give.
pub open spec fn is_local(g: Generator, locale: Locale, text: Seq<char>) -> bool {
    match g {
        Generator::FirstName => given_names(locale).contains(text),
        Generator::LastName => family_names(locale).contains(text),
        Generator::Name => is_name(locale, given_names(locale), family_names(locale), text),
        Generator::NameWithTitle => is_titled_name(
            locale,
            titles(locale),
            given_names(locale),
            family_names(locale),
            text,
        ),
        Generator::Word => lorem_words(locale).contains(text),
        Generator::CompanyName => company_names(locale).contains(text),
        Generator::CompanySuffix => company_suffixes(locale).contains(text),
        Generator::Industry => industries(locale).contains(text),
        Generator::Profession => professions(locale).contains(text),
        Generator::Buzzword => buzzwords(locale).contains(text),
        Generator::CityName => city_names(locale).contains(text),
        Generator::CountryName => country_names(locale).contains(text),
        Generator::StreetName => street_names(locale).contains(text),
        Generator::ZipCode => fills_some_plate(zip_templates(locale), text),
        Generator::StateAbbr => state_abbrs(locale).contains(text),
        Generator::PhoneNumber => fills_some_template(phone_templates(locale), text),
        _ => is_plate(locale, text),
    }
}

/// What a generator that knows no locale can give.
pub open spec fn is_plain(g: Generator, text: Seq<char>) -> bool {
    match g {
        Generator::Email => free_emails(Locale::En).contains(text),
        Generator::Username => usernames(Locale::En).contains(text),
        Generator::IPv4 => is_ipv4(text),
        Generator::IPv6 => is_ipv6(text),
        Generator::MacAddress => is_mac_address(text),
        Generator::UserAgent => user_agents(Locale::En).contains(text),
        Generator::CountryCode => country_codes(Locale::En).contains(text),
        Generator::TimeZone => time_zones(Locale::En).contains(text),
        Generator::CreditCardNumber => is_card_number(text),
        Generator::Bic => is_bic(text),
        Generator::CurrencyCode => currency_codes(Locale::En).contains(text),
        Generator::CurrencyName => currency_names(Locale::En).contains(text),
        Generator::CurrencySymbol => currency_symbols(Locale::En).contains(text),
        Generator::Latitude => latitudes(Locale::En).contains(text),
        Generator::Longitude => longitudes(Locale::En).contains(text),
        Generator::Uuid => is_uuid(text),
        Generator::Isin => is_isin(text),
        Generator::Isbn => is_isbn(text),
        Generator::Semver => is_version(text),
        Generator::Date => is_day_text(text),
        Generator::DateTime => is_instant_text(text),
        _ => is_any_text(text),
    }
}

/// What a source may give.
pub open spec fn comes_from(s: TextSourceModel, r: TextDraw) -> bool {
    match s {
        TextSourceModel::NoCount => r is NoCount,
        TextSourceModel::Decimal { positive } => r == (TextDraw::Decimal { positive }),
        TextSourceModel::Anything => r matches TextDraw::Text(t) && is_any_text(t@),
        TextSourceModel::Local { generator, locale } => r matches TextDraw::Text(t) && is_local(
            generator,
            locale,
            t@,
        ),
        TextSourceModel::Plain { generator } => r matches TextDraw::Text(t) && is_plain(
            generator,
            t@,
        ),
        TextSourceModel::Template { template } => r matches TextDraw::Text(t) && fills_template(
            template,
            t@,
        ),
        TextSourceModel::Geohash { precision } => r matches TextDraw::Text(t) && is_geohash(
            t@,
            precision as int,
        ),
        TextSourceModel::Counted { generator, locale, min, max } => r matches TextDraw::Text(t)
            && has_parts(generator, locale, t@, min as int, max as int),
    }
}

fn joined(parts: &Vec<String>, separator: &str) -> (r: String)
    ensures
        r@ == glued(texts(parts@), separator@, parts.len() as int),
{
    let mut r = String::new();
    let mut i: usize = 0;
    while i < parts.len()
        invariant
            i <= parts.len(),
            r@ == glued(texts(parts@), separator@, i as int),
        decreases parts.len() - i,
    {
        assert(texts(parts@)[i as int] == parts[i as int]@);
        if i > 0 {
            r = r.concat(separator);
        }
        r = r.concat(&parts[i]);
        proof {
            assert(i == 0 ==> r@ =~= parts[0]@);
        }
        i += 1;
    }
    r
}

fn counted_text(g: &Generator, locale: Locale, min: usize, max: usize) -> (r: String)
    requires
        min < max,
        max <= most_parts(),
    ensures
        has_parts(*g, locale, r@, min as int, max as int),
{
    match *g {
        Generator::Sentence => fakers::sentence(locale, min, max),
        Generator::Paragraph => fakers::paragraph(locale, min, max),
        Generator::Words => {
            let parts = fakers::words(locale, min, max);
            let r = joined(&parts, " ");
            proof {
                let all = texts(parts@);
                assert forall|i: int| 0 <= i < all.len() implies lorem_words(locale).contains(
                    #[trigger] all[i],
                ) by {
                    assert(lorem_words(locale).contains(parts[i]@));
                }
                assert(r@ == glued(all, " "@, all.len() as int));
            }
            r
        },
        Generator::Sentences => {
            let parts = fakers::sentences(locale, min, max);
            let r = joined(&parts, " ");
            proof {
                let all = texts(parts@);
                assert forall|i: int| 0 <= i < all.len() implies is_sentence(
                    locale,
                    #[trigger] all[i],
                    4,
                    10,
                ) by {
                    assert(is_sentence(locale, parts[i]@, 4, 10));
                }
                assert(r@ == glued(all, " "@, all.len() as int));
            }
            r
        },
        Generator::Paragraphs => {
            let parts = fakers::paragraphs(locale, min, max);
            let r = joined(&parts, "\n\n");
            proof {
                let all = texts(parts@);
                assert forall|i: int| 0 <= i < all.len() implies is_paragraph(
                    locale,
                    #[trigger] all[i],
                    4,
                    7,
                ) by {
                    assert(is_paragraph(locale, parts[i]@, 4, 7));
                }
                assert(r@ == glued(all, "\n\n"@, all.len() as int));
            }
            r
        },
        _ => fakers::password(min, max),
    }
}

fn local_text(g: &Generator, locale: Locale) -> (r: String)
    ensures
        is_local(*g, locale, r@),
{
    match *g {
        Generator::FirstName => fakers::first_name(locale),
        Generator::LastName => fakers::last_name(locale),
        Generator::Name => fakers::full_name(locale),
        Generator::NameWithTitle => fakers::name_with_title(locale),
        Generator::Word => fakers::word(locale),
        Generator::CompanyName => fakers::company_name(locale),
        Generator::CompanySuffix => fakers::company_suffix(locale),
        Generator::Industry => fakers::industry(locale),
        Generator::Profession => fakers::profession(locale),
        Generator::Buzzword => fakers::buzzword(locale),
        Generator::CityName => fakers::city_name(locale),
        Generator::CountryName => fakers::country_name(locale),
        Generator::StreetName => fakers::street_name(locale),
        Generator::ZipCode => fakers::zip_code(locale),
        Generator::StateAbbr => fakers::state_abbr(locale),
        Generator::PhoneNumber => fakers::phone_number(locale),
        _ => match locale {
            Locale::ItIt => fakers::licence_plate_it_it(),
            Locale::NlNl => fakers::licence_plate_nl_nl(),
            _ => fakers::licence_plate_fr_fr(),
        },
    }
}

fn plain_text(g: &Generator) -> (r: String)
    ensures
        is_plain(*g, r@),
{
    match *g {
        Generator::Email => fakers::email(),
        Generator::Username => fakers::username(),
        Generator::IPv4 => fakers::ipv4(),
        Generator::IPv6 => fakers::ipv6(),
        Generator::MacAddress => fakers::mac_address(),
        Generator::UserAgent => fakers::user_agent(),
        Generator::CountryCode => fakers::country_code(),
        Generator::TimeZone => fakers::time_zone(),
        Generator::CreditCardNumber => fakers::credit_card_number(),
        Generator::Bic => fakers::bic(),
        Generator::CurrencyCode => fakers::currency_code(),
        Generator::CurrencyName => fakers::currency_name(),
        Generator::CurrencySymbol => fakers::currency_symbol(),
        Generator::Latitude => fakers::latitude(),
        Generator::Longitude => fakers::longitude(),
        Generator::Uuid => fakers::any_uuid(),
        Generator::Isin => fakers::isin(),
        Generator::Isbn => fakers::isbn(),
        Generator::Semver => fakers::any_version(),
        Generator::Date => any_day_text(),
        Generator::DateTime => any_instant_text(),
        _ => fakers::any_text(),
    }
}

fn read_template(args: &Option<Vec<ArgEntry>>) -> (r: String)
    ensures
        r@ == template_of(opt_arg_entries_model(*args)),
{
    match find_arg(args, "format") {
        Some(v) => match v.as_str() {
            Some(s) => s.to_owned(),
            None => "###".to_owned(),
        },
        None => "###".to_owned(),
    }
}

fn read_precision(args: &Option<Vec<ArgEntry>>) -> (r: u8)
    ensures
        r == precision_of(opt_arg_entries_model(*args)),
{
    match find_arg(args, "precision") {
        Some(v) => match v.as_u64() {
            Some(n) => n as u8,
            None => 6,
        },
        None => 6,
    }
}

/// Where the texts of a generator come from: which kind of text is asked for, in which locale, and
/// with which arguments.
pub fn text_source(g: Option<Generator>, locale: Option<Locale>, args: &Option<Vec<ArgEntry>>) -> (r:
    TextSource)
    ensures
        r.model() == source_of(g, locale, opt_arg_entries_model(*args)),
        drawable(r.model()),
{
    let loc = match locale {
        Some(l) => l,
        None => Locale::En,
    };
    let generator = match g {
        Some(x) => x,
        None => {
            return TextSource::Anything;
        },
    };
    if let Some((lo, hi)) = range_of(&generator) {
        let (min, max) = arg_range(args, lo, hi);
        return if min < max && max <= usize::MAX / 48 {
            TextSource::Counted { generator, locale: loc, min, max }
        } else {
            TextSource::NoCount
        };
    }
    match generator {
        Generator::PositiveDecimal => TextSource::Decimal { positive: true },
        Generator::Decimal => TextSource::Decimal { positive: false },
        Generator::NumberWithFormat => TextSource::Template { template: read_template(args) },
        Generator::Geohash => TextSource::Geohash { precision: read_precision(args) },
        Generator::LicencePlate => {
            let locale = match loc {
                Locale::ItIt | Locale::NlNl => loc,
                _ => Locale::FrFr,
            };
            TextSource::Local { generator, locale }
        },
        _ => if generator.supports_locale() {
            TextSource::Local { generator, locale: loc }
        } else {
            TextSource::Plain { generator }
        },
    }
}

/// Draws a text from a source. Which of its texts comes out is chance.
pub fn draw_text(source: &TextSource) -> (r: TextDraw)
    requires
        drawable(source.model()),
    ensures
        comes_from(source.model(), r),
{
    match source {
        TextSource::Anything => TextDraw::Text(fakers::any_text()),
        TextSource::Local { generator, locale } => TextDraw::Text(local_text(generator, *locale)),
        TextSource::Counted { generator, locale, min, max } => TextDraw::Text(
            counted_text(generator, *locale, *min, *max),
        ),
        TextSource::Plain { generator } => TextDraw::Text(plain_text(generator)),
        TextSource::Geohash { precision } => TextDraw::Text(fakers::geohash(*precision)),
        TextSource::Template { template } => TextDraw::Text(fakers::number_with_format(template)),
        TextSource::Decimal { positive } => TextDraw::Decimal { positive: *positive },
        TextSource::NoCount => TextDraw::NoCount,
    }
}

/// Draws a text of a generator; any text without one. Which text comes out is chance.
pub fn fake_string(g: Option<Generator>, locale: Option<Locale>, args: &Option<Vec<ArgEntry>>) -> (r:
    TextDraw)
    ensures
        comes_from(source_of(g, locale, opt_arg_entries_model(*args)), r),
{
    draw_text(&text_source(g, locale, args))
}

/// Draws the texts of `n` rows, each on its own.
pub fn fake_strings(
    g: Option<Generator>,
    locale: Option<Locale>,
    args: &Option<Vec<ArgEntry>>,
    n: usize,
) -> (r: Vec<TextDraw>)
    ensures
        r.len() == n,
        forall|i: int|
            0 <= i < n ==> comes_from(
                source_of(g, locale, opt_arg_entries_model(*args)),
                #[trigger] r[i],
            ),
{
    let ghost source = source_of(g, locale, opt_arg_entries_model(*args));
    let from = text_source(g, locale, args);
    let mut r: Vec<TextDraw> = Vec::new();
    let mut i: usize = 0;
    while i < n
        invariant
            i <= n,
            from.model() == source,
            drawable(source),
            r.len() == i,
            forall|k: int| 0 <= k < i ==> comes_from(source, #[trigger] r[k]),
        decreases n - i,
    {
        let d = draw_text(&from);
        r.push(d);
        i += 1;
    }
    r
}

/// A truth value that may be drawn: a chance of none in a hundred never draws true, and one of a
/// hundred or more never false.
pub open spec fn flag_fits(args: Option<Seq<ArgEntryModel>>, flag: bool) -> bool {
    match arg_of(args, "ratio"@) {
        Some(v) => match v.count() {
            Some(n) => (n as u8 == 0 ==> !flag) && (n as u8 >= 100 ==> flag),
            None => true,
        },
        None => true,
    }
}

/// Draws a truth value: with the chance in percent that the argument `ratio` gives, else evenly.
pub fn fake_flag(args: &Option<Vec<ArgEntry>>) -> (r: bool)
    ensures
        flag_fits(opt_arg_entries_model(*args), r),
{
    match find_arg(args, "ratio") {
        Some(v) => match v.as_u64() {
            Some(n) => fakers::flag_with_chance(n as u8),
            None => fakers::any_flag(),
        },
        None => fakers::any_flag(),
    }
}

/// Draws the truth values of `n` rows, each on its own.
pub fn fake_flags(args: &Option<Vec<ArgEntry>>, n: usize) -> (r: Vec<bool>)
    ensures
        r.len() == n,
        forall|i: int| 0 <= i < n ==> flag_fits(opt_arg_entries_model(*args), #[trigger] r[i]),
{
    let mut r: Vec<bool> = Vec::new();
    let mut i: usize = 0;
    while i < n
        invariant
            i <= n,
            r.len() == i,
            forall|k: int|
                0 <= k < i ==> flag_fits(opt_arg_entries_model(*args), #[trigger] r[k]),
        decreases n - i,
    {
        let flag = fake_flag(args);
        r.push(flag);
        i += 1;
    }
    r
}

// ---------------------------------------------------------------------------
// Columns
// ---------------------------------------------------------------------------

/// How the values of a column come about.
#[derive(Debug)]
pub enum ColumnRecipe {
    /// Each row draws one of the cases.
    Cases(CasePlan),
    /// Every row has the same value.
    Constant(Constant),
    /// Random numbers between bounds.
    Numbers { generator: Option<Generator>, min: Option<Num>, max: Option<Num> },
    Flags,
    Texts,
    Days,
    Instants,
    /// Records of the nested fields.
    Record,
    /// Each row draws one of the tagged cases.
    Union,
    /// Lists without elements.
    EmptyLists,
    /// Lists of generated elements.
    Lists(CountSpec),
}

/// Which recipe a column has.
pub enum RecipeModel {
    Cases { fields: Seq<FieldModel>, ratios: Seq<Option<Num>> },
    Constant(ConstantModel),
    Numbers { generator: Option<Generator>, min: Option<Num>, max: Option<Num> },
    Flags,
    Texts,
    Days,
    Instants,
    Record,
    Union,
    EmptyLists,
    Lists(CountSpec),
}

impl ColumnRecipe {
    /// The content of this value, free of representation.
    pub open spec fn model(self) -> RecipeModel {
        match self {
            ColumnRecipe::Cases(p) => RecipeModel::Cases {
                fields: fields_model(p.fields@),
                ratios: p.ratios@,
            },
            ColumnRecipe::Constant(c) => RecipeModel::Constant(c.model()),
            ColumnRecipe::Numbers { generator, min, max } => {
                RecipeModel::Numbers { generator, min, max }
            },
            ColumnRecipe::Flags => RecipeModel::Flags,
            ColumnRecipe::Texts => RecipeModel::Texts,
            ColumnRecipe::Days => RecipeModel::Days,
            ColumnRecipe::Instants => RecipeModel::Instants,
            ColumnRecipe::Record => RecipeModel::Record,
            ColumnRecipe::Union => RecipeModel::Union,
            ColumnRecipe::EmptyLists => RecipeModel::EmptyLists,
            ColumnRecipe::Lists(c) => RecipeModel::Lists(c),
        }
    }
}

/// One case for each value of a set.
pub open spec fn value_cases(t: Option<FieldType>, set: Seq<YamlModel>) -> Seq<FieldVariantModel> {
    Seq::new(
        set.len(),
        |i: int|
            FieldVariantModel {
                field_type: t,
                value: Some(set[i]),
                ..default_field_variant_model()
            },
    )
}

/// The recipe for cases, or why there is none.
pub open spec fn cases_recipe(f: FieldModel) -> Result<RecipeModel, Seq<PartModel>> {
    match case_generators(f) {
        Ok(fields) => Ok(RecipeModel::Cases { fields, ratios: case_ratios(carrier(f)) }),
        Err(m) => Err(m),
    }
}

/// The recipe that follows from the type of a field alone.
pub open spec fn typed_recipe(f: FieldModel) -> Result<RecipeModel, Seq<PartModel>> {
    match f.field_type->0 {
        FieldType::Number => Ok(
            RecipeModel::Numbers {
                generator: f.generator,
                min: match f.range {
                    Some(r) => r.min,
                    None => None,
                },
                max: match f.range {
                    Some(r) => r.max,
                    None => None,
                },
            },
        ),
        FieldType::Boolean => Ok(RecipeModel::Flags),
        FieldType::String => Ok(RecipeModel::Texts),
        FieldType::Date => Ok(RecipeModel::Days),
        FieldType::DateTime => Ok(RecipeModel::Instants),
        FieldType::Object => Ok(RecipeModel::Record),
        FieldType::Variant => Err(
            said(
                "variant field '"@ + f.name
                    + "' must be expanded before execution; call expand_field_variants first"@,
            ),
        ),
        FieldType::Union => if f.union_cases.len() == 0 {
            Err(said("union field '"@ + f.name + "' has no cases"@))
        } else {
            Ok(RecipeModel::Union)
        },
        FieldType::List => match f.content {
            None => Ok(RecipeModel::EmptyLists),
            Some(c) => if c.from is None {
                Ok(
                    RecipeModel::Lists(
                        match f.count {
                            Some(n) => n,
                            None => CountSpec::Fixed(1),
                        },
                    ),
                )
            } else {
                Err(
                    said(
                        "list-link field '"@ + f.name
                            + "' must be generated via GenerateWitness / AssembleFromWitness"@,
                    ),
                )
            },
        },
    }
}

/// A variant field draws its cases, a field with a set of values draws one of them unless it has a
/// constant, a constant is repeated, and anything else follows from its type.
pub open spec fn recipe_of(f: FieldModel) -> Result<RecipeModel, Seq<PartModel>> {
    if f.variants.len() > 0 {
        cases_recipe(f)
    } else if f.value is None && f.one_of is Some {
        cases_recipe(
            FieldModel { variants: value_cases(f.field_type, f.one_of->0), ..f },
        )
    } else if f.value is Some {
        let s = constant_text(f.value->0);
        match constant_of(f.field_type->0, f.value->0, day_of(s), instant_of(s)) {
            Ok(c) => Ok(RecipeModel::Constant(c)),
            Err(m) => Err(said(m)),
        }
    } else {
        typed_recipe(f)
    }
}

/// The type of the field is known, or its cases tell it.
pub open spec fn typed(f: FieldModel) -> bool {
    f.variants.len() > 0 || (f.value is None && f.one_of is Some) || f.field_type is Some
}

fn make_value_cases(t: Option<FieldType>, set: &Vec<YamlValue>) -> (r: Vec<FieldVariant>)
    ensures
        field_variants_model(r@) == value_cases(t, yaml_values_model(set@)),
{
    let ghost sm = yaml_values_model(set@);
    let mut r: Vec<FieldVariant> = Vec::new();
    let mut i: usize = 0;
    while i < set.len()
        invariant
            i <= set.len(),
            sm == yaml_values_model(set@),
            r.len() == i,
            forall|j: int| 0 <= j < i ==> (#[trigger] r[j]).model() == value_cases(t, sm)[j],
        decreases set.len() - i,
    {
        let mut c = FieldVariant::default();
        c.field_type = t;
        c.value = Some(set[i].clone());
        assert(sm[i as int] == set[i as int].model());
        assert(c.model() == value_cases(t, sm)[i as int]);
        r.push(c);
        i += 1;
    }
    assert(field_variants_model(r@) =~= value_cases(t, sm));
    r
}

fn cases_column(field: &Field) -> (r: Result<ColumnRecipe, Problem>)
    ensures
        match r {
            Ok(x) => cases_recipe(field.model()) == Ok::<RecipeModel, Seq<PartModel>>(x.model()),
            Err(p) => cases_recipe(field.model()) == Err::<RecipeModel, Seq<PartModel>>(p.model()),
        },
{
    match build_same_type_variant_column(field) {
        Ok(p) => Ok(ColumnRecipe::Cases(p)),
        Err(e) => Err(e),
    }
}

fn typed_column(field: &Field) -> (r: Result<ColumnRecipe, Problem>)
    requires
        field.field_type is Some,
    ensures
        match r {
            Ok(x) => typed_recipe(field.model()) == Ok::<RecipeModel, Seq<PartModel>>(x.model()),
            Err(p) => typed_recipe(field.model()) == Err::<RecipeModel, Seq<PartModel>>(p.model()),
        },
{
    let t = match field.field_type {
        Some(t) => t,
        None => FieldType::String,
    };
    match t {
        FieldType::Number => Ok(
            ColumnRecipe::Numbers {
                generator: field.generator,
                min: match field.range {
                    Some(r) => r.min,
                    None => None,
                },
                max: match field.range {
                    Some(r) => r.max,
                    None => None,
                },
            },
        ),
        FieldType::Boolean => Ok(ColumnRecipe::Flags),
        FieldType::String => Ok(ColumnRecipe::Texts),
        FieldType::Date => Ok(ColumnRecipe::Days),
        FieldType::DateTime => Ok(ColumnRecipe::Instants),
        FieldType::Object => Ok(ColumnRecipe::Record),
        FieldType::Variant => Err(
            problem(
                join3(
                    "variant field '",
                    &field.name,
                    "' must be expanded before execution; call expand_field_variants first",
                ),
            ),
        ),
        FieldType::Union => {
            assert(field.model().union_cases.len() == field.union_cases.len());
            if field.union_cases.len() == 0 {
                Err(problem(join3("union field '", &field.name, "' has no cases")))
            } else {
                Ok(ColumnRecipe::Union)
            }
        },
        FieldType::List => match &field.content {
            None => Ok(ColumnRecipe::EmptyLists),
            Some(c) => {
                proof {
                    crate::models::lemma_content_model(*field);
                }
                if c.from.is_none() {
                    Ok(
                        ColumnRecipe::Lists(
                            match field.count {
                                Some(n) => n,
                                None => CountSpec::Fixed(1),
                            },
                        ),
                    )
                } else {
                    Err(
                        problem(
                            join3(
                                "list-link field '",
                                &field.name,
                                "' must be generated via GenerateWitness / AssembleFromWitness",
                            ),
                        ),
                    )
                }
            },
        },
    }
}

/// A part of a column.
#[derive(Debug, Clone, Copy, PartialEq, Eq, Structural)]
pub enum ColumnPart {
    /// All values of a given array, unchanged.
    Given(usize),
    /// So many new values.
    Fresh(usize),
}

/// A column, part by part, and how its new values come about.
#[derive(Debug)]
pub struct ColumnAssembly {
    pub parts: Vec<ColumnPart>,
    pub recipe: ColumnRecipe,
}

/// The number of new values behind `given` ones.
pub open spec fn fresh_of(rows: int, given: int) -> int {
    if rows > given {
        rows - given
    } else {
        0
    }
}

/// The parts of a column of `rows` rows: the given arrays, of the lengths `prefix`, in order, and
/// the new values behind them.
pub open spec fn parts_of(rows: int, prefix: Seq<usize>) -> Seq<ColumnPart> {
    Seq::new(
        prefix.len() + 1,
        |i: int|
            if i < prefix.len() {
                ColumnPart::Given(i as usize)
            } else {
                ColumnPart::Fresh(fresh_of(rows, total_of(prefix)) as usize)
            },
    )
}

/// The number of values of a part.
pub open spec fn part_len(prefix: Seq<usize>, part: ColumnPart) -> int {
    match part {
        ColumnPart::Given(i) => prefix[i as int] as int,
        ColumnPart::Fresh(n) => n as int,
    }
}

/// The number of values of all parts.
pub open spec fn parts_len(prefix: Seq<usize>, parts: Seq<ColumnPart>) -> int
    decreases parts.len(),
{
    if parts.len() == 0 {
        0
    } else {
        parts_len(prefix, parts.drop_last()) + part_len(prefix, parts.last())
    }
}

proof fn lemma_given_len(prefix: Seq<usize>, parts: Seq<ColumnPart>)
    requires
        parts.len() <= prefix.len() <= usize::MAX,
        forall|i: int| 0 <= i < parts.len() ==> #[trigger] parts[i] == ColumnPart::Given(i as usize),
    ensures
        parts_len(prefix, parts) == total_of(prefix.subrange(0, parts.len() as int)),
    decreases parts.len(),
{
    let n = parts.len() as int;
    if n > 0 {
        lemma_given_len(prefix, parts.drop_last());
        assert(prefix.subrange(0, n).drop_last() =~= prefix.subrange(0, n - 1));
    }
}

/// A column has the rows that were asked for, or as many as are given where that is more, and the
/// given arrays come first, in order.
pub proof fn law_columns_have_their_rows(rows: usize, prefix: Seq<usize>)
    requires
        prefix.len() <= usize::MAX,
        total_of(prefix) <= usize::MAX,
    ensures
        parts_len(prefix, parts_of(rows as int, prefix)) == if rows > total_of(prefix) {
            rows as int
        } else {
            total_of(prefix)
        },
        forall|i: int|
            0 <= i < prefix.len() ==> #[trigger] parts_of(rows as int, prefix)[i]
                == ColumnPart::Given(i as usize),
{
    let parts = parts_of(rows as int, prefix);
    lemma_given_len(prefix, parts.drop_last());
    assert(prefix.subrange(0, prefix.len() as int) =~= prefix);
    crate::segment::lemma_total_prefix(prefix, prefix.len() as int);
}

fn column_parts(rows: usize, prefix: &Vec<usize>) -> (r: Vec<ColumnPart>)
    requires
        total_of(prefix@) <= usize::MAX,
    ensures
        r@ == parts_of(rows as int, prefix@),
{
    let mut r: Vec<ColumnPart> = Vec::new();
    let mut i: usize = 0;
    while i < prefix.len()
        invariant
            i <= prefix.len(),
            r.len() == i,
            forall|j: int| 0 <= j < i ==> #[trigger] r[j] == ColumnPart::Given(j as usize),
        decreases prefix.len() - i,
    {
        r.push(ColumnPart::Given(i));
        i += 1;
    }
    r.push(ColumnPart::Fresh(fresh_rows(rows, sum_counts(prefix))));
    assert(r@ =~= parts_of(rows as int, prefix@));
    r
}

/// How a column of `rows` rows comes about: behind the given arrays, whose lengths are `prefix`, as
/// many new values as are left.
pub fn generate_column_raw(field: &Field, rows: usize, prefix: &Vec<usize>) -> (r: Result<
    ColumnAssembly,
    Problem,
>)
    requires
        typed(field.model()),
        total_of(prefix@) <= usize::MAX,
    ensures
        match recipe_of(field.model()) {
            Err(m) => r matches Err(p) && p.model() == m,
            Ok(recipe) => r matches Ok(c) && {
                &&& c.recipe.model() == recipe
                &&& c.parts@ == parts_of(rows as int, prefix@)
                &&& parts_len(prefix@, c.parts@) == if rows > total_of(prefix@) {
                    rows as int
                } else {
                    total_of(prefix@)
                }
            },
        },
{
    let recipe = column_recipe(field)?;
    proof {
        assert(prefix@.len() == prefix.len());
        law_columns_have_their_rows(rows, prefix@);
    }
    Ok(ColumnAssembly { parts: column_parts(rows, prefix), recipe })
}

fn column_recipe(field: &Field) -> (r: Result<ColumnRecipe, Problem>)
    requires
        typed(field.model()),
    ensures
        match r {
            Ok(x) => recipe_of(field.model()) == Ok::<RecipeModel, Seq<PartModel>>(x.model()),
            Err(p) => recipe_of(field.model()) == Err::<RecipeModel, Seq<PartModel>>(p.model()),
        },
{
    let ghost fm = field.model();
    assert(fm.variants.len() == field.variants.len());
    if field.variants.len() > 0 {
        return cases_column(field);
    }
    if field.value.is_none() {
        if let Some(set) = &field.one_of {
            let mut f = field.clone();
            f.variants = make_value_cases(field.field_type, set);
            assert(f.model() == (FieldModel {
                variants: value_cases(fm.field_type, fm.one_of->0),
                ..fm
            }));
            return cases_column(&f);
        }
    }
    if let Some(v) = &field.value {
        let t = match field.field_type {
            Some(t) => t,
            None => FieldType::String,
        };
        return match constant_column(&t, v) {
            Ok(c) => Ok(ColumnRecipe::Constant(c)),
            Err(m) => Err(problem(m)),
        };
    }
    typed_column(field)
}

/// A column with what is done to its values after they have been generated.
#[derive(Debug)]
pub struct GeneratedColumn {
    pub parts: Vec<ColumnPart>,
    pub recipe: ColumnRecipe,
    /// Numbers are rounded to this many decimal places.
    pub round: Option<i32>,
    /// Values are stored as this type.
    pub stored: Option<ParquetDatatype>,
}

/// The number of decimal places that the values of a field are rounded to: only numbers are
/// rounded.
pub open spec fn rounding(f: FieldModel) -> Option<i32> {
    if f.field_type == Some(FieldType::Number) {
        f.precision
    } else {
        None
    }
}

/// How a column of `rows` rows comes about behind given arrays of the lengths `prefix`: its values,
/// and what is done to all of them.
pub fn generate_column(field: &Field, rows: usize, prefix: &Vec<usize>) -> (r: Result<
    GeneratedColumn,
    Problem,
>)
    requires
        typed(field.model()),
        total_of(prefix@) <= usize::MAX,
    ensures
        match recipe_of(field.model()) {
            Err(m) => r matches Err(p) && p.model() == m,
            Ok(recipe) => r matches Ok(c) && {
                &&& c.recipe.model() == recipe
                &&& c.parts@ == parts_of(rows as int, prefix@)
                &&& c.round == rounding(field.model())
                &&& c.stored == match field.model().parquet {
                    Some(p) => Some(p.datatype),
                    None => None,
                }
            },
        },
{
    let raw = generate_column_raw(field, rows, prefix)?;
    let round: Option<i32> = match field.field_type {
        Some(FieldType::Number) => field.precision,
        _ => None,
    };
    let stored = match &field.parquet {
        Some(p) => Some(p.datatype),
        None => None,
    };
    Ok(GeneratedColumn { parts: raw.parts, recipe: raw.recipe, round, stored })
}

/// A field restricted to a set of values never generates a value outside of it: every case that
/// remains has a value of the set.
pub proof fn law_restriction_holds(f: FieldModel, i: int)
    requires
        f.one_of is Some,
        0 <= i < carrier(f).len(),
    ensures
        carrier(f)[i].value is Some,
        f.one_of->0.contains(carrier(f)[i].value->0),
{
    lemma_cases_in(f.variants, f.one_of->0, f.variants.len() as int, i);
}

proof fn lemma_cases_in(s: Seq<FieldVariantModel>, set: Seq<YamlModel>, n: int, i: int)
    requires
        0 <= n <= s.len(),
        0 <= i < cases_in(s, set, n).len(),
    ensures
        cases_in(s, set, n)[i].value is Some,
        set.contains(cases_in(s, set, n)[i].value->0),
    decreases n,
{
    if n > 0 && i < cases_in(s, set, n - 1).len() {
        lemma_cases_in(s, set, n - 1, i);
    }
}

// ---------------------------------------------------------------------------
// What generated columns hold
// ---------------------------------------------------------------------------

/// The field draws numbers, texts and so on by its type alone: it has no cases, no constant and no
/// finite set.
pub open spec fn drawn_by_type(f: FieldModel) -> bool {
    f.variants.len() == 0 && f.value is None && f.one_of is None && f.field_type is Some
}

/// A number field draws exactly the numbers of its declared range, by its declared generator.
pub proof fn law_numbers_lie_in_the_declared_range(f: FieldModel, n: Num)
    requires
        drawn_by_type(f),
        f.field_type == Some(FieldType::Number),
    ensures
        recipe_of(f) is Ok,
        recipe_of(f)->Ok_0 is Numbers,
        within(n, recipe_of(f)->Ok_0->min, recipe_of(f)->Ok_0->max) <==> (f.range is Some ==> within(
            n,
            f.range->0.min,
            f.range->0.max,
        )),
        f.range is Some ==> recipe_of(f)->Ok_0->min == f.range->0.min && recipe_of(f)->Ok_0->max
            == f.range->0.max,
        recipe_of(f)->Ok_0->generator == f.generator,
{
}

/// Every other type has a recipe of its own kind.
pub proof fn law_types_have_their_recipes(f: FieldModel)
    requires
        drawn_by_type(f),
    ensures
        f.field_type == Some(FieldType::Boolean) <==> recipe_of(f) == Ok::<
            RecipeModel,
            Seq<PartModel>,
        >(RecipeModel::Flags),
        f.field_type == Some(FieldType::String) <==> recipe_of(f) == Ok::<
            RecipeModel,
            Seq<PartModel>,
        >(RecipeModel::Texts),
        f.field_type == Some(FieldType::Date) <==> recipe_of(f) == Ok::<
            RecipeModel,
            Seq<PartModel>,
        >(RecipeModel::Days),
        f.field_type == Some(FieldType::DateTime) <==> recipe_of(f) == Ok::<
            RecipeModel,
            Seq<PartModel>,
        >(RecipeModel::Instants),
        f.field_type == Some(FieldType::Object) <==> recipe_of(f) == Ok::<
            RecipeModel,
            Seq<PartModel>,
        >(RecipeModel::Record),
        f.field_type == Some(FieldType::Union) && f.union_cases.len() > 0 <==> recipe_of(f) == Ok::<
            RecipeModel,
            Seq<PartModel>,
        >(RecipeModel::Union),
{
}

/// The lists of a list field have as many elements as its count says, one where it says nothing; a
/// list field without content has empty lists.
pub proof fn law_lists_have_the_declared_count(f: FieldModel, rounded: i64, len: usize)
    requires
        drawn_by_type(f),
        f.field_type == Some(FieldType::List),
    ensures
        f.content is None ==> recipe_of(f) == Ok::<RecipeModel, Seq<PartModel>>(
            RecipeModel::EmptyLists,
        ),
        f.content is Some && f.content->0.from is None ==> recipe_of(f) is Ok && recipe_of(
            f,
        )->Ok_0 is Lists,
        f.content is Some && f.content->0.from is None && f.count is Some && count_fits(
            recipe_of(f)->Ok_0->Lists_0,
            rounded,
            len,
        ) ==> count_fits(f.count->0, rounded, len),
        f.content is Some && f.content->0.from is None && f.count is None && count_fits(
            recipe_of(f)->Ok_0->Lists_0,
            rounded,
            len,
        ) ==> len == 1,
        f.content is Some && f.content->0.from is None && f.count is Some ==> recipe_of(
            f,
        )->Ok_0->Lists_0 == f.count->0,
        f.content is Some && f.content->0.from is Some ==> recipe_of(f) is Err,
{
}

/// A fixed count is itself, a uniform one may be anything between its bounds and nothing else, and
/// a normal one is the rounded draw, or zero where that is negative.
pub proof fn law_counts_are_those_declared(
    n: usize,
    min: usize,
    max: usize,
    mean: Num,
    std_dev: Num,
    rounded: i64,
    count: usize,
)
    ensures
        count_fits(CountSpec::Fixed(n), rounded, count) <==> count == n,
        count_fits(CountSpec::Uniform { min, max }, rounded, count) <==> min <= count && count
            <= max,
        count_fits(CountSpec::Normal { mean, std_dev }, rounded, count) && rounded >= 0 ==> count
            == rounded as usize,
        count_fits(CountSpec::Normal { mean, std_dev }, rounded, count) && rounded < 0 ==> count
            == 0,
{
}

/// A constant column repeats the declared value.
pub open spec fn repeats(c: ConstantModel, v: YamlModel) -> bool {
    match c {
        ConstantModel::Number(n) => v.num() == Some(n),
        ConstantModel::Flag(b) => v == YamlModel::Bool(b),
        ConstantModel::Text(s) => v == YamlModel::Text(s),
        ConstantModel::Day(d) => v is Text && day_of(v->Text_0) == Ok::<i32, Seq<char>>(d),
        ConstantModel::Instant(secs, nanos) => v is Text && instant_of(v->Text_0) == Ok::<
            (i64, u32),
            Seq<char>,
        >((secs, nanos)),
    }
}

/// A field with a constant and no cases repeats it on every row, whatever else is set, in the type
/// of the field; a constant that its type cannot hold is refused.
pub proof fn law_constants_are_repeated(f: FieldModel)
    requires
        f.variants.len() == 0,
        f.value is Some,
        f.field_type is Some,
    ensures
        recipe_of(f) is Ok ==> recipe_of(f)->Ok_0 is Constant && repeats(
            recipe_of(f)->Ok_0->Constant_0,
            f.value->0,
        ),
        f.field_type == Some(FieldType::Number) ==> (recipe_of(f) is Ok <==> f.value->0.num()
            is Some),
        f.field_type == Some(FieldType::Boolean) ==> (recipe_of(f) is Ok <==> f.value->0 is Bool),
        f.field_type == Some(FieldType::String) ==> (recipe_of(f) is Ok <==> f.value->0 is Text),
        f.field_type == Some(FieldType::Date) ==> (recipe_of(f) is Ok <==> f.value->0 is Text
            && day_of(f.value->0->Text_0) is Ok),
        f.field_type == Some(FieldType::DateTime) ==> (recipe_of(f) is Ok <==> f.value->0 is Text
            && instant_of(f.value->0->Text_0) is Ok),
        recipe_of(f) is Ok && f.field_type == Some(FieldType::Number) ==> recipe_of(
            f,
        )->Ok_0->Constant_0 is Number,
        recipe_of(f) is Ok && f.field_type == Some(FieldType::String) ==> recipe_of(
            f,
        )->Ok_0->Constant_0 is Text,
        recipe_of(f) is Ok && f.field_type == Some(FieldType::Date) ==> recipe_of(
            f,
        )->Ok_0->Constant_0 is Day,
{
}

/// A case of a recipe generates a declared alternative: with its constant, range, generator and
/// locale.
pub open spec fn generates(g: FieldModel, c: FieldVariantModel) -> bool {
    &&& g.value == c.value
    &&& g.range == c.range
    &&& g.generator == c.generator
    &&& g.locale == c.locale
    &&& g.parquet == c.parquet
}

/// An alternative of a field that its finite set, if it has one, leaves.
pub open spec fn left_over(f: FieldModel, c: FieldVariantModel) -> bool {
    f.one_of is None || (c.value is Some && f.one_of->0.contains(c.value->0))
}

proof fn lemma_cases_kept(s: Seq<FieldVariantModel>, set: Seq<YamlModel>, n: int, i: int)
    requires
        0 <= i < n <= s.len(),
        s[i].value is Some,
        set.contains(s[i].value->0),
    ensures
        exists|j: int| 0 <= j < cases_in(s, set, n).len() && #[trigger] cases_in(s, set, n)[j] == s[i],
    decreases n,
{
    let all = cases_in(s, set, n);
    let before = cases_in(s, set, n - 1);
    if i < n - 1 {
        lemma_cases_kept(s, set, n - 1, i);
        let j = choose|j: int| 0 <= j < before.len() && #[trigger] before[j] == s[i];
        assert(all[j] == s[i]);
    } else {
        assert(all[before.len() as int] == s[i]);
    }
}

proof fn lemma_cases_come_from(s: Seq<FieldVariantModel>, set: Seq<YamlModel>, n: int, j: int)
    requires
        0 <= n <= s.len(),
        0 <= j < cases_in(s, set, n).len(),
    ensures
        exists|i: int| 0 <= i < n && #[trigger] s[i] == cases_in(s, set, n)[j],
    decreases n,
{
    if n > 0 {
        let before = cases_in(s, set, n - 1);
        if j < before.len() {
            lemma_cases_come_from(s, set, n - 1, j);
            let i = choose|i: int| 0 <= i < n - 1 && #[trigger] s[i] == before[j];
            assert(s[i] == cases_in(s, set, n)[j]);
        } else {
            assert(s[n - 1] == cases_in(s, set, n)[j]);
        }
    }
}

/// A field with alternatives draws from them: each alternative that its finite set leaves has a
/// case that generates it, with its declared share.
pub proof fn law_every_alternative_is_drawn(f: FieldModel, i: int)
    requires
        0 <= i < f.variants.len(),
        left_over(f, f.variants[i]),
        recipe_of(f) is Ok,
    ensures
        recipe_of(f)->Ok_0 is Cases,
        recipe_of(f)->Ok_0->ratios.len() == recipe_of(f)->Ok_0->fields.len(),
        exists|j: int|
            0 <= j < recipe_of(f)->Ok_0->fields.len() && generates(
                #[trigger] recipe_of(f)->Ok_0->fields[j],
                f.variants[i],
            ) && recipe_of(f)->Ok_0->ratios[j] == f.variants[i].ratio,
{
    let cases = carrier(f);
    let fields = recipe_of(f)->Ok_0->fields;
    if f.one_of is Some {
        lemma_cases_kept(f.variants, f.one_of->0, f.variants.len() as int, i);
        let j = choose|j: int| 0 <= j < cases.len() && #[trigger] cases[j] == f.variants[i];
        assert(generates(fields[j], f.variants[i]));
    } else {
        assert(generates(fields[i], f.variants[i]));
    }
}

/// Nothing else is drawn: every case generates an alternative that is declared and that the finite
/// set leaves, under the name of the field.
pub proof fn law_only_alternatives_are_drawn(f: FieldModel, j: int)
    requires
        f.variants.len() > 0,
        recipe_of(f) is Ok,
        0 <= j < recipe_of(f)->Ok_0->fields.len(),
    ensures
        recipe_of(f)->Ok_0->fields[j].name == f.name,
        recipe_of(f)->Ok_0->fields[j].variants.len() == 0,
        recipe_of(f)->Ok_0->fields[j].one_of is None,
        exists|i: int|
            0 <= i < f.variants.len() && left_over(f, #[trigger] f.variants[i]) && generates(
                recipe_of(f)->Ok_0->fields[j],
                f.variants[i],
            ) && recipe_of(f)->Ok_0->ratios[j] == f.variants[i].ratio,
{
    let cases = carrier(f);
    if f.one_of is Some {
        let n = f.variants.len() as int;
        lemma_cases_come_from(f.variants, f.one_of->0, n, j);
        lemma_cases_in(f.variants, f.one_of->0, n, j);
        let i = choose|i: int| 0 <= i < n && #[trigger] f.variants[i] == cases[j];
        assert(left_over(f, f.variants[i]));
    } else {
        assert(left_over(f, f.variants[j]));
    }
}

proof fn lemma_all_cases_in(s: Seq<FieldVariantModel>, set: Seq<YamlModel>, n: int)
    requires
        0 <= n <= s.len(),
        forall|i: int|
            0 <= i < s.len() ==> (#[trigger] s[i]).value is Some && set.contains(s[i].value->0),
    ensures
        cases_in(s, set, n) == s.subrange(0, n),
    decreases n,
{
    if n > 0 {
        lemma_all_cases_in(s, set, n - 1);
        assert(s[n - 1].value is Some);
        assert(s.subrange(0, n - 1).push(s[n - 1]) =~= s.subrange(0, n));
    } else {
        assert(s.subrange(0, 0) =~= Seq::empty());
    }
}

/// A field restricted to a finite set draws its members, each with the same share, and nothing
/// else: case for case a constant of the set.
pub proof fn law_sets_are_drawn_from(f: FieldModel, i: int)
    requires
        f.variants.len() == 0,
        f.value is None,
        f.one_of is Some,
        recipe_of(f) is Ok,
    ensures
        recipe_of(f)->Ok_0 is Cases,
        recipe_of(f)->Ok_0->fields.len() == f.one_of->0.len(),
        recipe_of(f)->Ok_0->ratios.len() == f.one_of->0.len(),
        0 <= i < f.one_of->0.len() ==> recipe_of(f)->Ok_0->fields[i].value == Some(f.one_of->0[i])
            && recipe_of(f)->Ok_0->ratios[i] is None,
{
    let set = f.one_of->0;
    let cases = value_cases(f.field_type, set);
    assert forall|k: int| 0 <= k < cases.len() implies (#[trigger] cases[k]).value is Some
        && set.contains(cases[k].value->0) by {
        assert(cases[k].value == Some(set[k]));
    }
    lemma_all_cases_in(cases, set, cases.len() as int);
    assert(cases.subrange(0, cases.len() as int) =~= cases);
}

/// A draw picks the first case whose running share lies above it; the last case takes what is left.
pub proof fn law_draws_pick_by_share(cumulative: Seq<Num>, draw: Num, from: int)
    requires
        0 <= from < cumulative.len(),
    ensures
        from <= case_at(cumulative, draw, from) < cumulative.len(),
        case_at(cumulative, draw, from) < cumulative.len() - 1 ==> draw.below(
            cumulative[case_at(cumulative, draw, from)],
        ),
        forall|i: int|
            from <= i < case_at(cumulative, draw, from) ==> !draw.below(#[trigger] cumulative[i]),
    decreases cumulative.len() - from,
{
    if from < cumulative.len() - 1 && !draw.below(cumulative[from]) {
        law_draws_pick_by_share(cumulative, draw, from + 1);
    }
}

/// Rounding applies to numbers, by the declared precision.
pub proof fn law_only_numbers_are_rounded(f: FieldModel)
    ensures
        f.field_type == Some(FieldType::Number) ==> rounding(f) == f.precision,
        f.field_type != Some(FieldType::Number) ==> rounding(f) is None,
{
}

/// The argument at `i` is the first one with its name.
pub open spec fn first_arg(args: Seq<ArgEntryModel>, i: int) -> bool {
    &&& 0 <= i < args.len()
    &&& forall|j: int| 0 <= j < i ==> (#[trigger] args[j]).key != args[i].key
}

proof fn lemma_arg(args: Seq<ArgEntryModel>, name: Seq<char>, i: int, from: int)
    requires
        0 <= from <= i < args.len(),
        args[i].key == name,
        forall|j: int| from <= j < i ==> (#[trigger] args[j]).key != name,
    ensures
        arg_at(args, name, from) == Some(args[i].value),
    decreases i - from,
{
    if from < i {
        lemma_arg(args, name, i, from + 1);
    }
}

proof fn lemma_no_arg(args: Seq<ArgEntryModel>, name: Seq<char>, from: int)
    requires
        0 <= from,
        forall|j: int| from <= j < args.len() ==> (#[trigger] args[j]).key != name,
    ensures
        arg_at(args, name, from) is None,
    decreases args.len() - from,
{
    if from < args.len() {
        lemma_no_arg(args, name, from + 1);
    }
}

/// An argument is read from the first entry with its name; without one the default holds.
pub proof fn law_arguments_are_read(args: Seq<ArgEntryModel>, i: int, name: Seq<char>, default: usize)
    ensures
        first_arg(args, i) && args[i].value.count() is Some ==> count_arg(
            Some(args),
            args[i].key,
            default,
        ) == args[i].value.count()->0 as usize,
        first_arg(args, i) ==> arg_of(Some(args), args[i].key) == Some(args[i].value),
        (forall|j: int| 0 <= j < args.len() ==> (#[trigger] args[j]).key != name) ==> count_arg(
            Some(args),
            name,
            default,
        ) == default,
        count_arg(None, name, default) == default,
{
    if first_arg(args, i) {
        lemma_arg(args, args[i].key, i, 0);
    }
    if forall|j: int| 0 <= j < args.len() ==> (#[trigger] args[j]).key != name {
        lemma_no_arg(args, name, 0);
    }
}

/// Texts of several parts have as many as the arguments `min` and `max` allow, in the declared
/// locale, English where none is.
pub proof fn law_texts_follow_their_arguments(
    g: Generator,
    locale: Option<Locale>,
    args: Seq<ArgEntryModel>,
    i: int,
    j: int,
)
    requires
        default_range(g) is Some,
        first_arg(args, i),
        first_arg(args, j),
        args[i].key == "min"@,
        args[j].key == "max"@,
        args[i].value.count() is Some,
        args[j].value.count() is Some,
        args[i].value.count()->0 < args[j].value.count()->0 <= most_parts(),
    ensures
        source_of(Some(g), locale, Some(args)) is Counted,
        source_of(Some(g), locale, Some(args))->Counted_generator == g,
        source_of(Some(g), locale, Some(args))->min == args[i].value.count()->0,
        source_of(Some(g), locale, Some(args))->max == args[j].value.count()->0,
        locale is Some ==> source_of(Some(g), locale, Some(args))->Counted_locale == locale->0,
        locale is None ==> source_of(Some(g), locale, Some(args))->Counted_locale == Locale::En,
{
    let bounds = default_range(g)->0;
    law_arguments_are_read(args, i, "min"@, bounds.0);
    law_arguments_are_read(args, j, "max"@, bounds.1);
}

/// A generator that depends on the locale draws in the declared one, English where none is.
pub proof fn law_texts_follow_their_locale(
    g: Generator,
    locale: Option<Locale>,
    args: Option<Seq<ArgEntryModel>>,
)
    requires
        g.is_localised(),
        default_range(g) is None,
        g != Generator::LicencePlate,
        g != Generator::PositiveDecimal,
        g != Generator::Decimal,
        g != Generator::NumberWithFormat,
        g != Generator::Geohash,
    ensures
        source_of(Some(g), locale, args) is Local,
        source_of(Some(g), locale, args)->Local_generator == g,
        locale is Some ==> source_of(Some(g), locale, args)->Local_locale == locale->0,
        locale is None ==> source_of(Some(g), locale, args)->Local_locale == Locale::En,
{
}

proof fn lemma_typed_cases(s: Seq<FieldVariantModel>, t: FieldType)
    requires
        s.len() > 0,
        forall|i: int| 0 <= i < s.len() ==> (#[trigger] s[i]).field_type == Some(t),
    ensures
        shared_type(s) == Some(t),
{
    assert(s[0].field_type == Some(t));
    if disagree(s) {
        let (i, j) = choose|i: int, j: int|
            0 <= i < j < s.len() && differ(#[trigger] s[i], #[trigger] s[j]);
        assert(s[i].field_type == Some(t) && s[j].field_type == Some(t));
    }
}

/// A field with alternatives of one type can be drawn as long as its finite set leaves one.
pub proof fn law_alternatives_of_one_type_can_be_drawn(f: FieldModel, t: FieldType, i: int)
    requires
        0 <= i < f.variants.len(),
        left_over(f, f.variants[i]),
        forall|k: int| 0 <= k < f.variants.len() ==> (#[trigger] f.variants[k]).field_type == Some(t),
    ensures
        recipe_of(f) is Ok,
        forall|j: int|
            0 <= j < recipe_of(f)->Ok_0->fields.len() ==> (
            #[trigger] recipe_of(f)->Ok_0->fields[j]).field_type == Some(t),
{
    let cases = carrier(f);
    let n = f.variants.len() as int;
    if f.one_of is Some {
        lemma_cases_kept(f.variants, f.one_of->0, n, i);
        assert forall|j: int| 0 <= j < cases.len() implies (#[trigger] cases[j]).field_type == Some(
            t,
        ) by {
            lemma_cases_come_from(f.variants, f.one_of->0, n, j);
            let k = choose|k: int| 0 <= k < n && #[trigger] f.variants[k] == cases[j];
            assert(f.variants[k].field_type == Some(t));
        }
    }
    lemma_typed_cases(cases, t);
}

/// A finite set with a member can be drawn from, in the type of the field.
pub proof fn law_sets_can_be_drawn_from(f: FieldModel)
    requires
        f.variants.len() == 0,
        f.value is None,
        f.one_of is Some,
        f.one_of->0.len() > 0,
        f.field_type is Some,
    ensures
        recipe_of(f) is Ok,
        forall|j: int|
            0 <= j < recipe_of(f)->Ok_0->fields.len() ==> (
            #[trigger] recipe_of(f)->Ok_0->fields[j]).field_type == f.field_type,
{
    let set = f.one_of->0;
    let cases = value_cases(f.field_type, set);
    assert forall|k: int| 0 <= k < cases.len() implies (#[trigger] cases[k]).value is Some
        && set.contains(cases[k].value->0) by {
        assert(cases[k].value == Some(set[k]));
    }
    lemma_all_cases_in(cases, set, cases.len() as int);
    assert(cases.subrange(0, cases.len() as int) =~= cases);
    lemma_typed_cases(cases, f.field_type->0);
}

} // verus!
