//! Rules on single fields.
use vstd::prelude::*;

use crate::constraints::{constraint_problem, constraints_of, validate_field_constraints};
use crate::dates::{day_of, day_text, day_text_of, instant_of, parse_day, parse_instant};
use crate::generator::{arg_of, find_arg};
use crate::message::{
    fail, first_of, join2, join3, join4, join5, numbered, numbered_problem, problem_of, says,
    PartModel, Problem,
};
use crate::models::{
    arg_entries_model, case_deltas_model, field_variants_model, fields_model, lemma_content_model,
    opt_arg_entries_model, str_views, yaml_values_model, ArgEntry, ArgEntryModel, Field, FieldModel,
    FieldType, FieldVariant, FieldVariantModel, Generator, Locale, Num, Range, YamlModel,
    YamlValue,
};
use crate::text::{decimal, decimal_text, extends, listed, same_text, texts};

verus! {

broadcast use crate::text::group_extends;

/// The problem of a field at `path`.
pub open spec fn field_says(path: Seq<char>, text: Seq<char>) -> Option<Seq<PartModel>> {
    says("field '"@ + path + "': "@ + text)
}

/// The failure of a field at `path`.
pub fn fail_field(path: &str, text: &str) -> (r: Result<(), Problem>)
    ensures
        problem_of(r) == field_says(path@, text@),
{
    fail(join4("field '", path, "': ", text))
}

/// True when a range sets a bound.
pub open spec fn sets_bound(r: Option<Range>) -> bool {
    r is Some && (r->0.min is Some || r->0.max is Some)
}

fn has_bound(r: &Option<Range>) -> (b: bool)
    ensures
        b == sets_bound(*r),
{
    match r {
        Some(x) => x.min.is_some() || x.max.is_some(),
        None => false,
    }
}

// ---------------------------------------------------------------------------
// Locale and arguments
// ---------------------------------------------------------------------------

/// The problem of a locale without a generator that depends on it.
pub open spec fn locale_problem(
    path: Seq<char>,
    locale: Option<Locale>,
    generator: Option<Generator>,
) -> Option<Seq<PartModel>> {
    if locale is None {
        None
    } else {
        match generator {
            None => field_says(path, "`locale` requires `generator` to be set"@),
            Some(g) => if g.is_localised() {
                None
            } else {
                field_says(
                    path,
                    "generator `"@ + g.label() + "` does not support locale selection"@,
                )
            },
        }
    }
}

/// Checks that a locale comes with a generator that depends on it.
pub fn validate_locale_generator(
    path: &str,
    locale: Option<Locale>,
    generator: Option<Generator>,
) -> (r: Result<(), Problem>)
    ensures
        problem_of(r) == locale_problem(path@, locale, generator),
{
    if locale.is_none() {
        return Ok(());
    }
    match generator {
        None => fail_field(path, "`locale` requires `generator` to be set"),
        Some(g) => {
            if g.supports_locale() {
                Ok(())
            } else {
                let text = join3("generator `", g.as_str(), "` does not support locale selection");
                fail_field(path, &text)
            }
        },
    }
}

/// The first of the first `n` arguments whose name is not among `names`.
pub open spec fn unknown_arg(args: Seq<ArgEntryModel>, names: Seq<Seq<char>>, n: int) -> Option<int>
    decreases n,
{
    if n <= 0 {
        None
    } else {
        match unknown_arg(args, names, n - 1) {
            Some(i) => Some(i),
            None => if names.contains(args[n - 1].key) {
                None
            } else {
                Some(n - 1)
            },
        }
    }
}

fn find_unknown_arg(args: &Vec<ArgEntry>, names: &Vec<&'static str>) -> (r: Option<usize>)
    ensures
        match r {
            Some(i) => i < args.len() && unknown_arg(
                arg_entries_model(args@),
                str_views(names@),
                args@.len() as int,
            ) == Some(i as int),
            None => unknown_arg(
                arg_entries_model(args@),
                str_views(names@),
                args@.len() as int,
            ) is None,
        },
{
    let ghost am = arg_entries_model(args@);
    let ghost nm = str_views(names@);
    let mut i: usize = 0;
    while i < args.len()
        invariant
            i <= args.len(),
            am == arg_entries_model(args@),
            nm == str_views(names@),
            unknown_arg(am, nm, i as int) is None,
        decreases args.len() - i,
    {
        assert(am[i as int] == args[i as int].model());
        let mut known: bool = false;
        let mut k: usize = 0;
        while k < names.len()
            invariant
                k <= names.len(),
                nm == str_views(names@),
                i < args.len(),
                am[i as int].key == args[i as int].key@,
                known == exists|j: int| 0 <= j < k && #[trigger] nm[j] == am[i as int].key,
            decreases names.len() - k,
        {
            assert(nm[k as int] == names[k as int]@);
            if same_text(&args[i].key, names[k]) {
                known = true;
            }
            k += 1;
        }
        assert(known == nm.contains(am[i as int].key));
        if !known {
            proof {
                lemma_unknown_stays(am, nm, i + 1, args@.len() as int);
            }
            return Some(i);
        }
        i += 1;
    }
    None
}

proof fn lemma_unknown_stays(args: Seq<ArgEntryModel>, names: Seq<Seq<char>>, k: int, n: int)
    requires
        0 <= k <= n,
        unknown_arg(args, names, k) is Some,
    ensures
        unknown_arg(args, names, n) == unknown_arg(args, names, k),
    decreases n - k,
{
    if k < n {
        lemma_unknown_stays(args, names, k, n - 1);
    }
}

/// The problem of the arguments of a boolean field: it takes a `ratio` in percent and nothing
/// else.
pub open spec fn boolean_args_problem(path: Seq<char>, args: Seq<ArgEntryModel>) -> Option<
    Seq<PartModel>,
> {
    match unknown_arg(args, seq!["ratio"@], args.len() as int) {
        Some(i) => field_says(
            path,
            "unknown arg '"@ + args[i].key + "' for boolean field — valid key: `ratio`"@,
        ),
        None => match arg_of(Some(args), "ratio"@) {
            None => None,
            Some(v) => match v.count() {
                None => field_says(path, "`args.ratio` must be an integer 0–100"@),
                Some(n) => if n > 100 {
                    field_says(
                        path,
                        "`args.ratio` must be between 0 and 100, got "@ + decimal_text(n as nat),
                    )
                } else {
                    None
                },
            },
        },
    }
}

fn validate_boolean_args(path: &str, args: &Option<Vec<ArgEntry>>) -> (r: Result<(), Problem>)
    requires
        args is Some,
    ensures
        problem_of(r) == boolean_args_problem(path@, opt_arg_entries_model(*args)->0),
{
    let mut names: Vec<&'static str> = Vec::new();
    names.push("ratio");
    assert(str_views(names@) =~= seq!["ratio"@]);
    if let Some(a) = args {
        assert(opt_arg_entries_model(*args) == Some(arg_entries_model(a@)));
        if let Some(i) = find_unknown_arg(a, &names) {
            assert(arg_entries_model(a@)[i as int] == a[i as int].model());
            let text = join3(
                "unknown arg '",
                &a[i].key,
                "' for boolean field — valid key: `ratio`",
            );
            return fail_field(path, &text);
        }
    }
    if let Some(v) = find_arg(args, "ratio") {
        match v.as_u64() {
            None => {
                return fail_field(path, "`args.ratio` must be an integer 0–100");
            },
            Some(n) => {
                if n > 100 {
                    let d = decimal(n);
                    let text = join2("`args.ratio` must be between 0 and 100, got ", &d);
                    return fail_field(path, &text);
                }
            },
        }
    }
    Ok(())
}

/// True when a generator makes a number of pieces between `min` and `max`.
pub open spec fn counts_pieces(g: Generator) -> bool {
    g is Sentence || g is Paragraph || g is Words || g is Sentences || g is Paragraphs
        || g is Password
}

/// The problem of an argument that must be a count.
pub open spec fn count_problem(path: Seq<char>, args: Seq<ArgEntryModel>, key: Seq<char>) -> Option<
    Seq<PartModel>,
> {
    match arg_of(Some(args), key) {
        Some(v) => if v.count() is None {
            field_says(path, "`args."@ + key + "` must be a non-negative integer"@)
        } else {
            None
        },
        None => None,
    }
}

/// The problem of a lower count that does not lie below the upper one.
pub open spec fn count_order_problem(path: Seq<char>, args: Seq<ArgEntryModel>) -> Option<
    Seq<PartModel>,
> {
    let min = arg_of(Some(args), "min"@);
    let max = arg_of(Some(args), "max"@);
    if min is Some && max is Some && min->0.count()->0 >= max->0.count()->0 {
        field_says(
            path,
            "`args.min` ("@ + decimal_text(min->0.count()->0 as nat)
                + ") must be less than `args.max` ("@ + decimal_text(max->0.count()->0 as nat)
                + ")"@,
        )
    } else {
        None
    }
}

/// The problem of the argument of a geohash.
pub open spec fn precision_problem(path: Seq<char>, args: Seq<ArgEntryModel>) -> Option<
    Seq<PartModel>,
> {
    match arg_of(Some(args), "precision"@) {
        None => None,
        Some(v) => match v.count() {
            None => field_says(path, "`args.precision` must be an integer 1–12"@),
            Some(p) => if 1 <= p <= 12 {
                None
            } else {
                field_says(
                    path,
                    "`args.precision` must be between 1 and 12, got "@ + decimal_text(p as nat),
                )
            },
        },
    }
}

/// The problem of the argument of a formatted number.
pub open spec fn format_problem(path: Seq<char>, args: Seq<ArgEntryModel>) -> Option<
    Seq<PartModel>,
> {
    match arg_of(Some(args), "format"@) {
        None => field_says(path, "generator `number_with_format` requires `args.format`"@),
        Some(v) => if v is Text {
            None
        } else {
            field_says(path, "`args.format` must be a string"@)
        },
    }
}

/// The problem of the values of a generator's arguments.
pub open spec fn generator_args_problem(
    path: Seq<char>,
    g: Generator,
    args: Seq<ArgEntryModel>,
) -> Option<Seq<PartModel>> {
    if counts_pieces(g) {
        first_of(
            count_problem(path, args, "min"@),
            first_of(count_problem(path, args, "max"@), count_order_problem(path, args)),
        )
    } else if g is Geohash {
        precision_problem(path, args)
    } else if g is NumberWithFormat {
        format_problem(path, args)
    } else {
        None
    }
}

fn check_count(path: &str, args: &Option<Vec<ArgEntry>>, key: &str) -> (r: Result<
    Option<u64>,
    Problem,
>)
    requires
        args is Some,
    ensures
        problem_of(r) == count_problem(path@, opt_arg_entries_model(*args)->0, key@),
        r is Ok ==> r->Ok_0 == (match arg_of(opt_arg_entries_model(*args), key@) {
            Some(v) => v.count(),
            None => None,
        }),
{
    match find_arg(args, key) {
        Some(v) => match v.as_u64() {
            Some(n) => Ok(Some(n)),
            None => {
                let text = join3("`args.", key, "` must be a non-negative integer");
                match fail_field(path, &text) {
                    Ok(_) => Ok(None),
                    Err(p) => Err(p),
                }
            },
        },
        None => Ok(None),
    }
}

fn validate_generator_args(path: &str, g: Generator, args: &Option<Vec<ArgEntry>>) -> (r: Result<
    (),
    Problem,
>)
    requires
        args is Some,
    ensures
        problem_of(r) == generator_args_problem(path@, g, opt_arg_entries_model(*args)->0),
{
    match g {
        Generator::Sentence
        | Generator::Paragraph
        | Generator::Words
        | Generator::Sentences
        | Generator::Paragraphs
        | Generator::Password => {
            let min = match check_count(path, args, "min") {
                Ok(n) => n,
                Err(p) => {
                    return Err(p);
                },
            };
            let max = match check_count(path, args, "max") {
                Ok(n) => n,
                Err(p) => {
                    return Err(p);
                },
            };
            if let (Some(a), Some(b)) = (min, max) {
                if a >= b {
                    let lo = decimal(a);
                    let hi = decimal(b);
                    let text = join5(
                        "`args.min` (",
                        &lo,
                        ") must be less than `args.max` (",
                        &hi,
                        ")",
                    );
                    return fail_field(path, &text);
                }
            }
            Ok(())
        },
        Generator::Geohash => {
            if let Some(v) = find_arg(args, "precision") {
                match v.as_u64() {
                    None => {
                        return fail_field(path, "`args.precision` must be an integer 1–12");
                    },
                    Some(p) => {
                        if p < 1 || p > 12 {
                            let d = decimal(p);
                            let text = join2("`args.precision` must be between 1 and 12, got ", &d);
                            return fail_field(path, &text);
                        }
                    },
                }
            }
            Ok(())
        },
        Generator::NumberWithFormat => {
            match find_arg(args, "format") {
                None => fail_field(path, "generator `number_with_format` requires `args.format`"),
                Some(v) => {
                    if v.as_str().is_some() {
                        Ok(())
                    } else {
                        fail_field(path, "`args.format` must be a string")
                    }
                },
            }
        },
        _ => Ok(()),
    }
}

/// The problem of the arguments of a field.
pub open spec fn args_problem(path: Seq<char>, f: FieldModel) -> Option<Seq<PartModel>> {
    match f.args {
        None => None,
        Some(args) => if f.field_type == Some(FieldType::Boolean) {
            boolean_args_problem(path, args)
        } else {
            match f.generator {
                None => field_says(
                    path,
                    "`args` requires a `generator` to be set (or `type: boolean` for `ratio`)"@,
                ),
                Some(g) => match g.arg_names() {
                    None => field_says(
                        path,
                        "generator `"@ + g.label() + "` does not accept `args`"@,
                    ),
                    Some(names) => match unknown_arg(args, names, args.len() as int) {
                        Some(i) => field_says(
                            path,
                            "unknown arg '"@ + args[i].key + "' for generator `"@ + g.label()
                                + "` — valid keys: "@ + listed(names, names.len() as int),
                        ),
                        None => generator_args_problem(path, g, args),
                    },
                },
            }
        },
    }
}

fn list_keys(names: &Vec<&'static str>) -> (r: String)
    ensures
        r@ == listed(str_views(names@), names@.len() as int),
{
    let ghost nm = str_views(names@);
    if names.len() == 0 {
        let r = "".to_owned();
        proof {
            reveal_strlit("");
            assert(r@ =~= listed(nm, 0));
        }
        return r;
    }
    let mut r: String = names[0].to_owned();
    let mut i: usize = 1;
    assert(r@ == listed(nm, 1));
    while i < names.len()
        invariant
            1 <= i <= names.len(),
            nm == str_views(names@),
            r@ == listed(nm, i as int),
        decreases names.len() - i,
    {
        assert(nm[i as int] == names[i as int]@);
        r = join3(&r, ", ", names[i]);
        i += 1;
    }
    r
}

/// Checks the arguments of a field.
pub fn validate_args(path: &str, field: &Field) -> (r: Result<(), Problem>)
    ensures
        problem_of(r) == args_problem(path@, field.model()),
{
    assert(field.model().args == opt_arg_entries_model(field.args));
    match &field.args {
        None => Ok(()),
        Some(a) => {
            assert(opt_arg_entries_model(field.args) == Some(arg_entries_model(a@)));
            if matches!(field.field_type, Some(FieldType::Boolean)) {
                return validate_boolean_args(path, &field.args);
            }
            match field.generator {
                None => fail_field(
                    path,
                    "`args` requires a `generator` to be set (or `type: boolean` for `ratio`)",
                ),
                Some(g) => match g.valid_args() {
                    None => {
                        let text = join3("generator `", g.as_str(), "` does not accept `args`");
                        fail_field(path, &text)
                    },
                    Some(names) => {
                        match find_unknown_arg(a, &names) {
                            Some(i) => {
                                assert(arg_entries_model(a@)[i as int] == a[i as int].model());
                                let all = list_keys(&names);
                                let head = join5(
                                    "unknown arg '",
                                    &a[i].key,
                                    "' for generator `",
                                    g.as_str(),
                                    "` — valid keys: ",
                                );
                                let text = join2(&head, &all);
                                fail_field(path, &text)
                            },
                            None => validate_generator_args(path, g, &field.args),
                        }
                    },
                },
            }
        },
    }
}

// ---------------------------------------------------------------------------
// Dates
// ---------------------------------------------------------------------------

/// The problem of a bound that is no date.
pub open spec fn day_problem(path: Seq<char>, s: Option<Seq<char>>) -> Option<Seq<PartModel>> {
    match s {
        None => None,
        Some(t) => match day_of(t) {
            Ok(_) => None,
            Err(e) => field_says(
                path,
                "`after`/`before` for date field must be YYYY-MM-DD, got '"@ + t + "': "@ + e,
            ),
        },
    }
}

/// The problem of a bound that is no point in time.
pub open spec fn instant_problem(path: Seq<char>, s: Option<Seq<char>>) -> Option<Seq<PartModel>> {
    match s {
        None => None,
        Some(t) => match instant_of(t) {
            Ok(_) => None,
            Err(e) => field_says(
                path,
                "`after`/`before` for date_time field must be RFC 3339, got '"@ + t + "': "@ + e,
            ),
        },
    }
}

/// How a day is shown in a message.
pub open spec fn shown_day(day: i32) -> Seq<char> {
    match day_text_of(day) {
        Some(s) => s,
        None => Seq::empty(),
    }
}

/// A point in time is no earlier than another.
pub open spec fn not_before(a: (i64, u32), b: (i64, u32)) -> bool {
    a.0 > b.0 || (a.0 == b.0 && a.1 >= b.1)
}

/// The problem of the bounds of a date field.
pub open spec fn date_bounds_problem(path: Seq<char>, f: FieldModel) -> Option<Seq<PartModel>> {
    if f.field_type is None || (f.after is None && f.before is None) {
        None
    } else {
        match f.field_type->0 {
            FieldType::Date => first_of(
                day_problem(path, f.after),
                first_of(
                    day_problem(path, f.before),
                    if f.after is Some && f.before is Some && day_of(f.after->0)->Ok_0 >= day_of(
                        f.before->0,
                    )->Ok_0 {
                        field_says(
                            path,
                            "`after` ("@ + shown_day(day_of(f.after->0)->Ok_0)
                                + ") must be before `before` ("@ + shown_day(
                                day_of(f.before->0)->Ok_0,
                            ) + ")"@,
                        )
                    } else {
                        None
                    },
                ),
            ),
            FieldType::DateTime => first_of(
                instant_problem(path, f.after),
                first_of(
                    instant_problem(path, f.before),
                    if f.after is Some && f.before is Some && not_before(
                        instant_of(f.after->0)->Ok_0,
                        instant_of(f.before->0)->Ok_0,
                    ) {
                        field_says(path, "`after` must be before `before`"@)
                    } else {
                        None
                    },
                ),
            ),
            t => field_says(
                path,
                "`after`/`before` is only valid on `date` or `date_time` fields, but this field has type `"@
                    + t.label() + "`"@,
            ),
        }
    }
}

fn read_day(path: &str, s: &Option<String>) -> (r: Result<Option<i32>, Problem>)
    ensures
        problem_of(r) == day_problem(path@, crate::text::opt_text(*s)),
        r is Ok && s is Some ==> r->Ok_0 is Some && day_of(s->0@) == Ok::<i32, Seq<char>>(
            r->Ok_0->0,
        ),
        r is Ok && s is None ==> r->Ok_0 is None,
{
    match s {
        None => Ok(None),
        Some(t) => match parse_day(t) {
            Ok(d) => Ok(Some(d)),
            Err(e) => {
                let text = join4(
                    "`after`/`before` for date field must be YYYY-MM-DD, got '",
                    t,
                    "': ",
                    &e,
                );
                match fail_field(path, &text) {
                    Ok(_) => Ok(None),
                    Err(p) => Err(p),
                }
            },
        },
    }
}

fn read_instant(path: &str, s: &Option<String>) -> (r: Result<Option<(i64, u32)>, Problem>)
    ensures
        problem_of(r) == instant_problem(path@, crate::text::opt_text(*s)),
        r is Ok && s is Some ==> r->Ok_0 is Some && instant_of(s->0@) == Ok::<
            (i64, u32),
            Seq<char>,
        >(r->Ok_0->0),
        r is Ok && s is None ==> r->Ok_0 is None,
{
    match s {
        None => Ok(None),
        Some(t) => match parse_instant(t) {
            Ok(d) => Ok(Some(d)),
            Err(e) => {
                let text = join4(
                    "`after`/`before` for date_time field must be RFC 3339, got '",
                    t,
                    "': ",
                    &e,
                );
                match fail_field(path, &text) {
                    Ok(_) => Ok(None),
                    Err(p) => Err(p),
                }
            },
        },
    }
}

fn show_day(day: i32) -> (r: String)
    ensures
        r@ == shown_day(day),
{
    match day_text(day) {
        Some(s) => s,
        None => {
            proof {
                reveal_strlit("");
                assert(""@ =~= Seq::<char>::empty());
            }
            "".to_owned()
        },
    }
}

/// Checks the bounds of a date field.
pub fn validate_date_bounds(path: &str, field: &Field) -> (r: Result<(), Problem>)
    ensures
        problem_of(r) == date_bounds_problem(path@, field.model()),
{
    let ft = match field.field_type {
        Some(t) => t,
        None => {
            return Ok(());
        },
    };
    if field.after.is_none() && field.before.is_none() {
        return Ok(());
    }
    match ft {
        FieldType::Date => {
            let after = match read_day(path, &field.after) {
                Ok(d) => d,
                Err(p) => {
                    return Err(p);
                },
            };
            let before = match read_day(path, &field.before) {
                Ok(d) => d,
                Err(p) => {
                    return Err(p);
                },
            };
            if let (Some(a), Some(b)) = (after, before) {
                if a >= b {
                    let x = show_day(a);
                    let y = show_day(b);
                    let text = join5("`after` (", &x, ") must be before `before` (", &y, ")");
                    return fail_field(path, &text);
                }
            }
            Ok(())
        },
        FieldType::DateTime => {
            let after = match read_instant(path, &field.after) {
                Ok(d) => d,
                Err(p) => {
                    return Err(p);
                },
            };
            let before = match read_instant(path, &field.before) {
                Ok(d) => d,
                Err(p) => {
                    return Err(p);
                },
            };
            if let (Some(a), Some(b)) = (after, before) {
                if a.0 > b.0 || (a.0 == b.0 && a.1 >= b.1) {
                    return fail_field(path, "`after` must be before `before`");
                }
            }
            Ok(())
        },
        t => {
            let text = join3(
                "`after`/`before` is only valid on `date` or `date_time` fields, but this field has type `",
                t.as_str(),
                "`",
            );
            fail_field(path, &text)
        },
    }
}

// ---------------------------------------------------------------------------
// Sources of values
// ---------------------------------------------------------------------------

/// The problem of a computed field: nothing else may say where its values come from.
pub open spec fn expression_field_problem(path: Seq<char>, f: FieldModel) -> Option<Seq<PartModel>> {
    if f.field_type is Some {
        field_says(path, "`expression` cannot be combined with `type`"@)
    } else if f.type_ref() is Some {
        field_says(path, "`expression` cannot be combined with `ref`"@)
    } else if f.generator is Some || sets_bound(f.range) {
        field_says(path, "`expression` cannot be combined with `generator` or `range`"@)
    } else if f.value is Some {
        field_says(path, "`expression` cannot be combined with `value`"@)
    } else if f.fields.len() > 0 || f.content is Some {
        field_says(path, "`expression` cannot be combined with `fields` or `content`"@)
    } else {
        None
    }
}

fn validate_expression_field(path: &str, field: &Field) -> (r: Result<(), Problem>)
    ensures
        problem_of(r) == expression_field_problem(path@, field.model()),
{
    assert(field.model().fields == fields_model(field.fields@));
    if field.field_type.is_some() {
        return fail_field(path, "`expression` cannot be combined with `type`");
    }
    if field.simple_ref().is_some() {
        return fail_field(path, "`expression` cannot be combined with `ref`");
    }
    if field.generator.is_some() || has_bound(&field.range) {
        return fail_field(path, "`expression` cannot be combined with `generator` or `range`");
    }
    if field.value.is_some() {
        return fail_field(path, "`expression` cannot be combined with `value`");
    }
    if field.fields.len() > 0 || field.content.is_some() {
        return fail_field(path, "`expression` cannot be combined with `fields` or `content`");
    }
    Ok(())
}

/// The problem of a reference beside structure of the field's own.
pub open spec fn ref_structure_problem(path: Seq<char>, f: FieldModel) -> Option<Seq<PartModel>> {
    if f.type_ref() is None {
        None
    } else if f.field_type is Some {
        field_says(
            path,
            "`type` cannot be set alongside `ref` — the type is inherited from the referenced field"@,
        )
    } else if f.fields.len() > 0 {
        field_says(path, "`ref` and `fields` cannot both be set"@)
    } else if f.content is Some {
        field_says(path, "`ref` and `content` cannot both be set"@)
    } else {
        None
    }
}

fn validate_ref_structural_bans(path: &str, field: &Field) -> (r: Result<(), Problem>)
    ensures
        problem_of(r) == ref_structure_problem(path@, field.model()),
{
    assert(field.model().fields == fields_model(field.fields@));
    if field.simple_ref().is_none() {
        return Ok(());
    }
    if field.field_type.is_some() {
        return fail_field(
            path,
            "`type` cannot be set alongside `ref` — the type is inherited from the referenced field",
        );
    }
    if field.fields.len() > 0 {
        return fail_field(path, "`ref` and `fields` cannot both be set");
    }
    if field.content.is_some() {
        return fail_field(path, "`ref` and `content` cannot both be set");
    }
    Ok(())
}

/// The first of the first `n` case restrictions without a name.
pub open spec fn first_nameless(
    cases: Seq<crate::models::CaseDeltaModel>,
    n: int,
) -> Option<int>
    decreases n,
{
    if n <= 0 {
        None
    } else {
        match first_nameless(cases, n - 1) {
            Some(i) => Some(i),
            None => if cases[n - 1].name.len() == 0 {
                Some(n - 1)
            } else {
                None
            },
        }
    }
}

proof fn lemma_nameless_stays(cases: Seq<crate::models::CaseDeltaModel>, k: int, n: int)
    requires
        0 <= k <= n,
        first_nameless(cases, k) is Some,
    ensures
        first_nameless(cases, n) == first_nameless(cases, k),
    decreases n - k,
{
    if k < n {
        lemma_nameless_stays(cases, k, n - 1);
    }
}

/// The problem of the keys that restrict what a field may hold.
pub open spec fn specialization_problem(path: Seq<char>, f: FieldModel) -> Option<Seq<PartModel>> {
    if f.one_of is Some && f.one_of->0.len() == 0 {
        field_says(path, "`one_of` must be non-empty"@)
    } else if f.one_of is Some && f.value is Some {
        field_says(
            path,
            "`value` and `one_of` cannot both be set — use `value` for a single constant, `one_of` for a finite set"@,
        )
    } else if f.preserve_marginal && f.field_type != Some(FieldType::Variant) {
        field_says(path, "`preserve_marginal` is only valid on a `type: variant` field"@)
    } else if f.constrain_cases.len() == 0 {
        None
    } else if f.type_ref() is None {
        field_says(
            path,
            "`constrain_cases` is only valid on a field that `ref`s a parent variant (it specialises that variant's cases by name)"@,
        )
    } else {
        match first_nameless(f.constrain_cases, f.constrain_cases.len() as int) {
            Some(i) => field_says(
                path,
                "`constrain_cases["@ + decimal_text(i as nat)
                    + "]` must name the parent case it specialises"@,
            ),
            None => None,
        }
    }
}

fn validate_specialization_keys(path: &str, field: &Field) -> (r: Result<(), Problem>)
    ensures
        problem_of(r) == specialization_problem(path@, field.model()),
{
    let ghost f = field.model();
    let ghost cm = case_deltas_model(field.constrain_cases@);
    assert(f.constrain_cases == cm);
    if let Some(set) = &field.one_of {
        assert(f.one_of == Some(yaml_values_model(set@)));
        if set.len() == 0 {
            return fail_field(path, "`one_of` must be non-empty");
        }
        if field.value.is_some() {
            return fail_field(
                path,
                "`value` and `one_of` cannot both be set — use `value` for a single constant, `one_of` for a finite set",
            );
        }
    }
    if field.preserve_marginal && !matches!(field.field_type, Some(FieldType::Variant)) {
        return fail_field(path, "`preserve_marginal` is only valid on a `type: variant` field");
    }
    if field.constrain_cases.len() > 0 {
        if field.simple_ref().is_none() {
            return fail_field(
                path,
                "`constrain_cases` is only valid on a field that `ref`s a parent variant (it specialises that variant's cases by name)",
            );
        }
        let mut i: usize = 0;
        while i < field.constrain_cases.len()
            invariant
                i <= field.constrain_cases.len(),
                cm == case_deltas_model(field.constrain_cases@),
                f == field.model(),
                f.constrain_cases == cm,
                f.type_ref() is Some,
                !(f.one_of is Some && f.one_of->0.len() == 0),
                !(f.one_of is Some && f.value is Some),
                !(f.preserve_marginal && f.field_type != Some(FieldType::Variant)),
                cm.len() > 0,
                first_nameless(cm, i as int) is None,
            decreases field.constrain_cases.len() - i,
        {
            assert(cm[i as int] == field.constrain_cases[i as int].model());
            if field.constrain_cases[i].name.as_str().unicode_len() == 0 {
                proof {
                    lemma_nameless_stays(cm, i + 1, cm.len() as int);
                }
                let d = decimal(i as u64);
                let text = join3(
                    "`constrain_cases[",
                    &d,
                    "]` must name the parent case it specialises",
                );
                return fail_field(path, &text);
            }
            i += 1;
        }
    }
    Ok(())
}

// ---------------------------------------------------------------------------
// Alternatives
// ---------------------------------------------------------------------------

/// How some declared shares add up.
#[derive(Debug)]
pub struct ShareTotal {
    /// The shares, in the order in which they are added.
    pub shares: Vec<Num>,
    /// The sum is above one.
    pub above: bool,
    /// The sum is not one.
    pub off: bool,
    /// The sum, with four decimals.
    pub shown: String,
}

/// What a [`ShareTotal`] says, free of representation.
pub struct ShareTotalModel {
    pub shares: Seq<Num>,
    pub above: bool,
    pub off: bool,
    pub shown: Seq<char>,
}

impl ShareTotal {
    /// The content of this value, free of representation.
    pub open spec fn model(self) -> ShareTotalModel {
        ShareTotalModel {
            shares: self.shares@,
            above: self.above,
            off: self.off,
            shown: self.shown@,
        }
    }
}

/// The models of a list of totals.
pub open spec fn totals_model(s: Seq<ShareTotal>) -> Seq<ShareTotalModel> {
    Seq::new(s.len(), |i: int| s[i].model())
}

/// The shares that the first `n` alternatives declare.
pub open spec fn declared(variants: Seq<FieldVariantModel>, n: int) -> Seq<Num>
    decreases n,
{
    if n <= 0 {
        Seq::empty()
    } else {
        match variants[n - 1].ratio {
            Some(x) => declared(variants, n - 1).push(x),
            None => declared(variants, n - 1),
        }
    }
}

/// The shares that alternatives declare.
pub fn declared_shares(variants: &Vec<FieldVariant>) -> (r: Vec<Num>)
    ensures
        r@ == declared(field_variants_model(variants@), variants@.len() as int),
{
    let ghost vm = field_variants_model(variants@);
    let mut r: Vec<Num> = Vec::new();
    let mut i: usize = 0;
    while i < variants.len()
        invariant
            i <= variants.len(),
            vm == field_variants_model(variants@),
            r@ == declared(vm, i as int),
        decreases variants.len() - i,
    {
        assert(vm[i as int] == variants[i as int].model());
        if let Some(x) = variants[i].ratio {
            r.push(x);
        }
        i += 1;
    }
    r
}

fn same_shares(a: &Vec<Num>, b: &Vec<Num>) -> (r: bool)
    ensures
        r == (a@ == b@),
{
    if a.len() != b.len() {
        return false;
    }
    let mut i: usize = 0;
    while i < a.len()
        invariant
            i <= a.len(),
            a.len() == b.len(),
            forall|j: int| 0 <= j < i ==> a[j] == b[j],
        decreases a.len() - i,
    {
        if a[i].key != b[i].key {
            return false;
        }
        i += 1;
    }
    assert(a@ =~= b@);
    true
}

/// The first total of the given shares, from `i` on.
pub open spec fn total_at(totals: Seq<ShareTotalModel>, shares: Seq<Num>, i: int) -> Option<
    ShareTotalModel,
>
    decreases totals.len() - i,
{
    if i < 0 || i >= totals.len() {
        None
    } else if totals[i].shares == shares {
        Some(totals[i])
    } else {
        total_at(totals, shares, i + 1)
    }
}

fn find_total<'a>(totals: &'a Vec<ShareTotal>, shares: &Vec<Num>) -> (r: Option<&'a ShareTotal>)
    ensures
        match r {
            Some(t) => total_at(totals_model(totals@), shares@, 0) == Some(t.model()),
            None => total_at(totals_model(totals@), shares@, 0) is None,
        },
{
    let ghost tm = totals_model(totals@);
    let mut i: usize = 0;
    while i < totals.len()
        invariant
            i <= totals.len(),
            tm == totals_model(totals@),
            total_at(tm, shares@, 0) == total_at(tm, shares@, i as int),
        decreases totals.len() - i,
    {
        assert(tm[i as int] == totals[i as int].model());
        if same_shares(&totals[i].shares, shares) {
            return Some(&totals[i]);
        }
        i += 1;
    }
    None
}

/// Every alternative has a share of its own.
pub open spec fn all_shares_given(variants: Seq<FieldVariantModel>) -> bool {
    forall|i: int| 0 <= i < variants.len() ==> (#[trigger] variants[i]).ratio is Some
}

/// The problem of the shares of alternatives.
pub open spec fn shares_problem(
    path: Seq<char>,
    variants: Seq<FieldVariantModel>,
    totals: Seq<ShareTotalModel>,
) -> Option<Seq<PartModel>> {
    match total_at(totals, declared(variants, variants.len() as int), 0) {
        None => None,
        Some(t) => if t.above {
            field_says(
                path,
                "variant distributions sum to "@ + t.shown + " which exceeds 1.0"@,
            )
        } else if all_shares_given(variants) && t.off {
            field_says(
                path,
                "all variant distributions are explicit but sum to "@ + t.shown + ", not 1.0"@,
            )
        } else {
            None
        },
    }
}

fn check_shares(path: &str, variants: &Vec<FieldVariant>, totals: &Vec<ShareTotal>) -> (r: Result<
    (),
    Problem,
>)
    ensures
        problem_of(r) == shares_problem(
            path@,
            field_variants_model(variants@),
            totals_model(totals@),
        ),
{
    let ghost vm = field_variants_model(variants@);
    let mut given: bool = true;
    let mut i: usize = 0;
    while i < variants.len()
        invariant
            i <= variants.len(),
            vm == field_variants_model(variants@),
            given == (forall|j: int| 0 <= j < i ==> (#[trigger] vm[j]).ratio is Some),
        decreases variants.len() - i,
    {
        assert(vm[i as int] == variants[i as int].model());
        if variants[i].ratio.is_none() {
            given = false;
        }
        i += 1;
    }
    assert(given == all_shares_given(vm));
    match find_total(totals, &declared_shares(variants)) {
        None => Ok(()),
        Some(t) => {
            if t.above {
                let text = join3(
                    "variant distributions sum to ",
                    &t.shown,
                    " which exceeds 1.0",
                );
                return fail_field(path, &text);
            }
            if given && t.off {
                let text = join3(
                    "all variant distributions are explicit but sum to ",
                    &t.shown,
                    ", not 1.0",
                );
                return fail_field(path, &text);
            }
            Ok(())
        },
    }
}

/// The path of alternative `i` of a field.
pub open spec fn variant_path(path: Seq<char>, i: int) -> Seq<char> {
    path + ".variants["@ + decimal_text(i as nat) + "]"@
}

fn path_of_variant(path: &str, i: usize) -> (r: String)
    ensures
        r@ == variant_path(path@, i as int),
{
    let d = decimal(i as u64);
    join4(path, ".variants[", &d, "]")
}

/// The problem of an alternative that narrows a referenced field.
pub open spec fn narrowing_problem(path: Seq<char>, c: FieldVariantModel) -> Option<
    Seq<PartModel>,
> {
    if c.fields.len() > 0 || c.field_type == Some(FieldType::Object) {
        field_says(
            path,
            "a `ref` + `variants` (per-case specialisation) case cannot be an object case — it specialises a scalar inherited field; use `value` / `generator` / `range` only"@,
        )
    } else if c.value is None && c.generator is None && !sets_bound(c.range) {
        field_says(
            path,
            "a `ref` + `variants` case must specialise something (`value`, `generator`, or `range`)"@,
        )
    } else {
        None
    }
}

/// The first problem of the first `n` alternatives that narrow a referenced field.
pub open spec fn narrowings_problem(
    path: Seq<char>,
    variants: Seq<FieldVariantModel>,
    n: int,
) -> Option<Seq<PartModel>>
    decreases n,
{
    if n <= 0 {
        None
    } else {
        first_of(
            narrowings_problem(path, variants, n - 1),
            narrowing_problem(variant_path(path, n - 1), variants[n - 1]),
        )
    }
}

proof fn lemma_narrowings_stay(
    path: Seq<char>,
    variants: Seq<FieldVariantModel>,
    k: int,
    n: int,
)
    requires
        0 <= k <= n,
        narrowings_problem(path, variants, k) is Some,
    ensures
        narrowings_problem(path, variants, n) == narrowings_problem(path, variants, k),
    decreases n - k,
{
    if k < n {
        lemma_narrowings_stay(path, variants, k, n - 1);
    }
}

/// What checking gives: warnings, or the first problem.
pub open spec fn checked(problem: Option<Seq<PartModel>>, warnings: Seq<Seq<char>>) -> Result<
    Seq<Seq<char>>,
    Seq<PartModel>,
> {
    match problem {
        Some(p) => Err(p),
        None => Ok(warnings),
    }
}

/// A result matches what checking gives, with warnings added behind those that were there. A
/// problem leaves the warnings that were given before it.
pub open spec fn reports(
    r: Result<(), Problem>,
    before: Seq<Seq<char>>,
    after: Seq<Seq<char>>,
    want: Result<Seq<Seq<char>>, Seq<PartModel>>,
) -> bool {
    match want {
        Ok(w) => r is Ok && after == before + w,
        Err(p) => problem_of(r) == Some(p) && extends(before, after),
    }
}

/// A warning on its own, where it applies.
pub open spec fn warning_if(applies: bool, text: Seq<char>) -> Seq<Seq<char>> {
    if applies {
        seq![text]
    } else {
        Seq::empty()
    }
}

/// Notes a warning.
pub fn warn(warnings: &mut Vec<String>, text: String)
    ensures
        texts(final(warnings)@) == texts(old(warnings)@) + seq![text@],
{
    let ghost before = warnings@;
    warnings.push(text);
    assert(texts(warnings@) =~= texts(before) + seq![text@]);
}

/// The outcome of checking alternatives that narrow a referenced field.
pub open spec fn narrowing_check(
    path: Seq<char>,
    variants: Seq<FieldVariantModel>,
    totals: Seq<ShareTotalModel>,
) -> Result<Seq<Seq<char>>, Seq<PartModel>> {
    checked(
        first_of(
            narrowings_problem(path, variants, variants.len() as int),
            shares_problem(path, variants, totals),
        ),
        warning_if(
            variants.len() == 1,
            "warning: field '"@ + path
                + "' has only one variant case — this is equivalent to a plain ref specialisation"@,
        ),
    )
}

fn check_narrowing(path: &str, c: &FieldVariant) -> (r: Result<(), Problem>)
    ensures
        problem_of(r) == narrowing_problem(path@, c.model()),
{
    assert(c.model().fields == fields_model(c.fields@));
    if c.fields.len() > 0 || matches!(c.field_type, Some(FieldType::Object)) {
        return fail_field(
            path,
            "a `ref` + `variants` (per-case specialisation) case cannot be an object case — it specialises a scalar inherited field; use `value` / `generator` / `range` only",
        );
    }
    if c.value.is_none() && c.generator.is_none() && !has_bound(&c.range) {
        return fail_field(
            path,
            "a `ref` + `variants` case must specialise something (`value`, `generator`, or `range`)",
        );
    }
    Ok(())
}

fn validate_specialising_variants(
    path: &str,
    variants: &Vec<FieldVariant>,
    totals: &Vec<ShareTotal>,
    warnings: &mut Vec<String>,
) -> (r: Result<(), Problem>)
    ensures
        reports(
            r,
            texts(old(warnings)@),
            texts(final(warnings)@),
            narrowing_check(path@, field_variants_model(variants@), totals_model(totals@)),
        ),
{
    let ghost vm = field_variants_model(variants@);
    let mut i: usize = 0;
    while i < variants.len()
        invariant
            i <= variants.len(),
            vm == field_variants_model(variants@),
            narrowings_problem(path@, vm, i as int) is None,
        decreases variants.len() - i,
    {
        assert(vm[i as int] == variants[i as int].model());
        let cp = path_of_variant(path, i);
        if let Err(p) = check_narrowing(&cp, &variants[i]) {
            proof {
                lemma_narrowings_stay(path@, vm, i + 1, vm.len() as int);
            }
            return Err(p);
        }
        i += 1;
    }
    check_shares(path, variants, totals)?;
    if variants.len() == 1 {
        warn(
            warnings,
            join3(
                "warning: field '",
                path,
                "' has only one variant case — this is equivalent to a plain ref specialisation",
            ),
        );
    } else {
        assert(texts(warnings@) =~= texts(warnings@) + Seq::<Seq<char>>::empty());
    }
    Ok(())
}

/// The problem of an alternative at `path`.
pub open spec fn variant_says(path: Seq<char>, text: Seq<char>) -> Option<Seq<PartModel>> {
    says("field variant '"@ + path + "': "@ + text)
}

fn fail_variant(path: &str, text: &str) -> (r: Result<(), Problem>)
    ensures
        problem_of(r) == variant_says(path@, text@),
{
    fail(join4("field variant '", path, "': ", text))
}

/// A value whose type shows.
pub open spec fn typed_value(v: Option<YamlModel>) -> bool {
    v is Some && (v->0 is Text || v->0 is Int || v->0 is Float || v->0 is Bool)
}

/// The problem of one alternative of a field.
pub open spec fn variant_problem(path: Seq<char>, c: FieldVariantModel) -> Option<Seq<PartModel>> {
    if c.field_type == Some(FieldType::Variant) {
        variant_says(path, "nested `type: variant` is not supported"@)
    } else if c.value is Some && c.generator is Some {
        variant_says(path, "`value` and `generator` cannot both be set"@)
    } else if c.value is Some && sets_bound(c.range) {
        variant_says(path, "`value` and `range` cannot both be set"@)
    } else if c.range is Some && c.range->0.min is Some && c.range->0.max is Some
        && c.range->0.max->0.below(c.range->0.min->0) {
        Some(
            numbered(
                "field variant '"@ + path + "': range.min ("@,
                c.range->0.min->0,
                ") must be ≤ range.max ("@,
                c.range->0.max->0,
                ")"@,
            ),
        )
    } else {
        first_of(
            locale_problem(path, c.locale, c.generator),
            if c.generator is Some && c.field_type is Some && !c.generator->0.fits(
                c.field_type->0,
            ) {
                variant_says(
                    path,
                    "generator `"@ + c.generator->0.label() + "` is not valid for type `"@
                        + c.field_type->0.label() + "`"@,
                )
            } else if c.field_type is None && !sets_bound(c.range) && !typed_value(c.value) {
                variant_says(
                    path,
                    "cannot determine type — set `type`, `value`, or `range`"@,
                )
            } else {
                None
            },
        )
    }
}

fn shows_type(v: &Option<YamlValue>) -> (r: bool)
    ensures
        r == typed_value(crate::models::opt_yaml_value_model(*v)),
{
    match v {
        Some(YamlValue::Text(_)) => true,
        Some(YamlValue::Int { value: _, num: _ }) => true,
        Some(YamlValue::Float(_)) => true,
        Some(YamlValue::Bool(_)) => true,
        _ => false,
    }
}

fn validate_field_variant(path: &str, choice: &FieldVariant) -> (r: Result<(), Problem>)
    ensures
        problem_of(r) == variant_problem(path@, choice.model()),
{
    if matches!(choice.field_type, Some(FieldType::Variant)) {
        return fail_variant(path, "nested `type: variant` is not supported");
    }
    if choice.value.is_some() {
        if choice.generator.is_some() {
            return fail_variant(path, "`value` and `generator` cannot both be set");
        }
        if has_bound(&choice.range) {
            return fail_variant(path, "`value` and `range` cannot both be set");
        }
    }
    if let Some(r) = &choice.range {
        if let (Some(lo), Some(hi)) = (r.min, r.max) {
            if hi.lt(lo) {
                return Err(
                    numbered_problem(
                        join3("field variant '", path, "': range.min ("),
                        lo,
                        ") must be ≤ range.max (",
                        hi,
                        ")",
                    ),
                );
            }
        }
    }
    validate_locale_generator(path, choice.locale, choice.generator)?;
    if let (Some(g), Some(t)) = (choice.generator, choice.field_type) {
        if !g.valid_for(&t) {
            let text = join5(
                "generator `",
                g.as_str(),
                "` is not valid for type `",
                t.as_str(),
                "`",
            );
            return fail_variant(path, &text);
        }
    }
    if choice.field_type.is_none() && !has_bound(&choice.range) && !shows_type(&choice.value) {
        return fail_variant(path, "cannot determine type — set `type`, `value`, or `range`");
    }
    Ok(())
}

/// The first problem of the first `n` alternatives of a field.
pub open spec fn variants_problem(path: Seq<char>, variants: Seq<FieldVariantModel>, n: int) -> Option<
    Seq<PartModel>,
>
    decreases n,
{
    if n <= 0 {
        None
    } else {
        first_of(
            variants_problem(path, variants, n - 1),
            variant_problem(variant_path(path, n - 1), variants[n - 1]),
        )
    }
}

proof fn lemma_variants_stay(path: Seq<char>, variants: Seq<FieldVariantModel>, k: int, n: int)
    requires
        0 <= k <= n,
        variants_problem(path, variants, k) is Some,
    ensures
        variants_problem(path, variants, n) == variants_problem(path, variants, k),
    decreases n - k,
{
    if k < n {
        lemma_variants_stay(path, variants, k, n - 1);
    }
}

/// The outcome of checking a field with alternatives.
pub open spec fn variant_check(
    path: Seq<char>,
    variants: Seq<FieldVariantModel>,
    totals: Seq<ShareTotalModel>,
) -> Result<Seq<Seq<char>>, Seq<PartModel>> {
    checked(
        if variants.len() == 0 {
            field_says(path, "`type: variant` requires a non-empty `variants` list"@)
        } else {
            first_of(
                variants_problem(path, variants, variants.len() as int),
                shares_problem(path, variants, totals),
            )
        },
        warning_if(
            variants.len() == 1,
            "warning: field '"@ + path
                + "' has only one variant choice — this is equivalent to a plain field"@,
        ),
    )
}

fn validate_variant_field(
    path: &str,
    variants: &Vec<FieldVariant>,
    totals: &Vec<ShareTotal>,
    warnings: &mut Vec<String>,
) -> (r: Result<(), Problem>)
    ensures
        reports(
            r,
            texts(old(warnings)@),
            texts(final(warnings)@),
            variant_check(path@, field_variants_model(variants@), totals_model(totals@)),
        ),
{
    let ghost vm = field_variants_model(variants@);
    if variants.len() == 0 {
        return fail_field(path, "`type: variant` requires a non-empty `variants` list");
    }
    let mut i: usize = 0;
    while i < variants.len()
        invariant
            i <= variants.len(),
            variants.len() > 0,
            vm == field_variants_model(variants@),
            variants_problem(path@, vm, i as int) is None,
        decreases variants.len() - i,
    {
        assert(vm[i as int] == variants[i as int].model());
        let cp = path_of_variant(path, i);
        if let Err(p) = validate_field_variant(&cp, &variants[i]) {
            proof {
                lemma_variants_stay(path@, vm, i + 1, vm.len() as int);
            }
            return Err(p);
        }
        i += 1;
    }
    check_shares(path, variants, totals)?;
    if variants.len() == 1 {
        warn(
            warnings,
            join3(
                "warning: field '",
                path,
                "' has only one variant choice — this is equivalent to a plain field",
            ),
        );
    } else {
        assert(texts(warnings@) =~= texts(warnings@) + Seq::<Seq<char>>::empty());
    }
    Ok(())
}

// ---------------------------------------------------------------------------
// Typed fields
// ---------------------------------------------------------------------------

/// True when a value can stand in for a missing one of a type.
pub open spec fn fits_as_default(t: FieldType, v: YamlModel) -> bool {
    match t {
        FieldType::Number => v is Int || v is Float,
        FieldType::String => v is Text,
        FieldType::Date => v is Text,
        FieldType::DateTime => v is Text,
        FieldType::Boolean => v is Bool,
        FieldType::List => v is Sequence,
        FieldType::Object => v is Mapping,
        _ => true,
    }
}

/// What a default of a type must be.
pub open spec fn default_kind(t: FieldType) -> Seq<char> {
    match t {
        FieldType::Number => "a number"@,
        FieldType::String => "a string"@,
        FieldType::Date => "a string"@,
        FieldType::DateTime => "a string"@,
        FieldType::Boolean => "a boolean"@,
        FieldType::List => "a sequence (e.g. `default: []`)"@,
        FieldType::Object => "a mapping"@,
        _ => ""@,
    }
}

/// True when a value can be one of a finite set of a type.
pub open spec fn fits_in_set(t: FieldType, v: YamlModel) -> bool {
    match t {
        FieldType::Number => v is Int || v is Float,
        FieldType::String => v is Text,
        FieldType::Date => v is Text,
        FieldType::DateTime => v is Text,
        FieldType::Boolean => v is Bool,
        _ => true,
    }
}

/// What the values of a finite set of a type must be.
pub open spec fn set_kind(t: FieldType) -> Seq<char> {
    match t {
        FieldType::Number => "numbers"@,
        FieldType::String => "strings"@,
        FieldType::Date => "strings"@,
        FieldType::DateTime => "strings"@,
        FieldType::Boolean => "booleans"@,
        _ => ""@,
    }
}

/// Every value of a set fits the type.
pub open spec fn all_fit(t: FieldType, s: Seq<YamlModel>) -> bool {
    forall|i: int| 0 <= i < s.len() ==> fits_in_set(t, #[trigger] s[i])
}

/// The problem of declared values that do not fit the type.
pub open spec fn value_problem(path: Seq<char>, f: FieldModel, t: FieldType) -> Option<
    Seq<PartModel>,
> {
    if f.default is Some && !fits_as_default(t, f.default->0) {
        field_says(
            path,
            "`default` value is incompatible with `type: "@ + t.label() + "` — expected "@
                + default_kind(t),
        )
    } else if f.one_of is Some && !all_fit(t, f.one_of->0) {
        field_says(
            path,
            "`one_of` entries must be "@ + set_kind(t) + " for `type: "@ + t.label() + "`"@,
        )
    } else {
        None
    }
}

fn default_fits(t: FieldType, v: &YamlValue) -> (r: bool)
    ensures
        r == fits_as_default(t, v.model()),
{
    match t {
        FieldType::Number => v.as_num().is_some(),
        FieldType::String => v.as_str().is_some(),
        FieldType::Date => v.as_str().is_some(),
        FieldType::DateTime => v.as_str().is_some(),
        FieldType::Boolean => v.as_bool().is_some(),
        FieldType::List => match v {
            YamlValue::Sequence { len: _, text: _ } => true,
            _ => false,
        },
        FieldType::Object => match v {
            YamlValue::Mapping { text: _ } => true,
            _ => false,
        },
        _ => true,
    }
}

fn member_fits(t: FieldType, v: &YamlValue) -> (r: bool)
    ensures
        r == fits_in_set(t, v.model()),
{
    match t {
        FieldType::Number => v.as_num().is_some(),
        FieldType::String => v.as_str().is_some(),
        FieldType::Date => v.as_str().is_some(),
        FieldType::DateTime => v.as_str().is_some(),
        FieldType::Boolean => v.as_bool().is_some(),
        _ => true,
    }
}

fn kind_of_default(t: FieldType) -> (r: &'static str)
    ensures
        r@ == default_kind(t),
{
    match t {
        FieldType::Number => "a number",
        FieldType::String => "a string",
        FieldType::Date => "a string",
        FieldType::DateTime => "a string",
        FieldType::Boolean => "a boolean",
        FieldType::List => "a sequence (e.g. `default: []`)",
        FieldType::Object => "a mapping",
        _ => "",
    }
}

fn kind_of_set(t: FieldType) -> (r: &'static str)
    ensures
        r@ == set_kind(t),
{
    match t {
        FieldType::Number => "numbers",
        FieldType::String => "strings",
        FieldType::Date => "strings",
        FieldType::DateTime => "strings",
        FieldType::Boolean => "booleans",
        _ => "",
    }
}

fn check_values(path: &str, field: &Field, t: FieldType) -> (r: Result<(), Problem>)
    ensures
        problem_of(r) == value_problem(path@, field.model(), t),
{
    if let Some(v) = &field.default {
        assert(field.model().default == Some(v.model()));
        if !default_fits(t, v) {
            let text = join4(
                "`default` value is incompatible with `type: ",
                t.as_str(),
                "` — expected ",
                kind_of_default(t),
            );
            return fail_field(path, &text);
        }
    }
    if let Some(set) = &field.one_of {
        let ghost sm = yaml_values_model(set@);
        assert(field.model().one_of == Some(sm));
        let mut i: usize = 0;
        while i < set.len()
            invariant
                i <= set.len(),
                sm == yaml_values_model(set@),
                field.model().one_of == Some(sm),
                !(field.model().default is Some && !fits_as_default(t, field.model().default->0)),
                forall|j: int| 0 <= j < i ==> fits_in_set(t, #[trigger] sm[j]),
            decreases set.len() - i,
        {
            assert(sm[i as int] == set[i as int].model());
            if !member_fits(t, &set[i]) {
                assert(!all_fit(t, sm));
                let text = join5(
                    "`one_of` entries must be ",
                    kind_of_set(t),
                    " for `type: ",
                    t.as_str(),
                    "`",
                );
                return fail_field(path, &text);
            }
            i += 1;
        }
    }
    Ok(())
}

/// The problem of a field whose structure does not go with its type.
pub open spec fn structure_problem(path: Seq<char>, f: FieldModel, t: FieldType) -> Option<
    Seq<PartModel>,
> {
    if f.fields.len() > 0 && !(t is Object) {
        field_says(
            path,
            "`fields` is only valid on `object` type fields, but this field has type `"@
                + t.label() + "`"@,
        )
    } else if f.content is Some && !(t is List) {
        field_says(
            path,
            "`content` is only valid on `list` type fields, but this field has type `"@
                + t.label() + "`"@,
        )
    } else if sets_bound(f.range) && !(t is Number) {
        field_says(
            path,
            "`range` is only valid on `number` type fields, but this field has type `"@
                + t.label() + "`"@,
        )
    } else if f.generator is Some && !f.generator->0.fits(t) {
        field_says(
            path,
            "generator `"@ + f.generator->0.label() + "` is not valid for type `"@ + t.label()
                + "`"@,
        )
    } else {
        None
    }
}

fn check_structure(path: &str, field: &Field, t: FieldType) -> (r: Result<(), Problem>)
    ensures
        problem_of(r) == structure_problem(path@, field.model(), t),
{
    assert(field.model().fields == fields_model(field.fields@));
    if field.fields.len() > 0 && !matches!(t, FieldType::Object) {
        let text = join3(
            "`fields` is only valid on `object` type fields, but this field has type `",
            t.as_str(),
            "`",
        );
        return fail_field(path, &text);
    }
    if field.content.is_some() && !matches!(t, FieldType::List) {
        let text = join3(
            "`content` is only valid on `list` type fields, but this field has type `",
            t.as_str(),
            "`",
        );
        return fail_field(path, &text);
    }
    if has_bound(&field.range) && !matches!(t, FieldType::Number) {
        let text = join3(
            "`range` is only valid on `number` type fields, but this field has type `",
            t.as_str(),
            "`",
        );
        return fail_field(path, &text);
    }
    if let Some(g) = field.generator {
        if !g.valid_for(&t) {
            let text = join5(
                "generator `",
                g.as_str(),
                "` is not valid for type `",
                t.as_str(),
                "`",
            );
            return fail_field(path, &text);
        }
    }
    Ok(())
}

/// The problem of a field before its type counts.
pub open spec fn untyped_problem(path: Seq<char>, f: FieldModel) -> Option<Seq<PartModel>> {
    first_of(
        ref_structure_problem(path, f),
        first_of(
            constraint_problem(path, constraints_of(f)),
            first_of(
                specialization_problem(path, f),
                first_of(locale_problem(path, f.locale, f.generator), args_problem(path, f)),
            ),
        ),
    )
}

/// One outcome after another: the first problem, else all warnings.
pub open spec fn followed_by(
    a: Result<Seq<Seq<char>>, Seq<PartModel>>,
    b: Result<Seq<Seq<char>>, Seq<PartModel>>,
) -> Result<Seq<Seq<char>>, Seq<PartModel>> {
    match a {
        Err(p) => Err(p),
        Ok(w) => match b {
            Err(p) => Err(p),
            Ok(v) => Ok(w + v),
        },
    }
}

/// The outcome of checking a field, at any depth. An imported field is taken as it is.
pub open spec fn field_check(path: Seq<char>, f: FieldModel, totals: Seq<ShareTotalModel>) -> Result<
    Seq<Seq<char>>,
    Seq<PartModel>,
>
    decreases f, 2int,
{
    if f.imported_taint {
        Ok(Seq::empty())
    } else if f.expression is Some {
        checked(expression_field_problem(path, f), Seq::empty())
    } else if untyped_problem(path, f) is Some {
        Err(untyped_problem(path, f)->0)
    } else if f.type_ref() is Some {
        if f.variants.len() > 0 {
            narrowing_check(path, f.variants, totals)
        } else {
            Ok(Seq::empty())
        }
    } else {
        match f.field_type {
            None => checked(
                field_says(path, "must have `type`, `ref`, or `expression`"@),
                Seq::empty(),
            ),
            Some(t) => if date_bounds_problem(path, f) is Some {
                Err(date_bounds_problem(path, f)->0)
            } else if t is Variant {
                variant_check(path, f.variants, totals)
            } else {
                typed_check(path, f, t, totals)
            },
        }
    }
}

/// The outcome of checking a field of a known type.
pub open spec fn typed_check(
    path: Seq<char>,
    f: FieldModel,
    t: FieldType,
    totals: Seq<ShareTotalModel>,
) -> Result<Seq<Seq<char>>, Seq<PartModel>>
    decreases f, 1int,
{
    if structure_problem(path, f, t) is Some {
        Err(structure_problem(path, f, t)->0)
    } else {
        let nested = if t is Object {
            if f.fields.len() == 0 {
                Ok(
                    seq![
                        "warning: field '"@ + path
                            + "' is `object` type but has no `fields` — will generate empty objects"@,
                    ],
                )
            } else {
                nested_check(path, f.fields, totals, f.fields.len() as int)
            }
        } else if t is List {
            match f.content {
                None => Ok(
                    seq![
                        "warning: field '"@ + path
                            + "' is `list` type but has no `content` — will generate empty lists"@,
                    ],
                ),
                Some(c) => if c.from is None {
                    field_check(path + "[]"@, c.item, totals)
                } else {
                    checked(
                        if f.count is Some {
                            field_says(
                                path,
                                "`count` cannot be set on a list-link field — use `cardinality` on the link in `links`"@,
                            )
                        } else {
                            None
                        },
                        Seq::empty(),
                    )
                },
            }
        } else {
            Ok(Seq::empty())
        };
        match nested {
            Err(p) => Err(p),
            Ok(w) => checked(value_problem(path, f, t), w),
        }
    }
}

/// The outcome of checking the first `n` nested fields.
pub open spec fn nested_check(
    path: Seq<char>,
    fields: Seq<FieldModel>,
    totals: Seq<ShareTotalModel>,
    n: int,
) -> Result<Seq<Seq<char>>, Seq<PartModel>>
    decreases fields, n,
{
    if n <= 0 || n > fields.len() {
        Ok(Seq::empty())
    } else {
        followed_by(
            nested_check(path, fields, totals, n - 1),
            if fields[n - 1].name.len() == 0 {
                checked(
                    field_says(path, "a nested field is missing a `name`"@),
                    Seq::empty(),
                )
            } else {
                field_check(path + "."@ + fields[n - 1].name, fields[n - 1], totals)
            },
        )
    }
}

proof fn lemma_nested_error_stays(
    path: Seq<char>,
    fields: Seq<FieldModel>,
    totals: Seq<ShareTotalModel>,
    k: int,
    n: int,
)
    requires
        0 <= k <= n <= fields.len(),
        nested_check(path, fields, totals, k) is Err,
    ensures
        nested_check(path, fields, totals, n) == nested_check(path, fields, totals, k),
    decreases n - k,
{
    if k < n {
        lemma_nested_error_stays(path, fields, totals, k, n - 1);
    }
}

fn check_untyped(path: &str, field: &Field) -> (r: Result<(), Problem>)
    ensures
        problem_of(r) == untyped_problem(path@, field.model()),
{
    validate_ref_structural_bans(path, field)?;
    validate_field_constraints(path, field)?;
    validate_specialization_keys(path, field)?;
    validate_locale_generator(path, field.locale, field.generator)?;
    validate_args(path, field)
}

/// Checks a field, at any depth. `totals` tells how the shares that alternatives declare add up.
pub fn validate_field(
    path: &str,
    field: &Field,
    totals: &Vec<ShareTotal>,
    warnings: &mut Vec<String>,
) -> (r: Result<(), Problem>)
    ensures
        reports(
            r,
            texts(old(warnings)@),
            texts(final(warnings)@),
            field_check(path@, field.model(), totals_model(totals@)),
        ),
    decreases field, 2int,
{
    let ghost f = field.model();
    assert(f.variants == field_variants_model(field.variants@));
    assert(texts(warnings@) =~= texts(warnings@) + Seq::<Seq<char>>::empty());
    if field.imported_taint {
        return Ok(());
    }
    if field.expression.is_some() {
        return validate_expression_field(path, field);
    }
    check_untyped(path, field)?;
    if field.simple_ref().is_some() {
        if field.variants.len() > 0 {
            return validate_specialising_variants(path, &field.variants, totals, warnings);
        }
        return Ok(());
    }
    match field.field_type {
        None => fail_field(path, "must have `type`, `ref`, or `expression`"),
        Some(t) => {
            validate_date_bounds(path, field)?;
            if matches!(t, FieldType::Variant) {
                return validate_variant_field(path, &field.variants, totals, warnings);
            }
            validate_typed_field(path, field, t, totals, warnings)
        },
    }
}

fn validate_typed_field(
    path: &str,
    field: &Field,
    t: FieldType,
    totals: &Vec<ShareTotal>,
    warnings: &mut Vec<String>,
) -> (r: Result<(), Problem>)
    ensures
        reports(
            r,
            texts(old(warnings)@),
            texts(final(warnings)@),
            typed_check(path@, field.model(), t, totals_model(totals@)),
        ),
    decreases field, 1int,
{
    let ghost f = field.model();
    let ghost before = texts(warnings@);
    assert(f.fields == fields_model(field.fields@));
    assert(before =~= before + Seq::<Seq<char>>::empty());
    check_structure(path, field, t)?;
    if matches!(t, FieldType::Object) {
        if field.fields.len() == 0 {
            warn(
                warnings,
                join3(
                    "warning: field '",
                    path,
                    "' is `object` type but has no `fields` — will generate empty objects",
                ),
            );
        } else {
            validate_nested(path, &field.fields, totals, warnings)?;
        }
    } else if matches!(t, FieldType::List) {
        match &field.content {
            None => {
                warn(
                    warnings,
                    join3(
                        "warning: field '",
                        path,
                        "' is `list` type but has no `content` — will generate empty lists",
                    ),
                );
            },
            Some(c) => {
                proof {
                    lemma_content_model(*field);
                }
                if c.from.is_none() {
                    let item_path = join2(path, "[]");
                    validate_field(&item_path, &c.item, totals, warnings)?;
                } else if field.count.is_some() {
                    return fail_field(
                        path,
                        "`count` cannot be set on a list-link field — use `cardinality` on the link in `links`",
                    );
                }
            },
        }
    }
    check_values(path, field, t)
}

fn validate_nested(
    path: &str,
    fields: &Vec<Field>,
    totals: &Vec<ShareTotal>,
    warnings: &mut Vec<String>,
) -> (r: Result<(), Problem>)
    ensures
        reports(
            r,
            texts(old(warnings)@),
            texts(final(warnings)@),
            nested_check(
                path@,
                fields_model(fields@),
                totals_model(totals@),
                fields@.len() as int,
            ),
        ),
    decreases fields, 0int,
{
    let ghost fm = fields_model(fields@);
    let ghost tm = totals_model(totals@);
    let ghost before = texts(warnings@);
    let mut i: usize = 0;
    assert(texts(warnings@) =~= before + nested_check(path@, fm, tm, 0)->Ok_0);
    while i < fields.len()
        invariant
            i <= fields.len(),
            fm == fields_model(fields@),
            tm == totals_model(totals@),
            before == texts(old(warnings)@),
            nested_check(path@, fm, tm, i as int) is Ok,
            texts(warnings@) == before + nested_check(path@, fm, tm, i as int)->Ok_0,
        decreases fields.len() - i,
    {
        assert(fm[i as int] == fields[i as int].model());
        let ghost middle = texts(warnings@);
        if fields[i].name.as_str().unicode_len() == 0 {
            proof {
                lemma_nested_error_stays(path@, fm, tm, i + 1, fm.len() as int);
            }
            return fail_field(path, "a nested field is missing a `name`");
        }
        let sub = join3(path, ".", &fields[i].name);
        if let Err(p) = validate_field(&sub, &fields[i], totals, warnings) {
            proof {
                lemma_nested_error_stays(path@, fm, tm, i + 1, fm.len() as int);
            }
            return Err(p);
        }
        i += 1;
        assert(texts(warnings@) =~= before + nested_check(path@, fm, tm, i as int)->Ok_0);
    }
    Ok(())
}

/// An imported field passes whatever it says.
pub proof fn law_imported_fields_pass(path: Seq<char>, f: FieldModel, totals: Seq<ShareTotalModel>)
    requires
        f.imported_taint,
    ensures
        field_check(path, f, totals) == Ok::<Seq<Seq<char>>, Seq<PartModel>>(Seq::empty()),
{
}

/// A field that passes has a type, a reference or an expression, unless it is imported.
pub proof fn law_checked_fields_have_a_source(
    path: Seq<char>,
    f: FieldModel,
    totals: Seq<ShareTotalModel>,
)
    requires
        field_check(path, f, totals) is Ok,
    ensures
        f.imported_taint || f.expression is Some || f.type_ref() is Some || f.field_type is Some,
        !f.imported_taint && f.expression is Some ==> f.field_type is None && f.type_ref() is None,
        !f.imported_taint && f.type_ref() is Some ==> f.field_type is None,
{
}

} // verus!
