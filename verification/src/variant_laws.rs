//! What choices promise: the type of each, the union that mixed ones become, and the variant that
//! every pick of them gets.
use vstd::prelude::*;

use crate::expand_variants::{
    case_name, combination_count, combinations, delta_field, disagree, expanded, extended, finished,
    finished_all, inferred, leaf_field, lemma_field_position, lowered, merged_into, mixed,
    shared_type, specialised, variant_paths, with_choices, VariantPathModel,
};
use crate::models::{
    field_position, DatasetEntryModel, FieldModel, FieldType, FieldVariantModel, Num,
};

verus! {

// ---------------------------------------------------------------------------
// Types of choices
// ---------------------------------------------------------------------------

/// A choice has the type it declares; without one, a bound makes it a number, a constant gives it
/// the type of the constant, and nested fields make it an object.
pub proof fn law_choices_have_the_type_of_their_content(v: FieldVariantModel)
    ensures
        v.field_type is Some ==> inferred(v) == v.field_type,
        v.field_type is None && v.range is Some && (v.range->0.min is Some || v.range->0.max
            is Some) ==> inferred(v) == Some(FieldType::Number),
        v.field_type is None && v.range is None && v.value is Some ==> {
            &&& v.value->0 is Text ==> inferred(v) == Some(FieldType::String)
            &&& v.value->0 is Int || v.value->0 is Float ==> inferred(v) == Some(FieldType::Number)
            &&& v.value->0 is Bool ==> inferred(v) == Some(FieldType::Boolean)
        },
        v.field_type is None && v.range is None && v.value is None ==> (inferred(v)
            == Some(FieldType::Object) <==> v.fields.len() > 0),
        v.field_type is None && v.range is None && v.value is None && v.fields.len() == 0
            ==> inferred(v) is None,
{
}

/// Choices whose declared types differ, or one of which is an object, need a union; choices of one
/// plain type do not, and share that type.
pub proof fn law_choices_of_different_types_need_a_union(
    s: Seq<FieldVariantModel>,
    i: int,
    j: int,
    t: FieldType,
)
    requires
        0 <= i < s.len(),
        0 <= j < s.len(),
    ensures
        s[i].field_type is Some && s[j].field_type is Some && s[i].field_type != s[j].field_type
            ==> mixed(s) && shared_type(s) is None,
        s[i].field_type == Some(FieldType::Object) ==> mixed(s),
        (forall|k: int| 0 <= k < s.len() ==> (#[trigger] s[k]).field_type == Some(t)) ==> {
            &&& shared_type(s) == Some(t)
            &&& mixed(s) <==> t == FieldType::Object
        },
{
    if s[i].field_type is Some && s[j].field_type is Some && s[i].field_type != s[j].field_type {
        if i < j {
            assert(crate::expand_variants::differ(s[i], s[j]));
        } else {
            assert(crate::expand_variants::differ(s[j], s[i]));
        }
        assert(disagree(s));
    }
    if s[i].field_type == Some(FieldType::Object) {
        assert(inferred(s[i]) == Some(FieldType::Object));
    }
    if forall|k: int| 0 <= k < s.len() ==> (#[trigger] s[k]).field_type == Some(t) {
        assert(!disagree(s));
        assert(s[0].field_type == Some(t));
        assert(inferred(s[0]) == Some(t));
    }
}

/// Choices without a declared type that are constants of one kind share the type of the kind.
pub proof fn law_constants_of_one_kind_share_a_type(s: Seq<FieldVariantModel>)
    requires
        s.len() > 0,
        forall|k: int|
            0 <= k < s.len() ==> (#[trigger] s[k]).field_type is None && s[k].range is None
                && s[k].value is Some && s[k].value->0 is Text,
    ensures
        shared_type(s) == Some(FieldType::String),
        !mixed(s),
{
    assert forall|k: int| 0 <= k < s.len() implies inferred(#[trigger] s[k]) == Some(
        FieldType::String,
    ) by {}
    assert(!disagree(s));
    assert(inferred(s[0]) == Some(FieldType::String));
}

// ---------------------------------------------------------------------------
// Unions
// ---------------------------------------------------------------------------

/// A field with mixed choices becomes a union with a case for each choice, in order: with its
/// share, its type and everything that it generates by. Nothing else of the field changes.
pub proof fn law_mixed_choices_become_cases(f: FieldModel, i: int)
    requires
        f.field_type == Some(FieldType::Variant),
        mixed(f.variants),
        0 <= i < f.variants.len(),
    ensures
        ({
            let r = lowered(f);
            let c = r.union_cases[i];
            let v = f.variants[i];
            &&& r.field_type == Some(FieldType::Union)
            &&& r.union_cases.len() == f.variants.len()
            &&& c.ratio == v.ratio
            &&& c.field.field_type == inferred(v)
            &&& c.field.generator == v.generator
            &&& c.field.locale == v.locale
            &&& c.field.range == v.range
            &&& c.field.value == v.value
            &&& c.field.fields == v.fields
            &&& c.field.parquet == v.parquet
            &&& v.name is Some && v.name->0.len() > 0 ==> c.field.name == v.name->0
            &&& c.field.name.len() > 0
            &&& f == (FieldModel {
                field_type: f.field_type,
                union_cases: f.union_cases,
                variants: f.variants,
                ..r
            })
        }),
{
    reveal_strlit("_");
}

/// Cases without a label have different names.
pub proof fn law_nameless_cases_differ(field: Seq<char>, i: int, j: int)
    requires
        0 <= i < j,
    ensures
        case_name(field, None, i) != case_name(field, None, j),
{
    let x = crate::text::decimal_text(i as nat);
    let y = crate::text::decimal_text(j as nat);
    if case_name(field, None, i) == case_name(field, None, j) {
        let lead = field + "_"@;
        assert((lead + x).subrange(lead.len() as int, (lead + x).len() as int) =~= x);
        assert((lead + y).subrange(lead.len() as int, (lead + y).len() as int) =~= y);
        crate::paths::law_decimal_is_unique(i as nat, j as nat);
    }
}

/// Everything but fields with mixed choices, inside objects too, stays as it is.
pub proof fn law_other_fields_are_not_lowered(f: FieldModel, i: int)
    ensures
        f.field_type != Some(FieldType::Object) && (f.field_type != Some(FieldType::Variant)
            || !mixed(f.variants)) ==> lowered(f) == f,
        f.field_type == Some(FieldType::Object) ==> lowered(f).fields.len() == f.fields.len(),
        f.field_type == Some(FieldType::Object) && 0 <= i < f.fields.len()
            ==> lowered(f).fields[i] == lowered(f.fields[i]),
        f.field_type == Some(FieldType::Object) ==> f == (FieldModel {
            fields: f.fields,
            ..lowered(f)
        }),
{
    reveal_with_fuel(lowered, 3);
    reveal_with_fuel(crate::expand_variants::lowered_all, 3);
}

/// Behind the expansion a field without choices stays; choices of a reference are gone, having
/// become variants; any other choices stay and give the field their type.
pub proof fn law_choices_give_the_field_their_type(f: FieldModel)
    ensures
        f.variants.len() > 0 && f.refs is Some ==> finished(f).variants.len() == 0
            && finished(f).field_type == f.field_type,
        f.variants.len() > 0 && f.refs is None ==> finished(f).variants == f.variants
            && finished(f).field_type == shared_type(f.variants),
        f.variants.len() == 0 && f.field_type != Some(FieldType::Object) ==> finished(f) == f,
        f == (FieldModel {
            variants: f.variants,
            field_type: f.field_type,
            fields: f.fields,
            ..finished(f)
        }),
{
}

// ---------------------------------------------------------------------------
// Variants
// ---------------------------------------------------------------------------

/// Every field of a dataset that refers to its parent and has choices is specialised, with all its
/// choices.
pub proof fn law_choices_of_references_are_specialised(
    s: Seq<FieldModel>,
    prefix: Seq<Seq<char>>,
    n: int,
    i: int,
)
    requires
        0 <= i < n <= s.len(),
        s[i].refs is Some,
        s[i].variants.len() > 0,
    ensures
        variant_paths(s, prefix, n).contains(
            (VariantPathModel {
                path: prefix.push(s[i].name),
                choices: s[i].variants,
                parquet: s[i].parquet,
                refs: s[i].refs,
            }),
        ),
    decreases n,
{
    let before = variant_paths(s, prefix, n - 1);
    let now = variant_paths(s, prefix, n);
    let want = VariantPathModel {
        path: prefix.push(s[i].name),
        choices: s[i].variants,
        parquet: s[i].parquet,
        refs: s[i].refs,
    };
    if i < n - 1 {
        law_choices_of_references_are_specialised(s, prefix, n - 1, i);
        let k = choose|k: int| 0 <= k < before.len() && before[k] == want;
        assert(now[k] == want);
    } else {
        assert(now[before.len() as int] == want);
    }
}

/// The choices inside an object are specialised too, under the object's name.
pub proof fn law_choices_inside_objects_are_specialised(
    s: Seq<FieldModel>,
    prefix: Seq<Seq<char>>,
    n: int,
    i: int,
    k: int,
)
    requires
        0 <= i < n <= s.len(),
        s[i].field_type == Some(FieldType::Object),
        s[i].refs is None || s[i].variants.len() == 0,
        0 <= k < variant_paths(
            s[i].fields,
            prefix.push(s[i].name),
            s[i].fields.len() as int,
        ).len(),
    ensures
        variant_paths(s, prefix, n).contains(
            variant_paths(s[i].fields, prefix.push(s[i].name), s[i].fields.len() as int)[k],
        ),
    decreases n,
{
    let before = variant_paths(s, prefix, n - 1);
    let now = variant_paths(s, prefix, n);
    let inner = variant_paths(s[i].fields, prefix.push(s[i].name), s[i].fields.len() as int);
    if i < n - 1 {
        law_choices_inside_objects_are_specialised(s, prefix, n - 1, i, k);
        let p = choose|p: int| 0 <= p < before.len() && before[p] == inner[k];
        assert(now[p] == inner[k]);
    } else {
        assert(now[before.len() + k] == inner[k]);
    }
}

/// What a choice says of a field is what the choice holds: its constant, range, generator and
/// locale, the type of its content, and the field's own reference. Storage settings of the choice
/// count before those of the field.
pub proof fn law_choices_say_what_they_hold(path: Seq<Seq<char>>, p: VariantPathModel, j: int)
    requires
        path.len() > 0,
        0 <= j < p.choices.len(),
    ensures
        ({
            let v = p.choices[j];
            let f = delta_field(path, v, p.parquet, p.refs);
            &&& f.name == path[0]
            &&& path.len() == 1 ==> {
                &&& f.value == v.value
                &&& f.range == v.range
                &&& f.generator == v.generator
                &&& f.locale == v.locale
                &&& f.field_type == inferred(v)
                &&& f.refs == p.refs
                &&& v.parquet is Some ==> f.parquet == v.parquet
                &&& v.parquet is None ==> f.parquet == p.parquet
            }
            &&& path.len() > 1 ==> {
                &&& f.field_type == Some(FieldType::Object)
                &&& f.fields == seq![
                    delta_field(path.subrange(1, path.len() as int), v, p.parquet, p.refs),
                ]
            }
        }),
{
}

/// Merging a field in leaves all other fields alone. A field that is no record takes the place of
/// the one of its name, or comes last where there is none.
pub proof fn law_merging_replaces_the_field_of_the_name(
    s: Seq<FieldModel>,
    f: FieldModel,
    i: int,
)
    ensures
        merged_into(s, f).len() >= s.len(),
        0 <= i < s.len() && s[i].name != f.name ==> merged_into(s, f)[i] == s[i],
        f.field_type != Some(FieldType::Object) ==> merged_into(s, f).contains(f),
        f.field_type != Some(FieldType::Object) && 0 <= i < s.len() && s[i].name == f.name && (
        forall|j: int| 0 <= j < i ==> (#[trigger] s[j]).name != f.name) ==> merged_into(s, f)[i]
            == f,
{
    lemma_field_position(s, f.name, 0);
    lemma_first_position(s, f.name, 0);
    if f.field_type != Some(FieldType::Object) {
        match field_position(s, f.name, 0) {
            Some(p) => {
                assert(merged_into(s, f)[p] == f);
            },
            None => {
                assert(merged_into(s, f)[s.len() as int] == f);
            },
        }
    }
}

proof fn lemma_first_position(s: Seq<FieldModel>, name: Seq<char>, from: int)
    requires
        0 <= from <= s.len(),
    ensures
        match field_position(s, name, from) {
            Some(p) => from <= p < s.len() && s[p].name == name && forall|j: int|
                from <= j < p ==> (#[trigger] s[j]).name != name,
            None => forall|j: int| from <= j < s.len() ==> (#[trigger] s[j]).name != name,
        },
    decreases s.len() - from,
{
    if from < s.len() {
        lemma_first_position(s, name, from + 1);
    }
}

proof fn lemma_with_choices(delta: Seq<FieldModel>, p: VariantPathModel, j: int, k: int)
    requires
        0 <= k < j <= p.choices.len(),
    ensures
        with_choices(delta, p, j).len() == j,
        with_choices(delta, p, j)[k] == merged_into(
            delta,
            delta_field(p.path, p.choices[k], p.parquet, p.refs),
        ),
    decreases j,
{
    if k < j - 1 {
        lemma_with_choices(delta, p, j - 1, k);
    } else if j > 1 {
        lemma_with_choices(delta, p, j - 1, 0);
    } else {
        assert(with_choices(delta, p, 0).len() == 0);
    }
}

proof fn lemma_extended(combos: Seq<Seq<FieldModel>>, p: VariantPathModel, c: int, i: int, k: int)
    requires
        0 <= i < c <= combos.len(),
        0 <= k < p.choices.len(),
    ensures
        extended(combos, p, c).contains(
            merged_into(combos[i], delta_field(p.path, p.choices[k], p.parquet, p.refs)),
        ),
    decreases c,
{
    let want = merged_into(combos[i], delta_field(p.path, p.choices[k], p.parquet, p.refs));
    let before = extended(combos, p, c - 1);
    let now = extended(combos, p, c);
    if i < c - 1 {
        lemma_extended(combos, p, c - 1, i, k);
        let a = choose|a: int| 0 <= a < before.len() && before[a] == want;
        assert(now[a] == want);
    } else {
        lemma_with_choices(combos[i], p, p.choices.len() as int, k);
        assert(now[before.len() + k] == want);
    }
}

proof fn lemma_some_combination(paths: Seq<VariantPathModel>, n: int)
    requires
        0 <= n <= paths.len(),
        forall|k: int| 0 <= k < n ==> (#[trigger] paths[k]).choices.len() > 0,
    ensures
        combinations(paths, n).len() > 0,
    decreases n,
{
    if n > 0 {
        lemma_some_combination(paths, n - 1);
        let before = combinations(paths, n - 1);
        assert(paths[n - 1].choices.len() > 0);
        lemma_extended(before, paths[n - 1], before.len() as int, 0, 0);
    }
}

/// Two choices of different fields meet in some variant.
pub open spec fn meet(
    combos: Seq<Seq<FieldModel>>,
    a: FieldModel,
    b: FieldModel,
) -> bool {
    exists|c: int| 0 <= c < combos.len() && (#[trigger] combos[c]).contains(a) && combos[c].contains(b)
}

/// What choice `j` of field `i` says.
pub open spec fn said_by(paths: Seq<VariantPathModel>, i: int, j: int) -> FieldModel {
    leaf_field(paths[i].path[0], paths[i].choices[j], paths[i].parquet, paths[i].refs)
}

/// Fields outside objects, with different names, all of which have choices of plain type.
pub open spec fn apart(paths: Seq<VariantPathModel>, n: int) -> bool {
    &&& forall|k: int| 0 <= k < n ==> (#[trigger] paths[k]).path.len() == 1
    &&& forall|k: int| 0 <= k < n ==> (#[trigger] paths[k]).choices.len() > 0
    &&& forall|k: int, l: int|
        0 <= k < l < n ==> (#[trigger] paths[k]).path[0] != (#[trigger] paths[l]).path[0]
    &&& forall|k: int, j: int|
        0 <= k < n && 0 <= j < paths[k].choices.len() ==> (#[trigger] said_by(
            paths,
            k,
            j,
        )).field_type != Some(FieldType::Object)
}

proof fn lemma_kept(s: Seq<FieldModel>, f: FieldModel, g: FieldModel)
    requires
        s.contains(g),
        g.name != f.name,
    ensures
        merged_into(s, f).contains(g),
{
    let i = choose|i: int| 0 <= i < s.len() && s[i] == g;
    law_merging_replaces_the_field_of_the_name(s, f, i);
    assert(merged_into(s, f)[i] == g);
}

proof fn lemma_every_choice(paths: Seq<VariantPathModel>, n: int, i: int, j: int)
    requires
        0 <= i < n <= paths.len(),
        0 <= j < paths[i].choices.len(),
        apart(paths, n),
    ensures
        exists|c: int|
            0 <= c < combinations(paths, n).len() && (#[trigger] combinations(paths, n)[c]).contains(
                said_by(paths, i, j),
            ),
    decreases n,
{
    let before = combinations(paths, n - 1);
    let now = combinations(paths, n);
    let p = paths[n - 1];
    let want = said_by(paths, i, j);
    if i == n - 1 {
        lemma_some_combination(paths, n - 1);
        lemma_extended(before, p, before.len() as int, 0, j);
        law_merging_replaces_the_field_of_the_name(before[0], want, 0);
        let s = merged_into(before[0], want);
        let c = choose|c: int| 0 <= c < now.len() && now[c] == s;
        assert(now[c].contains(want));
    } else {
        lemma_every_choice(paths, n - 1, i, j);
        let b = choose|b: int| 0 <= b < before.len() && (#[trigger] before[b]).contains(want);
        lemma_extended(before, p, before.len() as int, b, 0);
        let f = said_by(paths, n - 1, 0);
        assert(paths[i].path[0] != paths[n - 1].path[0]);
        lemma_kept(before[b], f, want);
        let s = merged_into(before[b], f);
        let c = choose|c: int| 0 <= c < now.len() && now[c] == s;
        assert(now[c].contains(want));
    }
}

/// Every choice gets a variant, with every choice of every other field: all picks are covered.
pub proof fn law_all_pairs_of_choices_meet(
    paths: Seq<VariantPathModel>,
    n: int,
    i: int,
    j: int,
    k: int,
    l: int,
)
    requires
        0 <= i < k < n <= paths.len(),
        0 <= j < paths[i].choices.len(),
        0 <= l < paths[k].choices.len(),
        apart(paths, n),
    ensures
        meet(combinations(paths, n), said_by(paths, i, j), said_by(paths, k, l)),
    decreases n,
{
    let before = combinations(paths, n - 1);
    let now = combinations(paths, n);
    let p = paths[n - 1];
    let a = said_by(paths, i, j);
    let b = said_by(paths, k, l);
    if k == n - 1 {
        lemma_every_choice(paths, n - 1, i, j);
        let c = choose|c: int| 0 <= c < before.len() && (#[trigger] before[c]).contains(a);
        lemma_extended(before, p, before.len() as int, c, l);
        assert(paths[i].path[0] != paths[k].path[0]);
        lemma_kept(before[c], b, a);
        law_merging_replaces_the_field_of_the_name(before[c], b, 0);
        let s = merged_into(before[c], b);
        let d = choose|d: int| 0 <= d < now.len() && now[d] == s;
        assert(now[d].contains(a) && now[d].contains(b));
    } else {
        law_all_pairs_of_choices_meet(paths, n - 1, i, j, k, l);
        let c = choose|c: int|
            0 <= c < before.len() && (#[trigger] before[c]).contains(a) && before[c].contains(b);
        lemma_extended(before, p, before.len() as int, c, 0);
        let f = said_by(paths, n - 1, 0);
        assert(paths[i].path[0] != paths[n - 1].path[0]);
        assert(paths[k].path[0] != paths[n - 1].path[0]);
        lemma_kept(before[c], f, a);
        lemma_kept(before[c], f, b);
        let s = merged_into(before[c], f);
        let d = choose|d: int| 0 <= d < now.len() && now[d] == s;
        assert(now[d].contains(a) && now[d].contains(b));
    }
}

/// Every choice gets a variant.
pub proof fn law_every_choice_gets_a_variant(paths: Seq<VariantPathModel>, n: int, i: int, j: int)
    requires
        0 <= i < n <= paths.len(),
        0 <= j < paths[i].choices.len(),
        apart(paths, n),
    ensures
        meet(combinations(paths, n), said_by(paths, i, j), said_by(paths, i, j)),
{
    lemma_every_choice(paths, n, i, j);
}

/// A dataset has a variant for each combination of its choices, with the share of the combination;
/// a dataset without such choices keeps the variants it declares. Only fields and variants change.
pub proof fn law_variants_have_their_shares(e: DatasetEntryModel, joint: Seq<Num>, c: int)
    ensures
        ({
            let paths = specialised(e.dataset.data);
            let r = expanded(e, joint);
            &&& paths.len() == 0 ==> r.dataset.variants == e.dataset.variants
            &&& paths.len() > 0 ==> r.dataset.variants.len() == combination_count(
                paths,
                paths.len() as int,
            )
            &&& paths.len() > 0 && 0 <= c < r.dataset.variants.len() ==> {
                &&& r.dataset.variants[c].data == combinations(paths, paths.len() as int)[c]
                &&& c < joint.len() ==> r.dataset.variants[c].ratio == Some(joint[c])
            }
            &&& r.path == e.path
            &&& r.dataset.data.len() == e.dataset.data.len()
            &&& e.dataset == (crate::models::SyntheticDatasetModel {
                data: e.dataset.data,
                variants: e.dataset.variants,
                ..r.dataset
            })
        }),
{
    let paths = specialised(e.dataset.data);
    crate::expand_variants::law_one_combination_per_pick(paths, paths.len() as int);
}

/// Merging schemas takes the fields in one after the other: the last merged field that is no
/// record stands as it is, and fields of other names stay.
pub proof fn law_schemas_merge_field_by_field(
    base: Seq<FieldModel>,
    delta: Seq<FieldModel>,
    n: int,
    i: int,
)
    requires
        0 < n <= delta.len(),
    ensures
        crate::expand_variants::merged_schemas(base, delta, 0) == base,
        delta[n - 1].field_type != Some(FieldType::Object)
            ==> crate::expand_variants::merged_schemas(base, delta, n).contains(delta[n - 1]),
        0 <= i < crate::expand_variants::merged_schemas(base, delta, n - 1).len()
            && crate::expand_variants::merged_schemas(base, delta, n - 1)[i].name != delta[n
            - 1].name ==> crate::expand_variants::merged_schemas(base, delta, n)[i]
            == crate::expand_variants::merged_schemas(base, delta, n - 1)[i],
{
    reveal_with_fuel(crate::expand_variants::merged_schemas, 2);
    let before = crate::expand_variants::merged_schemas(base, delta, n - 1);
    law_merging_replaces_the_field_of_the_name(before, delta[n - 1], i);
    assert(crate::expand_variants::merged_schemas(base, delta, n) == merged_into(
        before,
        delta[n - 1],
    ));
}

/// A record that is merged into a record of its name adds its fields and keeps everything else.
pub proof fn law_records_merge_deeply(s: Seq<FieldModel>, f: FieldModel, i: int)
    requires
        0 <= i < s.len(),
        s[i].name == f.name,
        forall|j: int| 0 <= j < i ==> (#[trigger] s[j]).name != f.name,
        s[i].field_type == Some(FieldType::Object),
        f.field_type == Some(FieldType::Object),
        f.fields.len() > 0,
    ensures
        merged_into(s, f)[i].fields == crate::expand_variants::merged_schemas(
            s[i].fields,
            f.fields,
            f.fields.len() as int,
        ),
        s[i] == (FieldModel { fields: s[i].fields, ..merged_into(s, f)[i] }),
{
    lemma_first_position(s, f.name, 0);
    assert(s[i].name == f.name);
}

/// Fields are finished one by one, each at its place.
pub proof fn law_every_field_is_finished(s: Seq<FieldModel>, i: int)
    requires
        0 <= i < s.len(),
    ensures
        finished_all(s).len() == s.len(),
        finished_all(s)[i] == finished(s[i]),
{
    reveal_with_fuel(finished, 2);
    reveal_with_fuel(finished_all, 2);
}

} // verus!
