//! Names in expressions, and the hidden columns that expressions need from a parent.
use vstd::prelude::*;

use crate::message::join3;
use crate::models::{
    default_field_model, entries_model, field_position, fields_model, find_field, find_target,
    replace_data, target_of, with_data, DatasetEntry, DatasetEntryModel, Field, FieldModel, RefsSpec, RefsSpecModel,
    SyntheticDatasetModel,
};
use crate::text::chars_of;

verus! {

/// A character that can begin a name: a letter or an underscore.
pub open spec fn begins_name(c: char) -> bool {
    ('a' <= c <= 'z') || ('A' <= c <= 'Z') || c == '_'
}

/// A character that can continue a name: a letter, an underscore or a digit.
pub open spec fn continues_name(c: char) -> bool {
    begins_name(c) || ('0' <= c <= '9')
}

/// Where the name that runs through `i` ends.
pub open spec fn name_end(s: Seq<char>, i: int) -> int
    decreases s.len() - i,
{
    if 0 <= i < s.len() && continues_name(s[i]) {
        name_end(s, i + 1)
    } else {
        i
    }
}

/// The names in `s` from `i` on, each as long as it can be.
pub open spec fn names_from(s: Seq<char>, i: int) -> Seq<Seq<char>>
    decreases s.len() - i,
{
    if i < 0 || i >= s.len() {
        Seq::empty()
    } else if begins_name(s[i]) {
        proof {
            lemma_name_end(s, i);
        }
        if name_end(s, i) > i {
            seq![s.subrange(i, name_end(s, i))] + names_from(s, name_end(s, i))
        } else {
            Seq::empty()
        }
    } else {
        names_from(s, i + 1)
    }
}

/// What the end of a name is.
pub proof fn lemma_name_end(s: Seq<char>, i: int)
    requires
        0 <= i,
    ensures
        i <= name_end(s, i),
        i <= s.len() ==> name_end(s, i) <= s.len(),
        i < s.len() && continues_name(s[i]) ==> i < name_end(s, i),
        forall|j: int| i <= j < name_end(s, i) ==> continues_name(#[trigger] s[j]),
        name_end(s, i) < s.len() ==> !continues_name(s[name_end(s, i)]),
    decreases s.len() - i,
{
    if i < s.len() && continues_name(s[i]) {
        lemma_name_end(s, i + 1);
    }
}

/// A name: it begins like one and continues like one.
pub open spec fn is_name(s: Seq<char>) -> bool {
    &&& s.len() > 0
    &&& begins_name(s[0])
    &&& forall|i: int| 0 <= i < s.len() ==> continues_name(#[trigger] s[i])
}

/// Everything that is extracted is a name.
pub proof fn law_extracted_are_names(s: Seq<char>, from: int, i: int)
    requires
        0 <= from,
        0 <= i < names_from(s, from).len(),
    ensures
        is_name(names_from(s, from)[i]),
    decreases s.len() - from,
{
    if begins_name(s[from]) {
        lemma_name_end(s, from);
        if i > 0 {
            law_extracted_are_names(s, name_end(s, from), i - 1);
        }
    } else {
        law_extracted_are_names(s, from + 1, i);
    }
}

/// A text without letters and underscores has no names.
pub proof fn law_no_letters_no_names(s: Seq<char>, from: int)
    requires
        0 <= from,
        forall|i: int| 0 <= i < s.len() ==> !begins_name(#[trigger] s[i]),
    ensures
        names_from(s, from).len() == 0,
    decreases s.len() - from,
{
    if from < s.len() {
        law_no_letters_no_names(s, from + 1);
    }
}

/// The texts of a sequence of string slices.
pub open spec fn slices_view(s: Seq<&str>) -> Seq<Seq<char>> {
    Seq::new(s.len(), |i: int| s[i]@)
}

/// The names in an expression, in order. Keywords and words inside quotes are names too: callers
/// look them up among the fields.
pub fn extract_identifiers<'a>(expression: &'a str) -> (r: Vec<&'a str>)
    ensures
        slices_view(r@) == names_from(expression@, 0),
{
    let chars = chars_of(expression);
    let n: usize = chars.len();
    let ghost s = expression@;
    let mut r: Vec<&'a str> = Vec::new();
    let mut i: usize = 0;
    assert(slices_view(r@) + names_from(s, 0) =~= names_from(s, 0));
    while i < n
        invariant
            i <= n,
            n == chars.len(),
            chars@ == s,
            s == expression@,
            slices_view(r@) + names_from(s, i as int) == names_from(s, 0),
        decreases n - i,
    {
        let c = chars[i];
        if ('a' <= c && c <= 'z') || ('A' <= c && c <= 'Z') || c == '_' {
            let start: usize = i;
            proof {
                lemma_name_end(s, start as int);
            }
            while i < n && (('a' <= chars[i] && chars[i] <= 'z') || ('A' <= chars[i] && chars[i]
                <= 'Z') || chars[i] == '_' || ('0' <= chars[i] && chars[i] <= '9'))
                invariant
                    start <= i <= n,
                    n == chars.len(),
                    chars@ == s,
                    name_end(s, start as int) == name_end(s, i as int),
                decreases n - i,
            {
                i += 1;
            }
            assert(i == name_end(s, start as int));
            let ghost prior = r@;
            r.push(expression.substring_char(start, i));
            proof {
                assert(slices_view(r@) =~= slices_view(prior) + seq![
                    s.subrange(start as int, i as int),
                ]);
                assert(slices_view(r@) + names_from(s, i as int) =~= slices_view(prior)
                    + names_from(s, start as int));
            }
        } else {
            i += 1;
        }
    }
    assert(slices_view(r@) + names_from(s, n as int) =~= slices_view(r@));
    r
}

/// A hidden column that takes its values from the parent.
pub open spec fn hidden_column(reference: Seq<char>, name: Seq<char>) -> FieldModel {
    FieldModel {
        name,
        refs: Some(RefsSpecModel::Single(reference + "."@ + name)),
        hidden: true,
        ..default_field_model()
    }
}

/// The name under which a dataset's parent has a field called `name`.
pub open spec fn parent_with_field(
    all: Seq<DatasetEntryModel>,
    ds: SyntheticDatasetModel,
    name: Seq<char>,
) -> Option<Seq<char>> {
    match ds.include_spec {
        Some(inc) => match target_of(all, inc) {
            Some(t) => if field_position(all[t].dataset.data, name, 0) is Some {
                Some(inc.reference)
            } else {
                None
            },
            None => None,
        },
        None => None,
    }
}

/// The hidden columns after looking at one more name: a name that no field has but the parent
/// has gets one.
pub open spec fn with_name(
    all: Seq<DatasetEntryModel>,
    ds: SyntheticDatasetModel,
    hidden: Seq<FieldModel>,
    name: Seq<char>,
) -> Seq<FieldModel> {
    if field_position(ds.data, name, 0) is Some || field_position(hidden, name, 0) is Some {
        hidden
    } else {
        match parent_with_field(all, ds, name) {
            Some(reference) => hidden.push(hidden_column(reference, name)),
            None => hidden,
        }
    }
}

/// The hidden columns after looking at the first `n` names.
pub open spec fn with_names(
    all: Seq<DatasetEntryModel>,
    ds: SyntheticDatasetModel,
    hidden: Seq<FieldModel>,
    names: Seq<Seq<char>>,
    n: int,
) -> Seq<FieldModel>
    decreases n,
{
    if n <= 0 {
        hidden
    } else {
        with_name(all, ds, with_names(all, ds, hidden, names, n - 1), names[n - 1])
    }
}

/// The hidden columns that the expressions of the first `n` fields need.
pub open spec fn needed_columns(
    all: Seq<DatasetEntryModel>,
    ds: SyntheticDatasetModel,
    n: int,
) -> Seq<FieldModel>
    decreases n,
{
    if n <= 0 {
        Seq::empty()
    } else {
        let before = needed_columns(all, ds, n - 1);
        match ds.data[n - 1].expression {
            Some(e) => with_names(all, ds, before, names_from(e, 0), names_from(e, 0).len() as int),
            None => before,
        }
    }
}

/// Where the first computed field stands, from `i` on; the end where there is none.
pub open spec fn first_computed(fields: Seq<FieldModel>, i: int) -> int
    decreases fields.len() - i,
{
    if i < 0 || i >= fields.len() {
        fields.len() as int
    } else if fields[i].expression is Some {
        i
    } else {
        first_computed(fields, i + 1)
    }
}

/// The fields of a dataset with the hidden columns its expressions need, which stand right before
/// the first computed field.
pub open spec fn with_needed_columns(all: Seq<DatasetEntryModel>, ds: SyntheticDatasetModel) -> Seq<
    FieldModel,
> {
    let hidden = needed_columns(all, ds, ds.data.len() as int);
    let at = first_computed(ds.data, 0);
    ds.data.subrange(0, at) + hidden + ds.data.subrange(at, ds.data.len() as int)
}

fn needed_by(all: &Vec<DatasetEntry>, at: usize) -> (r: Vec<Field>)
    requires
        at < all.len(),
    ensures
        fields_model(r@) == needed_columns(
            entries_model(all@),
            all[at as int].dataset.model(),
            all[at as int].dataset.data.len() as int,
        ),
{
    let ghost am = entries_model(all@);
    let ds = &all[at].dataset;
    let ghost dm = ds.model();
    let mut hidden: Vec<Field> = Vec::new();
    let mut i: usize = 0;
    assert(fields_model(hidden@) =~= Seq::empty());
    while i < ds.data.len()
        invariant
            i <= ds.data.len(),
            am == entries_model(all@),
            dm == ds.model(),
            fields_model(hidden@) == needed_columns(am, dm, i as int),
        decreases ds.data.len() - i,
    {
        assert(dm.data[i as int] == ds.data[i as int].model());
        if let Some(expr) = &ds.data[i].expression {
            let names = extract_identifiers(expr);
            let ghost nm = names_from(expr@, 0);
            let ghost before = fields_model(hidden@);
            let mut k: usize = 0;
            while k < names.len()
                invariant
                    k <= names.len(),
                    am == entries_model(all@),
                    dm == ds.model(),
                    nm == slices_view(names@),
                    fields_model(hidden@) == with_names(am, dm, before, nm, k as int),
                decreases names.len() - k,
            {
                let name = names[k];
                assert(nm[k as int] == name@);
                if find_field(&ds.data, name).is_none() && find_field(&hidden, name).is_none() {
                    if let Some(inc) = &ds.include_spec {
                        if let Some(t) = find_target(all, inc) {
                            assert(am[t as int] == all[t as int].model());
                            if find_field(&all[t].dataset.data, name).is_some() {
                                let mut f = Field::default();
                                f.name = name.to_owned();
                                f.refs = Some(RefsSpec::Single(join3(&inc.reference, ".", name)));
                                f.hidden = true;
                                assert(f.model() == hidden_column(inc.reference@, name@));
                                let ghost prior = hidden@;
                                hidden.push(f);
                                assert(fields_model(hidden@) =~= fields_model(prior).push(
                                    f.model(),
                                ));
                            }
                        }
                    }
                }
                k += 1;
            }
        }
        i += 1;
    }
    hidden
}

/// Adds to every dataset the hidden columns that its expressions take from its parent.
pub fn pull_down_expression_deps(datasets: &Vec<DatasetEntry>) -> (r: Vec<DatasetEntry>)
    ensures
        entries_model(r@) == Seq::new(
            datasets@.len(),
            |i: int|
                with_data(
                    datasets@[i].model(),
                    with_needed_columns(entries_model(datasets@), datasets@[i].dataset.model()),
                ),
        ),
{
    let ghost am = entries_model(datasets@);
    let mut r: Vec<Vec<Field>> = Vec::new();
    let mut d: usize = 0;
    while d < datasets.len()
        invariant
            d <= datasets.len(),
            r.len() == d,
            am == entries_model(datasets@),
            forall|i: int|
                0 <= i < d ==> fields_model(#[trigger] r[i]@) == with_needed_columns(
                    am,
                    datasets[i].dataset.model(),
                ),
        decreases datasets.len() - d,
    {
        let data = &datasets[d].dataset.data;
        let ghost fm = fields_model(data@);
        let mut at: usize = 0;
        while at < data.len() && data[at].expression.is_none()
            invariant
                at <= data.len(),
                fm == fields_model(data@),
                first_computed(fm, 0) == first_computed(fm, at as int),
            decreases data.len() - at,
        {
            assert(fm[at as int] == data[at as int].model());
            at += 1;
        }
        if at < data.len() {
            assert(fm[at as int] == data[at as int].model());
        }
        assert(at == first_computed(fm, 0));
        let mut hidden = needed_by(datasets, d);
        let mut out: Vec<Field> = Vec::new();
        let mut i: usize = 0;
        assert(fields_model(out@) =~= fm.subrange(0, 0));
        while i < at
            invariant
                i <= at <= data.len(),
                fm == fields_model(data@),
                fields_model(out@) == fm.subrange(0, i as int),
            decreases at - i,
        {
            let ghost prior = out@;
            let f = data[i].clone();
            out.push(f);
            assert(fields_model(out@) =~= fields_model(prior).push(fm[i as int]));
            assert(fm.subrange(0, i + 1) =~= fm.subrange(0, i as int).push(fm[i as int]));
            i += 1;
        }
        let ghost head = out@;
        let ghost mid = hidden@;
        out.append(&mut hidden);
        assert(fields_model(out@) =~= fields_model(head) + fields_model(mid));
        let ghost front = fields_model(out@);
        assert(front + fm.subrange(at as int, at as int) =~= front);
        while i < data.len()
            invariant
                at <= i <= data.len(),
                fm == fields_model(data@),
                fields_model(out@) == front + fm.subrange(at as int, i as int),
            decreases data.len() - i,
        {
            let ghost prior = out@;
            let f = data[i].clone();
            out.push(f);
            assert(fields_model(out@) =~= fields_model(prior).push(fm[i as int]));
            assert(fm.subrange(at as int, i + 1) =~= fm.subrange(at as int, i as int).push(
                fm[i as int],
            ));
            assert(fields_model(out@) =~= front + fm.subrange(at as int, i + 1));
            i += 1;
        }
        r.push(out);
        d += 1;
    }
    let out = replace_data(datasets, &r);
    assert(entries_model(out@) =~= Seq::new(
        datasets@.len(),
        |i: int|
            with_data(
                datasets@[i].model(),
                with_needed_columns(entries_model(datasets@), datasets@[i].dataset.model()),
            ),
    ));
    out
}

proof fn lemma_names_extend(
    all: Seq<DatasetEntryModel>,
    ds: SyntheticDatasetModel,
    hidden: Seq<FieldModel>,
    names: Seq<Seq<char>>,
    n: int,
)
    requires
        forall|i: int| 0 <= i < hidden.len() ==> (#[trigger] hidden[i]).hidden,
    ensures
        forall|i: int|
            0 <= i < with_names(all, ds, hidden, names, n).len() ==> (#[trigger] with_names(
                all,
                ds,
                hidden,
                names,
                n,
            )[i]).hidden,
    decreases n,
{
    if n > 0 {
        lemma_names_extend(all, ds, hidden, names, n - 1);
    }
}

/// Every column that is pulled down is hidden, so the outputs do not change shape.
pub proof fn law_pulled_columns_are_hidden(
    all: Seq<DatasetEntryModel>,
    ds: SyntheticDatasetModel,
    n: int,
    i: int,
)
    requires
        0 <= i < needed_columns(all, ds, n).len(),
    ensures
        needed_columns(all, ds, n)[i].hidden,
    decreases n,
{
    lemma_pulled_hidden(all, ds, n);
}

proof fn lemma_pulled_hidden(all: Seq<DatasetEntryModel>, ds: SyntheticDatasetModel, n: int)
    ensures
        forall|i: int|
            0 <= i < needed_columns(all, ds, n).len() ==> (#[trigger] needed_columns(all, ds, n)[i]).hidden,
    decreases n,
{
    if n > 0 {
        lemma_pulled_hidden(all, ds, n - 1);
        if let Some(e) = ds.data[n - 1].expression {
            lemma_names_extend(
                all,
                ds,
                needed_columns(all, ds, n - 1),
                names_from(e, 0),
                names_from(e, 0).len() as int,
            );
        }
    }
}

} // verus!
