//! Rules on links, references and bindings between datasets.
use vstd::prelude::*;

use crate::constraints::{constraint_problem, constraints_of, validate_field_constraints};
use crate::import::{declares, is_declared};
use crate::message::{
    fail, fail_measured, first_of, join2, join3, join4, join5, join6, join7, measured, problem_of,
    says, PartModel, Problem,
};
use crate::models::{
    binding_refs_model, entries_model, field_position, fields_model, find_field, find_link,
    find_target, includes_model, lemma_content_model, link_position, ref_parts, split_ref,
    target_of, CountSpec, DatasetEntry, DatasetEntryModel, Field, FieldModel, FieldType, Include,
    IncludeModel, ListContent, ListContentModel, Num, Reducer, RefBinding, RefBindingModel,
    SyntheticDataset, SyntheticDatasetModel, ONE_KEY,
};
use crate::text::{decimal, decimal_text, holds_text, same_text, texts};
use crate::validate_field::{
    checked, fail_field, field_check, field_says, followed_by, locale_problem, reports,
    totals_model, validate_field, validate_locale_generator, warn, warning_if, ShareTotal,
    ShareTotalModel,
};
use crate::validate_flatten::{find_repeat, first_repeat};

verus! {

broadcast use crate::text::group_extends;

/// The problem of a dataset.
pub open spec fn dataset_says(name: Seq<char>, text: Seq<char>) -> Option<Seq<PartModel>> {
    says("dataset '"@ + name + "': "@ + text)
}

/// The failure of a dataset.
pub fn fail_dataset(name: &str, text: &str) -> (r: Result<(), Problem>)
    ensures
        problem_of(r) == dataset_says(name@, text@),
{
    fail(join4("dataset '", name, "': ", text))
}

// ---------------------------------------------------------------------------
// Links
// ---------------------------------------------------------------------------

/// The links that list items of the first `n` fields are drawn from, at any depth.
pub open spec fn group_refs(fields: Seq<FieldModel>, n: int) -> Seq<Seq<char>>
    decreases fields, n,
{
    if n <= 0 || n > fields.len() {
        Seq::empty()
    } else {
        let f = fields[n - 1];
        let own = match f.content {
            None => Seq::empty(),
            Some(c) => (match c.from {
                Some(s) => seq![s],
                None => Seq::empty(),
            }) + group_refs(c.item.fields, c.item.fields.len() as int),
        };
        group_refs(fields, n - 1) + own + group_refs(f.fields, f.fields.len() as int)
    }
}

/// Collects the links that list items are drawn from, at any depth.
pub fn collect_group_refs(fields: &Vec<Field>) -> (r: Vec<String>)
    ensures
        texts(r@) == group_refs(fields_model(fields@), fields@.len() as int),
    decreases fields,
{
    let ghost fm = fields_model(fields@);
    let mut r: Vec<String> = Vec::new();
    let mut i: usize = 0;
    assert(texts(r@) =~= group_refs(fm, 0));
    while i < fields.len()
        invariant
            i <= fields.len(),
            fm == fields_model(fields@),
            texts(r@) == group_refs(fm, i as int),
        decreases fields.len() - i,
    {
        let f = &fields[i];
        assert(fm[i as int] == f.model());
        assert(f.model().fields == fields_model(f.fields@));
        let ghost start = texts(r@);
        let ghost mut own: Seq<Seq<char>> = Seq::empty();
        assert(texts(r@) =~= start + own);
        if let Some(c) = &f.content {
            proof {
                lemma_content_model(*f);
            }
            if let Some(s) = &c.from {
                let ghost before = r@;
                r.push(s.clone());
                assert(texts(r@) =~= texts(before).push(s@));
                proof {
                    own = seq![s@];
                }
                assert(texts(r@) =~= start + own);
            }
            let mut inner = collect_group_refs(&c.item.fields);
            let ghost prior = r@;
            let ghost added = inner@;
            r.append(&mut inner);
            assert(texts(r@) =~= texts(prior) + texts(added));
            proof {
                own = own + texts(added);
            }
            assert(texts(r@) =~= start + own);
        }
        let mut nested = collect_group_refs(&f.fields);
        let ghost prior = r@;
        let ghost added = nested@;
        r.append(&mut nested);
        assert(texts(r@) =~= texts(prior) + texts(added));
        i += 1;
        assert(texts(r@) =~= group_refs(fm, i as int));
    }
    r
}

/// A weight that is neither none, one nor more.
pub open spec fn odd_weight(w: Num) -> bool {
    w.below(Num::zero()) || (Num::zero().below(w) && w.below(Num::one()))
}

/// The problem of one link, given the links that lists draw from.
pub open spec fn link_problem(name: Seq<char>, l: IncludeModel, groups: Seq<Seq<char>>) -> Option<
    Seq<PartModel>,
> {
    let head = "dataset '"@ + name + "': link '"@ + l.reference;
    if l.resolved is None {
        dataset_says(name, "linked file not found: '"@ + l.file + "'"@)
    } else if !groups.contains(l.reference) && l.cardinality is Some {
        dataset_says(
            name,
            "junction link '"@ + l.reference
                + "' must not set `cardinality` — junction links sample exactly one linked-dataset row per junction row"@,
        )
    } else if l.reinforcement is Some && odd_weight(l.reinforcement->0) {
        Some(
            measured(
                head
                    + "': `reinforcement` must be 0 (without-replacement), 1 (uniform), or > 1 (clumping); got "@,
                l.reinforcement->0,
            ),
        )
    } else if l.overlap is Some && odd_weight(l.overlap->0) {
        Some(
            measured(
                head
                    + "': `overlap` must be 0 (non-overlapping partitions), 1 (default, unrestricted), or > 1 (preferential popularity); got "@,
                l.overlap->0,
            ),
        )
    } else if l.overlap is Some && Num::one().below(l.overlap->0) && l.reinforcement is Some
        && l.reinforcement->0.key == 0 {
        says(
            head
                + "': `overlap > 1` and `reinforcement: 0` are incompatible — power-law weighting requires with-replacement sampling"@,
        )
    } else {
        None
    }
}

fn check_link(name: &str, l: &Include, groups: &Vec<String>) -> (r: Result<(), Problem>)
    ensures
        problem_of(r) == link_problem(name@, l.model(), texts(groups@)),
{
    if l.resolved.is_none() {
        let text = join3("linked file not found: '", &l.file, "'");
        return fail_dataset(name, &text);
    }
    if !holds_text(groups, &l.reference) && l.cardinality.is_some() {
        let text = join3(
            "junction link '",
            &l.reference,
            "' must not set `cardinality` — junction links sample exactly one linked-dataset row per junction row",
        );
        return fail_dataset(name, &text);
    }
    if let Some(w) = l.reinforcement {
        if w.lt(Num { key: 0 }) || ((Num { key: 0 }).lt(w) && w.lt(Num { key: ONE_KEY })) {
            return fail_measured(
                join5(
                    "dataset '",
                    name,
                    "': link '",
                    &l.reference,
                    "': `reinforcement` must be 0 (without-replacement), 1 (uniform), or > 1 (clumping); got ",
                ),
                w,
            );
        }
    }
    if let Some(w) = l.overlap {
        if w.lt(Num { key: 0 }) || ((Num { key: 0 }).lt(w) && w.lt(Num { key: ONE_KEY })) {
            return fail_measured(
                join5(
                    "dataset '",
                    name,
                    "': link '",
                    &l.reference,
                    "': `overlap` must be 0 (non-overlapping partitions), 1 (default, unrestricted), or > 1 (preferential popularity); got ",
                ),
                w,
            );
        }
        let exclusive: bool = match l.reinforcement {
            Some(x) => x.key == 0,
            None => false,
        };
        if (Num { key: ONE_KEY }).lt(w) && exclusive {
            return fail(
                join5(
                    "dataset '",
                    name,
                    "': link '",
                    &l.reference,
                    "': `overlap > 1` and `reinforcement: 0` are incompatible — power-law weighting requires with-replacement sampling",
                ),
            );
        }
    }
    Ok(())
}

/// The first problem of the first `n` links.
pub open spec fn each_link_problem(
    name: Seq<char>,
    links: Seq<IncludeModel>,
    groups: Seq<Seq<char>>,
    n: int,
) -> Option<Seq<PartModel>>
    decreases n,
{
    if n <= 0 {
        None
    } else {
        first_of(
            each_link_problem(name, links, groups, n - 1),
            link_problem(name, links[n - 1], groups),
        )
    }
}

proof fn lemma_each_link_stays(
    name: Seq<char>,
    links: Seq<IncludeModel>,
    groups: Seq<Seq<char>>,
    k: int,
    n: int,
)
    requires
        0 <= k <= n,
        each_link_problem(name, links, groups, k) is Some,
    ensures
        each_link_problem(name, links, groups, n) == each_link_problem(name, links, groups, k),
    decreases n - k,
{
    if k < n {
        lemma_each_link_stays(name, links, groups, k, n - 1);
    }
}

/// The first of the first `n` sources of lists that is no link.
pub open spec fn unlinked_problem(
    name: Seq<char>,
    links: Seq<IncludeModel>,
    groups: Seq<Seq<char>>,
    n: int,
) -> Option<Seq<PartModel>>
    decreases n,
{
    if n <= 0 {
        None
    } else {
        first_of(
            unlinked_problem(name, links, groups, n - 1),
            if link_position(links, groups[n - 1], 0) is None {
                dataset_says(
                    name,
                    "`content.from: "@ + groups[n - 1]
                        + "` does not match any entry in `links`"@,
                )
            } else {
                None
            },
        )
    }
}

proof fn lemma_unlinked_stays(
    name: Seq<char>,
    links: Seq<IncludeModel>,
    groups: Seq<Seq<char>>,
    k: int,
    n: int,
)
    requires
        0 <= k <= n,
        unlinked_problem(name, links, groups, k) is Some,
    ensures
        unlinked_problem(name, links, groups, n) == unlinked_problem(name, links, groups, k),
    decreases n - k,
{
    if k < n {
        lemma_unlinked_stays(name, links, groups, k, n - 1);
    }
}

/// The first problem of the links of a dataset.
pub open spec fn links_problem(ds: SyntheticDatasetModel) -> Option<Seq<PartModel>> {
    let groups = group_refs(ds.data, ds.data.len() as int);
    let repeat = first_repeat(groups, groups.len() as int);
    first_of(
        each_link_problem(ds.name, ds.links, groups, ds.links.len() as int),
        first_of(
            unlinked_problem(ds.name, ds.links, groups, groups.len() as int),
            if repeat is Some {
                dataset_says(
                    ds.name,
                    "two or more list fields share `content.from: "@ + groups[repeat->0]
                        + "` — each link may be referenced by at most one list field"@,
                )
            } else {
                None
            },
        ),
    )
}

/// Checks the links of a dataset and the lists that draw from them.
pub fn check_links(dataset: &SyntheticDataset) -> (r: Result<(), Problem>)
    ensures
        problem_of(r) == links_problem(dataset.model()),
{
    let ghost name = dataset.name@;
    let ghost lm = includes_model(dataset.links@);
    assert(dataset.model().links == lm);
    assert(dataset.model().data == fields_model(dataset.data@));
    let groups = collect_group_refs(&dataset.data);
    let ghost gm = texts(groups@);
    let mut i: usize = 0;
    while i < dataset.links.len()
        invariant
            i <= dataset.links.len(),
            name == dataset.name@,
            lm == includes_model(dataset.links@),
            lm == dataset.model().links,
            gm == texts(groups@),
            gm == group_refs(dataset.model().data, dataset.model().data.len() as int),
            each_link_problem(name, lm, gm, i as int) is None,
        decreases dataset.links.len() - i,
    {
        assert(lm[i as int] == dataset.links[i as int].model());
        if let Err(p) = check_link(&dataset.name, &dataset.links[i], &groups) {
            proof {
                lemma_each_link_stays(name, lm, gm, i + 1, lm.len() as int);
            }
            return Err(p);
        }
        i += 1;
    }
    let mut k: usize = 0;
    while k < groups.len()
        invariant
            k <= groups.len(),
            name == dataset.name@,
            lm == includes_model(dataset.links@),
            lm == dataset.model().links,
            gm == texts(groups@),
            gm == group_refs(dataset.model().data, dataset.model().data.len() as int),
            each_link_problem(name, lm, gm, lm.len() as int) is None,
            unlinked_problem(name, lm, gm, k as int) is None,
        decreases groups.len() - k,
    {
        assert(gm[k as int] == groups[k as int]@);
        if find_link(&dataset.links, &groups[k]).is_none() {
            proof {
                lemma_unlinked_stays(name, lm, gm, k + 1, gm.len() as int);
            }
            let text = join3(
                "`content.from: ",
                &groups[k],
                "` does not match any entry in `links`",
            );
            return fail_dataset(&dataset.name, &text);
        }
        k += 1;
    }
    if let Some(j) = find_repeat(&groups) {
        assert(gm[j as int] == groups[j as int]@);
        let text = join3(
            "two or more list fields share `content.from: ",
            &groups[j],
            "` — each link may be referenced by at most one list field",
        );
        return fail_dataset(&dataset.name, &text);
    }
    Ok(())
}

// ---------------------------------------------------------------------------
// Options of an include or a link
// ---------------------------------------------------------------------------

/// True when a name is excluded.
pub open spec fn left_out(inc: IncludeModel, name: Seq<char>) -> bool {
    inc.exclude is Some && inc.exclude->0.contains(name)
}

/// The warnings on the first `n` excluded names: those that the target lacks, each once.
pub open spec fn unknown_excludes(
    name: Seq<char>,
    inc: IncludeModel,
    target: Seq<FieldModel>,
    n: int,
) -> Seq<Seq<char>>
    decreases n,
{
    if n <= 0 {
        Seq::empty()
    } else {
        let ex = inc.exclude->0[n - 1];
        unknown_excludes(name, inc, target, n - 1) + warning_if(
            !declares(target, ex) && !inc.exclude->0.subrange(0, n - 1).contains(ex),
            "warning: dataset '"@ + name + "': include '"@ + inc.reference
                + "': `exclude` names field '"@ + ex + "' which does not exist in '"@ + inc.file
                + "'"@,
        )
    }
}

/// True when an entry of the field list brings in a field of the target.
pub open spec fn brings_field(inc: IncludeModel, target: Seq<FieldModel>, entry: Seq<char>) -> bool {
    if entry == "*"@ {
        exists|i: int| 0 <= i < target.len() && !left_out(inc, (#[trigger] target[i]).name)
    } else {
        declares(target, entry) && !left_out(inc, entry)
    }
}

/// True when the field list brings in some field of the target.
pub open spec fn brings_any(inc: IncludeModel, target: Seq<FieldModel>) -> bool {
    exists|i: int| 0 <= i < inc.fields.len() && brings_field(inc, target, #[trigger] inc.fields[i])
}

/// The warnings on the field list of an include or link.
pub open spec fn field_list_warnings(
    name: Seq<char>,
    inc: IncludeModel,
    all: Seq<DatasetEntryModel>,
) -> Seq<Seq<char>> {
    match target_of(all, inc) {
        None => Seq::empty(),
        Some(t) => {
            let target = all[t].dataset.data;
            (match inc.exclude {
                Some(e) => unknown_excludes(name, inc, target, e.len() as int),
                None => Seq::empty(),
            }) + warning_if(
                !brings_any(inc, target),
                "warning: dataset '"@ + name + "': include '"@ + inc.reference
                    + "': `fields` expands to no fields after applying `exclude`"@,
            )
        },
    }
}

fn is_left_out(inc: &Include, name: &str) -> (r: bool)
    ensures
        r == left_out(inc.model(), name@),
{
    match &inc.exclude {
        Some(e) => {
            assert(inc.model().exclude == Some(texts(e@)));
            holds_text(e, name)
        },
        None => false,
    }
}

fn entry_brings(inc: &Include, target: &Vec<Field>, entry: &str) -> (r: bool)
    ensures
        r == brings_field(inc.model(), fields_model(target@), entry@),
{
    if same_text(entry, "*") {
        let ghost tm = fields_model(target@);
        let mut i: usize = 0;
        while i < target.len()
            invariant
                i <= target.len(),
                tm == fields_model(target@),
                entry@ == "*"@,
                forall|j: int| 0 <= j < i ==> left_out(inc.model(), (#[trigger] tm[j]).name),
            decreases target.len() - i,
        {
            assert(tm[i as int] == target[i as int].model());
            if !is_left_out(inc, &target[i].name) {
                return true;
            }
            i += 1;
        }
        false
    } else {
        is_declared(target, entry) && !is_left_out(inc, entry)
    }
}

fn list_brings(inc: &Include, target: &Vec<Field>) -> (r: bool)
    ensures
        r == brings_any(inc.model(), fields_model(target@)),
{
    let ghost im = inc.model();
    assert(im.fields == texts(inc.fields@));
    let mut i: usize = 0;
    while i < inc.fields.len()
        invariant
            i <= inc.fields.len(),
            im == inc.model(),
            im.fields == texts(inc.fields@),
            forall|j: int|
                0 <= j < i ==> !brings_field(im, fields_model(target@), #[trigger] im.fields[j]),
        decreases inc.fields.len() - i,
    {
        assert(im.fields[i as int] == inc.fields[i as int]@);
        if entry_brings(inc, target, &inc.fields[i]) {
            return true;
        }
        i += 1;
    }
    false
}

fn stands_before(list: &Vec<String>, n: usize) -> (r: bool)
    requires
        n < list.len(),
    ensures
        r == texts(list@).subrange(0, n as int).contains(texts(list@)[n as int]),
{
    let ghost lm = texts(list@);
    let ghost front = lm.subrange(0, n as int);
    let mut i: usize = 0;
    while i < n
        invariant
            i <= n < list.len(),
            lm == texts(list@),
            front == lm.subrange(0, n as int),
            forall|j: int| 0 <= j < i ==> #[trigger] front[j] != lm[n as int],
        decreases n - i,
    {
        assert(lm[i as int] == list[i as int]@);
        assert(lm[n as int] == list[n as int]@);
        assert(front[i as int] == lm[i as int]);
        if same_text(&list[i], &list[n]) {
            assert(front.contains(lm[n as int]));
            return true;
        }
        i += 1;
    }
    false
}

fn warn_excludes(
    name: &str,
    inc: &Include,
    exclude: &Vec<String>,
    target: &Vec<Field>,
    warnings: &mut Vec<String>,
)
    requires
        inc.exclude is Some,
        inc.model().exclude == Some(texts(exclude@)),
    ensures
        texts(final(warnings)@) == texts(old(warnings)@) + unknown_excludes(
            name@,
            inc.model(),
            fields_model(target@),
            exclude@.len() as int,
        ),
{
    let ghost im = inc.model();
    let ghost em = texts(exclude@);
    let ghost tm = fields_model(target@);
    let ghost start = texts(warnings@);
    let mut i: usize = 0;
    assert(texts(warnings@) =~= start + unknown_excludes(name@, im, tm, 0));
    while i < exclude.len()
        invariant
            i <= exclude.len(),
            im == inc.model(),
            em == texts(exclude@),
            im.exclude == Some(em),
            tm == fields_model(target@),
            texts(warnings@) == start + unknown_excludes(name@, im, tm, i as int),
        decreases exclude.len() - i,
    {
        assert(em[i as int] == exclude[i as int]@);
        let ex = &exclude[i];
        if !is_declared(target, ex) && !stands_before(exclude, i) {
            let head = join5(
                "warning: dataset '",
                name,
                "': include '",
                &inc.reference,
                "': `exclude` names field '",
            );
            warn(warnings, join5(&head, ex, "' which does not exist in '", &inc.file, "'"));
        }
        i += 1;
        assert(texts(warnings@) =~= start + unknown_excludes(name@, im, tm, i as int));
    }
}

/// Warns of a field list that names unknown fields or brings in none.
pub fn validate_include_fields(
    name: &str,
    inc: &Include,
    all: &Vec<DatasetEntry>,
    warnings: &mut Vec<String>,
)
    ensures
        texts(final(warnings)@) == texts(old(warnings)@) + field_list_warnings(
            name@,
            inc.model(),
            entries_model(all@),
        ),
{
    let ghost start = texts(warnings@);
    assert(start =~= start + Seq::<Seq<char>>::empty());
    if let Some(t) = find_target(all, inc) {
        let target = &all[t].dataset.data;
        assert(entries_model(all@)[t as int] == all[t as int].model());
        assert(entries_model(all@)[t as int].dataset.data == fields_model(target@));
        if let Some(e) = &inc.exclude {
            assert(inc.model().exclude == Some(texts(e@)));
            warn_excludes(name, inc, e, target, warnings);
        }
        let ghost middle = texts(warnings@);
        if !list_brings(inc, target) {
            warn(
                warnings,
                join5(
                    "warning: dataset '",
                    name,
                    "': include '",
                    &inc.reference,
                    "': `fields` expands to no fields after applying `exclude`",
                ),
            );
        }
        assert(texts(warnings@) =~= start + field_list_warnings(
            name@,
            inc.model(),
            entries_model(all@),
        ));
    }
}

/// The outcome of checking the field list of an include or link.
pub open spec fn field_list_check(
    name: Seq<char>,
    inc: IncludeModel,
    kind: Seq<char>,
    all: Seq<DatasetEntryModel>,
) -> Result<Seq<Seq<char>>, Seq<PartModel>> {
    checked(
        if inc.exclude is Some && inc.fields.len() == 0 {
            dataset_says(
                name,
                kind + " '"@ + inc.reference
                    + "': `exclude` is only valid when `fields` is also set"@,
            )
        } else {
            None
        },
        if inc.fields.len() > 0 {
            field_list_warnings(name, inc, all)
        } else {
            Seq::empty()
        },
    )
}

fn check_field_list(
    name: &str,
    inc: &Include,
    kind: &str,
    all: &Vec<DatasetEntry>,
    warnings: &mut Vec<String>,
) -> (r: Result<(), Problem>)
    ensures
        reports(
            r,
            texts(old(warnings)@),
            texts(final(warnings)@),
            field_list_check(name@, inc.model(), kind@, entries_model(all@)),
        ),
{
    assert(inc.model().fields == texts(inc.fields@));
    assert(texts(warnings@) =~= texts(warnings@) + Seq::<Seq<char>>::empty());
    if inc.exclude.is_some() && inc.fields.len() == 0 {
        let text = join4(
            kind,
            " '",
            &inc.reference,
            "': `exclude` is only valid when `fields` is also set",
        );
        return fail_dataset(name, &text);
    }
    if inc.fields.len() > 0 {
        validate_include_fields(name, inc, all, warnings);
    }
    Ok(())
}

/// The outcome of checking the field lists of the first `n` links.
pub open spec fn link_lists_check(
    name: Seq<char>,
    links: Seq<IncludeModel>,
    all: Seq<DatasetEntryModel>,
    n: int,
) -> Result<Seq<Seq<char>>, Seq<PartModel>>
    decreases n,
{
    if n <= 0 {
        Ok(Seq::empty())
    } else {
        followed_by(
            link_lists_check(name, links, all, n - 1),
            field_list_check(name, links[n - 1], "link"@, all),
        )
    }
}

proof fn lemma_link_lists_stay(
    name: Seq<char>,
    links: Seq<IncludeModel>,
    all: Seq<DatasetEntryModel>,
    k: int,
    n: int,
)
    requires
        0 <= k <= n,
        link_lists_check(name, links, all, k) is Err,
    ensures
        link_lists_check(name, links, all, n) == link_lists_check(name, links, all, k),
    decreases n - k,
{
    if k < n {
        lemma_link_lists_stay(name, links, all, k, n - 1);
    }
}

/// The problem of a count that a list or a child must have.
pub open spec fn cardinality_problem(card: CountSpec, context: Seq<char>) -> Option<Seq<PartModel>> {
    match card {
        CountSpec::Fixed(n) => if n < 1 {
            says(
                context + ": `cardinality` must be at least 1, got "@ + decimal_text(n as nat),
            )
        } else {
            None
        },
        CountSpec::Uniform { min, max } => if min < 1 {
            says(
                context + ": `cardinality.min` must be at least 1, got "@ + decimal_text(
                    min as nat,
                ),
            )
        } else if min > max {
            says(
                context + ": `cardinality.min` ("@ + decimal_text(min as nat)
                    + ") must be ≤ `cardinality.max` ("@ + decimal_text(max as nat) + ")"@,
            )
        } else {
            None
        },
        CountSpec::Normal { .. } => None,
    }
}

/// Checks a count that a list or a child must have.
pub fn validate_cardinality(card: &CountSpec, ctx: &str) -> (r: Result<(), Problem>)
    ensures
        problem_of(r) == cardinality_problem(*card, ctx@),
{
    match card {
        CountSpec::Fixed(n) => {
            if *n < 1 {
                let d = decimal(*n as u64);
                return fail(join3(ctx, ": `cardinality` must be at least 1, got ", &d));
            }
            Ok(())
        },
        CountSpec::Uniform { min, max } => {
            if *min < 1 {
                let d = decimal(*min as u64);
                return fail(join3(ctx, ": `cardinality.min` must be at least 1, got ", &d));
            }
            if *min > *max {
                let a = decimal(*min as u64);
                let b = decimal(*max as u64);
                return fail(
                    join6(
                        ctx,
                        ": `cardinality.min` (",
                        &a,
                        ") must be ≤ `cardinality.max` (",
                        &b,
                        ")",
                    ),
                );
            }
            Ok(())
        },
        CountSpec::Normal { mean: _, std_dev: _ } => Ok(()),
    }
}

/// The problem of options that a dataset's include may not have.
pub open spec fn include_only_problem(ds: SyntheticDatasetModel) -> Option<Seq<PartModel>> {
    match ds.include_spec {
        None => None,
        Some(inc) => if inc.reinforcement is Some {
            dataset_says(
                ds.name,
                "`include.reinforcement` is not valid — `reinforcement` only applies to `links:` entries"@,
            )
        } else if inc.overlap is Some {
            dataset_says(
                ds.name,
                "`include.overlap` is not valid — `overlap` only applies to `links:` entries"@,
            )
        } else {
            match inc.cardinality {
                None => None,
                Some(card) => if ds.rows is Some {
                    dataset_says(
                        ds.name,
                        "`rows` cannot be set when `include.cardinality` is present"@,
                    )
                } else {
                    cardinality_problem(card, "dataset '"@ + ds.name + "'"@)
                },
            }
        },
    }
}

/// The outcome of checking the options of a dataset's include and links.
pub open spec fn include_options_check(
    ds: SyntheticDatasetModel,
    all: Seq<DatasetEntryModel>,
) -> Result<Seq<Seq<char>>, Seq<PartModel>> {
    let lists = followed_by(
        match ds.include_spec {
            Some(inc) => field_list_check(ds.name, inc, "include"@, all),
            None => Ok(Seq::empty()),
        },
        link_lists_check(ds.name, ds.links, all, ds.links.len() as int),
    );
    match lists {
        Err(p) => Err(p),
        Ok(w) => checked(include_only_problem(ds), w),
    }
}

fn check_include_only(dataset: &SyntheticDataset) -> (r: Result<(), Problem>)
    ensures
        problem_of(r) == include_only_problem(dataset.model()),
{
    if let Some(inc) = &dataset.include_spec {
        assert(dataset.model().include_spec == Some(inc.model()));
        if inc.reinforcement.is_some() {
            return fail_dataset(
                &dataset.name,
                "`include.reinforcement` is not valid — `reinforcement` only applies to `links:` entries",
            );
        }
        if inc.overlap.is_some() {
            return fail_dataset(
                &dataset.name,
                "`include.overlap` is not valid — `overlap` only applies to `links:` entries",
            );
        }
        if let Some(card) = &inc.cardinality {
            if dataset.rows.is_some() {
                return fail_dataset(
                    &dataset.name,
                    "`rows` cannot be set when `include.cardinality` is present",
                );
            }
            let ctx = join3("dataset '", &dataset.name, "'");
            return validate_cardinality(card, &ctx);
        }
    }
    Ok(())
}

/// Checks the options of a dataset's include and links.
pub fn check_include_options(
    dataset: &SyntheticDataset,
    all: &Vec<DatasetEntry>,
    warnings: &mut Vec<String>,
) -> (r: Result<(), Problem>)
    ensures
        reports(
            r,
            texts(old(warnings)@),
            texts(final(warnings)@),
            include_options_check(dataset.model(), entries_model(all@)),
        ),
{
    let ghost dm = dataset.model();
    let ghost am = entries_model(all@);
    let ghost lm = includes_model(dataset.links@);
    let ghost start = texts(warnings@);
    assert(dm.links == lm);
    let ghost first = match dm.include_spec {
        Some(inc) => field_list_check(dm.name, inc, "include"@, am),
        None => Ok(Seq::empty()),
    };
    assert(start =~= start + Seq::<Seq<char>>::empty());
    if let Some(inc) = &dataset.include_spec {
        assert(dm.include_spec == Some(inc.model()));
        check_field_list(&dataset.name, inc, "include", all, warnings)?;
    }
    assert(first is Ok && texts(warnings@) == start + first->Ok_0);
    let mut i: usize = 0;
    assert(texts(warnings@) =~= start + first->Ok_0 + link_lists_check(dm.name, lm, am, 0)->Ok_0);
    while i < dataset.links.len()
        invariant
            i <= dataset.links.len(),
            dm == dataset.model(),
            am == entries_model(all@),
            lm == includes_model(dataset.links@),
            dm.links == lm,
            first == (match dm.include_spec {
                Some(inc) => field_list_check(dm.name, inc, "include"@, am),
                None => Ok(Seq::empty()),
            }),
            first is Ok,
            start == texts(old(warnings)@),
            link_lists_check(dm.name, lm, am, i as int) is Ok,
            texts(warnings@) == start + first->Ok_0 + link_lists_check(
                dm.name,
                lm,
                am,
                i as int,
            )->Ok_0,
        decreases dataset.links.len() - i,
    {
        assert(lm[i as int] == dataset.links[i as int].model());
        if let Err(p) = check_field_list(&dataset.name, &dataset.links[i], "link", all, warnings) {
            proof {
                lemma_link_lists_stay(dm.name, lm, am, i + 1, lm.len() as int);
            }
            return Err(p);
        }
        i += 1;
        assert(texts(warnings@) =~= start + first->Ok_0 + link_lists_check(
            dm.name,
            lm,
            am,
            i as int,
        )->Ok_0);
    }
    assert(texts(warnings@) =~= start + (first->Ok_0 + link_lists_check(
        dm.name,
        lm,
        am,
        lm.len() as int,
    )->Ok_0));
    check_include_only(dataset)
}

// ---------------------------------------------------------------------------
// Items drawn from a link
// ---------------------------------------------------------------------------

/// The problem of a reference to the link inside its items.
pub open spec fn linked_ref_problem(
    path: Seq<char>,
    reference: Seq<char>,
    column: Seq<char>,
    link: IncludeModel,
    f: FieldModel,
    all: Seq<DatasetEntryModel>,
) -> Option<Seq<PartModel>> {
    if f.field_type is Some {
        field_says(
            path,
            "`type` cannot be set alongside a linked-scoped `ref` — the type is inherited from the referenced field"@,
        )
    } else if link.resolved is None {
        field_says(path, "cannot resolve link file '"@ + link.file + "'"@)
    } else {
        match target_of(all, link) {
            None => field_says(path, "linked dataset '"@ + link.file + "' not loaded"@),
            Some(t) => if declares(all[t].dataset.data, column) {
                None
            } else {
                field_says(
                    path,
                    "ref '"@ + reference + "' — field '"@ + column + "' does not exist in '"@
                        + link.file + "'"@,
                )
            },
        }
    }
}

/// The problem of a reference to the enclosing row inside the items of a link.
pub open spec fn outer_ref_problem(
    path: Seq<char>,
    reference: Seq<char>,
    f: FieldModel,
    ds: SyntheticDatasetModel,
) -> Option<Seq<PartModel>> {
    if f.field_type is None {
        field_says(
            path,
            "outer-scoped `ref: "@ + reference
                + "` requires an explicit `type` — type cannot be inferred from the enclosing dataset automatically"@,
        )
    } else if !declares(ds.data, reference) {
        field_says(
            path,
            "outer-scoped ref '"@ + reference + "' — field '"@ + reference
                + "' does not exist in dataset '"@ + ds.name + "'"@,
        )
    } else {
        None
    }
}

/// The problem of where a field of a link's items takes its values from.
pub open spec fn content_source_problem(
    path: Seq<char>,
    link: IncludeModel,
    f: FieldModel,
    ds: SyntheticDatasetModel,
    all: Seq<DatasetEntryModel>,
) -> Option<Seq<PartModel>> {
    match f.type_ref() {
        None => if f.field_type is None {
            field_says(path, "must have `type`, `ref`, or `expression`"@)
        } else {
            None
        },
        Some(s) => match ref_parts(s) {
            Some(p) => if p.0 == link.reference {
                linked_ref_problem(path, s, p.1, link, f, all)
            } else {
                outer_ref_problem(path, s, f, ds)
            },
            None => outer_ref_problem(path, s, f, ds),
        },
    }
}

/// The problem of a field of a link's items.
pub open spec fn content_field_problem(
    parent: Seq<char>,
    link: IncludeModel,
    f: FieldModel,
    ds: SyntheticDatasetModel,
    all: Seq<DatasetEntryModel>,
) -> Option<Seq<PartModel>> {
    let path = parent + "."@ + f.name;
    if f.name.len() == 0 {
        says("list-link content at '"@ + parent + "': a field is missing a `name`"@)
    } else if f.expression is Some {
        field_says(path, "`expression` is not supported inside list-link content"@)
    } else if f.field_type == Some(FieldType::Variant) {
        field_says(
            path,
            "`type: variant` is not yet supported inside list-link content (linked content lists)"@,
        )
    } else {
        first_of(
            content_source_problem(path, link, f, ds, all),
            first_of(
                constraint_problem(path, constraints_of(f)),
                first_of(
                    locale_problem(path, f.locale, f.generator),
                    if f.generator is Some && f.field_type is Some && !f.generator->0.fits(
                        f.field_type->0,
                    ) {
                        field_says(
                            path,
                            "generator `"@ + f.generator->0.label() + "` is not valid for type `"@
                                + f.field_type->0.label() + "`"@,
                        )
                    } else {
                        None
                    },
                ),
            ),
        )
    }
}

/// The first problem of the first `n` fields of a link's items.
pub open spec fn content_problem(
    parent: Seq<char>,
    link: IncludeModel,
    fields: Seq<FieldModel>,
    ds: SyntheticDatasetModel,
    all: Seq<DatasetEntryModel>,
    n: int,
) -> Option<Seq<PartModel>>
    decreases n,
{
    if n <= 0 {
        None
    } else {
        first_of(
            content_problem(parent, link, fields, ds, all, n - 1),
            content_field_problem(parent, link, fields[n - 1], ds, all),
        )
    }
}

proof fn lemma_content_stays(
    parent: Seq<char>,
    link: IncludeModel,
    fields: Seq<FieldModel>,
    ds: SyntheticDatasetModel,
    all: Seq<DatasetEntryModel>,
    k: int,
    n: int,
)
    requires
        0 <= k <= n,
        content_problem(parent, link, fields, ds, all, k) is Some,
    ensures
        content_problem(parent, link, fields, ds, all, n) == content_problem(
            parent,
            link,
            fields,
            ds,
            all,
            k,
        ),
    decreases n - k,
{
    if k < n {
        lemma_content_stays(parent, link, fields, ds, all, k, n - 1);
    }
}

fn check_linked_ref(
    path: &str,
    reference: &str,
    column: &str,
    link: &Include,
    field: &Field,
    all: &Vec<DatasetEntry>,
) -> (r: Result<(), Problem>)
    ensures
        problem_of(r) == linked_ref_problem(
            path@,
            reference@,
            column@,
            link.model(),
            field.model(),
            entries_model(all@),
        ),
{
    if field.field_type.is_some() {
        return fail_field(
            path,
            "`type` cannot be set alongside a linked-scoped `ref` — the type is inherited from the referenced field",
        );
    }
    if link.resolved.is_none() {
        let text = join3("cannot resolve link file '", &link.file, "'");
        return fail_field(path, &text);
    }
    match find_target(all, link) {
        None => {
            let text = join3("linked dataset '", &link.file, "' not loaded");
            fail_field(path, &text)
        },
        Some(t) => {
            assert(entries_model(all@)[t as int] == all[t as int].model());
            assert(all[t as int].model().dataset.data == fields_model(
                all[t as int].dataset.data@,
            ));
            if is_declared(&all[t].dataset.data, column) {
                Ok(())
            } else {
                let text = join7(
                    "ref '",
                    reference,
                    "' — field '",
                    column,
                    "' does not exist in '",
                    &link.file,
                    "'",
                );
                fail_field(path, &text)
            }
        },
    }
}

fn check_outer_ref(path: &str, reference: &str, field: &Field, dataset: &SyntheticDataset) -> (r:
    Result<(), Problem>)
    ensures
        problem_of(r) == outer_ref_problem(path@, reference@, field.model(), dataset.model()),
{
    if field.field_type.is_none() {
        let text = join3(
            "outer-scoped `ref: ",
            reference,
            "` requires an explicit `type` — type cannot be inferred from the enclosing dataset automatically",
        );
        return fail_field(path, &text);
    }
    if !is_declared(&dataset.data, reference) {
        let text = join7(
            "outer-scoped ref '",
            reference,
            "' — field '",
            reference,
            "' does not exist in dataset '",
            &dataset.name,
            "'",
        );
        return fail_field(path, &text);
    }
    Ok(())
}

fn check_content_source(
    path: &str,
    link: &Include,
    field: &Field,
    dataset: &SyntheticDataset,
    all: &Vec<DatasetEntry>,
) -> (r: Result<(), Problem>)
    ensures
        problem_of(r) == content_source_problem(
            path@,
            link.model(),
            field.model(),
            dataset.model(),
            entries_model(all@),
        ),
{
    match field.simple_ref() {
        None => {
            if field.field_type.is_none() {
                return fail_field(path, "must have `type`, `ref`, or `expression`");
            }
            Ok(())
        },
        Some(s) => match split_ref(s) {
            Some((a, b)) => {
                if same_text(a, &link.reference) {
                    check_linked_ref(path, s, b, link, field, all)
                } else {
                    check_outer_ref(path, s, field, dataset)
                }
            },
            None => check_outer_ref(path, s, field, dataset),
        },
    }
}

fn check_content_field(
    parent: &str,
    link: &Include,
    field: &Field,
    dataset: &SyntheticDataset,
    all: &Vec<DatasetEntry>,
) -> (r: Result<(), Problem>)
    ensures
        problem_of(r) == content_field_problem(
            parent@,
            link.model(),
            field.model(),
            dataset.model(),
            entries_model(all@),
        ),
{
    if field.name.as_str().unicode_len() == 0 {
        return fail(
            join3("list-link content at '", parent, "': a field is missing a `name`"),
        );
    }
    let path = join3(parent, ".", &field.name);
    if field.expression.is_some() {
        return fail_field(&path, "`expression` is not supported inside list-link content");
    }
    if matches!(field.field_type, Some(FieldType::Variant)) {
        return fail_field(
            &path,
            "`type: variant` is not yet supported inside list-link content (linked content lists)",
        );
    }
    check_content_source(&path, link, field, dataset, all)?;
    validate_field_constraints(&path, field)?;
    validate_locale_generator(&path, field.locale, field.generator)?;
    if let (Some(g), Some(t)) = (field.generator, field.field_type) {
        if !g.valid_for(&t) {
            let text = join5(
                "generator `",
                g.as_str(),
                "` is not valid for type `",
                t.as_str(),
                "`",
            );
            return fail_field(&path, &text);
        }
    }
    Ok(())
}

/// Checks the fields of the items that are drawn from a link.
pub fn validate_list_link_content(
    path: &str,
    link: &Include,
    data: &Vec<Field>,
    dataset: &SyntheticDataset,
    all: &Vec<DatasetEntry>,
) -> (r: Result<(), Problem>)
    ensures
        problem_of(r) == content_problem(
            path@,
            link.model(),
            fields_model(data@),
            dataset.model(),
            entries_model(all@),
            data@.len() as int,
        ),
{
    let ghost fm = fields_model(data@);
    let ghost am = entries_model(all@);
    let mut i: usize = 0;
    while i < data.len()
        invariant
            i <= data.len(),
            fm == fields_model(data@),
            am == entries_model(all@),
            content_problem(path@, link.model(), fm, dataset.model(), am, i as int) is None,
        decreases data.len() - i,
    {
        assert(fm[i as int] == data[i as int].model());
        if let Err(p) = check_content_field(path, link, &data[i], dataset, all) {
            proof {
                lemma_content_stays(
                    path@,
                    link.model(),
                    fm,
                    dataset.model(),
                    am,
                    i + 1,
                    fm.len() as int,
                );
            }
            return Err(p);
        }
        i += 1;
    }
    Ok(())
}

/// The problem of projecting one field out of a link's items.
pub open spec fn project_problem(
    c: ListContentModel,
    link: IncludeModel,
    path: Seq<char>,
    all: Seq<DatasetEntryModel>,
) -> Option<Seq<PartModel>> {
    match c.project {
        None => None,
        Some(proj) => {
            let head = "`project: "@ + proj + "` — "@;
            if c.item.fields.len() > 0 {
                field_says(
                    path,
                    "`project` and `fields` are mutually exclusive — remove `fields` when using `project`"@,
                )
            } else {
                match ref_parts(proj) {
                    None => field_says(path, head + "expected `<link_ref>.<field_name>` format"@),
                    Some(p) => if p.0 != link.reference {
                        field_says(
                            path,
                            head + "ref part '"@ + p.0 + "' does not match the link ref '"@
                                + link.reference + "'"@,
                        )
                    } else if link.resolved is None {
                        field_says(path, head + "cannot resolve link file '"@ + link.file + "'"@)
                    } else {
                        match target_of(all, link) {
                            None => field_says(
                                path,
                                head + "linked dataset '"@ + link.file + "' not loaded"@,
                            ),
                            Some(t) => if declares(all[t].dataset.data, p.1) {
                                None
                            } else {
                                field_says(
                                    path,
                                    head + "field '"@ + p.1 + "' does not exist in '"@ + link.file
                                        + "'"@,
                                )
                            },
                        }
                    },
                }
            }
        },
    }
}

/// Checks that a projected field exists in the linked dataset.
pub fn validate_project(
    content: &ListContent,
    link: &Include,
    content_path: &str,
    all: &Vec<DatasetEntry>,
) -> (r: Result<(), Problem>)
    ensures
        problem_of(r) == project_problem(
            content.model(),
            link.model(),
            content_path@,
            entries_model(all@),
        ),
{
    match &content.project {
        None => Ok(()),
        Some(proj) => {
            assert(content.model().project == Some(proj@));
            assert(content.model().item == content.item.model());
            assert(content.item.model().fields == fields_model(content.item.fields@));
            let head = join3("`project: ", proj, "` — ");
            if content.item.fields.len() > 0 {
                return fail_field(
                    content_path,
                    "`project` and `fields` are mutually exclusive — remove `fields` when using `project`",
                );
            }
            match split_ref(proj) {
                None => {
                    let text = join2(&head, "expected `<link_ref>.<field_name>` format");
                    fail_field(content_path, &text)
                },
                Some((a, b)) => {
                    if !same_text(a, &link.reference) {
                        let text = join6(
                            &head,
                            "ref part '",
                            a,
                            "' does not match the link ref '",
                            &link.reference,
                            "'",
                        );
                        return fail_field(content_path, &text);
                    }
                    if link.resolved.is_none() {
                        let text = join4(&head, "cannot resolve link file '", &link.file, "'");
                        return fail_field(content_path, &text);
                    }
                    match find_target(all, link) {
                        None => {
                            let text = join4(
                                &head,
                                "linked dataset '",
                                &link.file,
                                "' not loaded",
                            );
                            fail_field(content_path, &text)
                        },
                        Some(t) => {
                            assert(entries_model(all@)[t as int] == all[t as int].model());
                            if is_declared(&all[t].dataset.data, b) {
                                Ok(())
                            } else {
                                let text = join6(
                                    &head,
                                    "field '",
                                    b,
                                    "' does not exist in '",
                                    &link.file,
                                    "'",
                                );
                                fail_field(content_path, &text)
                            }
                        },
                    }
                },
            }
        },
    }
}

// ---------------------------------------------------------------------------
// Fields of a dataset
// ---------------------------------------------------------------------------

/// The outcome of checking one field of a dataset, with the items that it draws from a link.
pub open spec fn dataset_field_check(
    ds: SyntheticDatasetModel,
    f: FieldModel,
    totals: Seq<ShareTotalModel>,
    all: Seq<DatasetEntryModel>,
) -> Result<Seq<Seq<char>>, Seq<PartModel>> {
    let path = ds.name + "."@ + f.name;
    if f.name.len() == 0 {
        checked(dataset_says(ds.name, "a field is missing a `name`"@), Seq::empty())
    } else {
        match field_check(path, f, totals) {
            Err(p) => Err(p),
            Ok(w) => checked(
                match f.content {
                    None => None,
                    Some(c) => match c.from {
                        None => None,
                        Some(s) => match link_position(ds.links, s, 0) {
                            None => None,
                            Some(l) => first_of(
                                project_problem(*c, ds.links[l], path + "[]"@, all),
                                content_problem(
                                    path + "[]"@,
                                    ds.links[l],
                                    c.item.fields,
                                    ds,
                                    all,
                                    c.item.fields.len() as int,
                                ),
                            ),
                        },
                    },
                },
                w,
            ),
        }
    }
}

/// The outcome of checking the first `n` fields of a dataset.
pub open spec fn dataset_fields_check(
    ds: SyntheticDatasetModel,
    totals: Seq<ShareTotalModel>,
    all: Seq<DatasetEntryModel>,
    n: int,
) -> Result<Seq<Seq<char>>, Seq<PartModel>>
    decreases n,
{
    if n <= 0 {
        Ok(Seq::empty())
    } else {
        followed_by(
            dataset_fields_check(ds, totals, all, n - 1),
            dataset_field_check(ds, ds.data[n - 1], totals, all),
        )
    }
}

proof fn lemma_dataset_fields_stay(
    ds: SyntheticDatasetModel,
    totals: Seq<ShareTotalModel>,
    all: Seq<DatasetEntryModel>,
    k: int,
    n: int,
)
    requires
        0 <= k <= n,
        dataset_fields_check(ds, totals, all, k) is Err,
    ensures
        dataset_fields_check(ds, totals, all, n) == dataset_fields_check(ds, totals, all, k),
    decreases n - k,
{
    if k < n {
        lemma_dataset_fields_stay(ds, totals, all, k, n - 1);
    }
}

fn check_dataset_field(
    dataset: &SyntheticDataset,
    field: &Field,
    totals: &Vec<ShareTotal>,
    all: &Vec<DatasetEntry>,
    warnings: &mut Vec<String>,
) -> (r: Result<(), Problem>)
    ensures
        reports(
            r,
            texts(old(warnings)@),
            texts(final(warnings)@),
            dataset_field_check(
                dataset.model(),
                field.model(),
                totals_model(totals@),
                entries_model(all@),
            ),
        ),
{
    if field.name.as_str().unicode_len() == 0 {
        return fail_dataset(&dataset.name, "a field is missing a `name`");
    }
    let path = join3(&dataset.name, ".", &field.name);
    validate_field(&path, field, totals, warnings)?;
    if let Some(content) = &field.content {
        proof {
            lemma_content_model(*field);
        }
        if let Some(s) = &content.from {
            if let Some(l) = find_link(&dataset.links, s) {
                let link = &dataset.links[l];
                assert(dataset.model().links == includes_model(dataset.links@));
                assert(includes_model(dataset.links@)[l as int] == link.model());
                let content_path = join2(&path, "[]");
                validate_project(content, link, &content_path, all)?;
                return validate_list_link_content(
                    &content_path,
                    link,
                    &content.item.fields,
                    dataset,
                    all,
                );
            }
        }
    }
    Ok(())
}

/// Checks the fields of a dataset.
pub fn check_fields(
    dataset: &SyntheticDataset,
    totals: &Vec<ShareTotal>,
    all: &Vec<DatasetEntry>,
    warnings: &mut Vec<String>,
) -> (r: Result<(), Problem>)
    ensures
        reports(
            r,
            texts(old(warnings)@),
            texts(final(warnings)@),
            dataset_fields_check(
                dataset.model(),
                totals_model(totals@),
                entries_model(all@),
                dataset.model().data.len() as int,
            ),
        ),
{
    let ghost dm = dataset.model();
    let ghost tm = totals_model(totals@);
    let ghost am = entries_model(all@);
    let ghost start = texts(warnings@);
    assert(dm.data == fields_model(dataset.data@));
    let mut i: usize = 0;
    assert(texts(warnings@) =~= start + dataset_fields_check(dm, tm, am, 0)->Ok_0);
    while i < dataset.data.len()
        invariant
            i <= dataset.data.len(),
            dm == dataset.model(),
            dm.data == fields_model(dataset.data@),
            tm == totals_model(totals@),
            am == entries_model(all@),
            start == texts(old(warnings)@),
            dataset_fields_check(dm, tm, am, i as int) is Ok,
            texts(warnings@) == start + dataset_fields_check(dm, tm, am, i as int)->Ok_0,
        decreases dataset.data.len() - i,
    {
        assert(dm.data[i as int] == dataset.data[i as int].model());
        if let Err(p) = check_dataset_field(dataset, &dataset.data[i], totals, all, warnings) {
            proof {
                lemma_dataset_fields_stay(dm, tm, am, i + 1, dm.data.len() as int);
            }
            return Err(p);
        }
        i += 1;
        assert(texts(warnings@) =~= start + dataset_fields_check(dm, tm, am, i as int)->Ok_0);
    }
    Ok(())
}

// ---------------------------------------------------------------------------
// References
// ---------------------------------------------------------------------------

/// The include or link that a reference names.
pub open spec fn referenced(ds: SyntheticDatasetModel, reference: Seq<char>) -> Option<
    IncludeModel,
> {
    if ds.include_spec is Some && ds.include_spec->0.reference == reference {
        ds.include_spec
    } else {
        match link_position(ds.links, reference, 0) {
            Some(i) => Some(ds.links[i]),
            None => None,
        }
    }
}

/// The problem of a field's reference.
pub open spec fn ref_problem(
    ds: SyntheticDatasetModel,
    field: Seq<char>,
    reference: Seq<char>,
    all: Seq<DatasetEntryModel>,
) -> Option<Seq<PartModel>> {
    let path = ds.name + "."@ + field;
    let head = "ref '"@ + reference + "' — "@;
    match ref_parts(reference) {
        None => field_says(
            path,
            "ref '"@ + reference + "' must be in the form 'include_ref.field_name'"@,
        ),
        Some(p) => match referenced(ds, p.0) {
            None => field_says(
                path,
                head + "no include or link with ref '"@ + p.0 + "' in this dataset"@,
            ),
            Some(inc) => if inc.resolved is None {
                field_says(path, head + "cannot resolve include file '"@ + inc.file + "'"@)
            } else {
                match target_of(all, inc) {
                    None => field_says(path, head + "included dataset not loaded"@),
                    Some(t) => if declares(all[t].dataset.data, p.1) {
                        None
                    } else {
                        field_says(
                            path,
                            head + "field '"@ + p.1 + "' does not exist in '"@ + inc.file + "'"@,
                        )
                    },
                }
            },
        },
    }
}

fn find_referenced<'a>(dataset: &'a SyntheticDataset, reference: &str) -> (r: Option<&'a Include>)
    ensures
        match r {
            Some(i) => referenced(dataset.model(), reference@) == Some(i.model()),
            None => referenced(dataset.model(), reference@) is None,
        },
{
    assert(dataset.model().links == includes_model(dataset.links@));
    if let Some(inc) = &dataset.include_spec {
        assert(dataset.model().include_spec == Some(inc.model()));
        if same_text(&inc.reference, reference) {
            return Some(inc);
        }
    }
    match find_link(&dataset.links, reference) {
        Some(i) => {
            assert(includes_model(dataset.links@)[i as int] == dataset.links[i as int].model());
            Some(&dataset.links[i])
        },
        None => None,
    }
}

/// Checks that a field's reference names an existing field of an include or link.
pub fn validate_ref_target(
    dataset: &SyntheticDataset,
    all: &Vec<DatasetEntry>,
    field_name: &str,
    ref_str: &str,
) -> (r: Result<(), Problem>)
    ensures
        problem_of(r) == ref_problem(
            dataset.model(),
            field_name@,
            ref_str@,
            entries_model(all@),
        ),
{
    let path = join3(&dataset.name, ".", field_name);
    let head = join3("ref '", ref_str, "' — ");
    match split_ref(ref_str) {
        None => {
            let text = join3(
                "ref '",
                ref_str,
                "' must be in the form 'include_ref.field_name'",
            );
            fail_field(&path, &text)
        },
        Some((a, b)) => match find_referenced(dataset, a) {
            None => {
                let text = join4(
                    &head,
                    "no include or link with ref '",
                    a,
                    "' in this dataset",
                );
                fail_field(&path, &text)
            },
            Some(inc) => {
                if inc.resolved.is_none() {
                    let text = join4(&head, "cannot resolve include file '", &inc.file, "'");
                    return fail_field(&path, &text);
                }
                match find_target(all, inc) {
                    None => {
                        let text = join2(&head, "included dataset not loaded");
                        fail_field(&path, &text)
                    },
                    Some(t) => {
                        assert(entries_model(all@)[t as int] == all[t as int].model());
                        if is_declared(&all[t].dataset.data, b) {
                            Ok(())
                        } else {
                            let text = join6(
                                &head,
                                "field '",
                                b,
                                "' does not exist in '",
                                &inc.file,
                                "'",
                            );
                            fail_field(&path, &text)
                        }
                    },
                }
            },
        },
    }
}

/// The first problem of the references of the first `n` fields.
pub open spec fn refs_problem(ds: SyntheticDatasetModel, all: Seq<DatasetEntryModel>, n: int) -> Option<
    Seq<PartModel>,
>
    decreases n,
{
    if n <= 0 {
        None
    } else {
        first_of(
            refs_problem(ds, all, n - 1),
            match ds.data[n - 1].type_ref() {
                Some(s) => ref_problem(ds, ds.data[n - 1].name, s, all),
                None => None,
            },
        )
    }
}

proof fn lemma_refs_stay(ds: SyntheticDatasetModel, all: Seq<DatasetEntryModel>, k: int, n: int)
    requires
        0 <= k <= n,
        refs_problem(ds, all, k) is Some,
    ensures
        refs_problem(ds, all, n) == refs_problem(ds, all, k),
    decreases n - k,
{
    if k < n {
        lemma_refs_stay(ds, all, k, n - 1);
    }
}

/// Checks the references of a dataset's fields.
pub fn validate_dataset_refs(dataset: &SyntheticDataset, all: &Vec<DatasetEntry>) -> (r: Result<
    (),
    Problem,
>)
    ensures
        problem_of(r) == refs_problem(
            dataset.model(),
            entries_model(all@),
            dataset.model().data.len() as int,
        ),
{
    let ghost dm = dataset.model();
    let ghost am = entries_model(all@);
    assert(dm.data == fields_model(dataset.data@));
    let mut i: usize = 0;
    while i < dataset.data.len()
        invariant
            i <= dataset.data.len(),
            dm == dataset.model(),
            am == entries_model(all@),
            dm.data == fields_model(dataset.data@),
            refs_problem(dm, am, i as int) is None,
        decreases dataset.data.len() - i,
    {
        assert(dm.data[i as int] == dataset.data[i as int].model());
        if let Some(s) = dataset.data[i].simple_ref() {
            if let Err(p) = validate_ref_target(dataset, all, &dataset.data[i].name, s) {
                proof {
                    lemma_refs_stay(dm, am, i + 1, dm.data.len() as int);
                }
                return Err(p);
            }
        }
        i += 1;
    }
    Ok(())
}

/// A reference names an existing field of a loaded dataset.
pub open spec fn resolves(
    ds: SyntheticDatasetModel,
    all: Seq<DatasetEntryModel>,
    reference: Seq<char>,
    column: Seq<char>,
) -> bool {
    match referenced(ds, reference) {
        Some(inc) => match target_of(all, inc) {
            Some(t) => declares(all[t].dataset.data, column),
            None => false,
        },
        None => false,
    }
}

/// In a dataset that passes, every reference names an existing field of a loaded dataset.
pub proof fn law_references_resolve(
    ds: SyntheticDatasetModel,
    all: Seq<DatasetEntryModel>,
    n: int,
    i: int,
)
    requires
        0 <= i < n,
        refs_problem(ds, all, n) is None,
        ds.data[i].type_ref() is Some,
    ensures
        match ref_parts(ds.data[i].type_ref()->0) {
            Some((reference, column)) => resolves(ds, all, reference, column),
            None => false,
        },
    decreases n,
{
    if i < n - 1 {
        law_references_resolve(ds, all, n - 1, i);
    }
}

// ---------------------------------------------------------------------------
// Bindings
// ---------------------------------------------------------------------------

/// The name of a reducer in a message.
pub open spec fn reducer_name(r: Reducer) -> Seq<char> {
    match r {
        Reducer::TakeOne => "TakeOne"@,
        Reducer::Sum => "Sum"@,
        Reducer::Max => "Max"@,
        Reducer::Min => "Min"@,
        Reducer::Collect => "Collect"@,
    }
}

/// A type in quotes, nothing between them where there is none.
pub open spec fn quoted_type(t: Option<FieldType>) -> Seq<char> {
    match t {
        Some(x) => "\""@ + x.label() + "\""@,
        None => "\"\""@,
    }
}

fn name_of_reducer(r: Reducer) -> (s: &'static str)
    ensures
        s@ == reducer_name(r),
{
    match r {
        Reducer::TakeOne => "TakeOne",
        Reducer::Sum => "Sum",
        Reducer::Max => "Max",
        Reducer::Min => "Min",
        Reducer::Collect => "Collect",
    }
}

fn quote_type(t: Option<FieldType>) -> (r: String)
    ensures
        r@ == quoted_type(t),
{
    match t {
        Some(x) => join3("\"", x.as_str(), "\""),
        None => "\"\"".to_owned(),
    }
}

/// The problem of the field that a binding writes to.
pub open spec fn bound_field_problem(
    path: Seq<char>,
    bind: Seq<char>,
    column: Seq<char>,
    link: IncludeModel,
    f: FieldModel,
    reducer: Reducer,
) -> Option<Seq<PartModel>> {
    let target = "target field '"@ + column + "' in '"@ + link.file;
    if reducer is Collect && f.field_type != Some(FieldType::List) {
        field_says(
            path,
            "collect `bind: "@ + bind + "` — "@ + target
                + "' must be `type: list` (collect accumulates values into a list; got type: "@
                + quoted_type(f.field_type) + ")"@,
        )
    } else if reducer is Sum && f.field_type != Some(FieldType::Number) {
        field_says(
            path,
            "sum `bind: "@ + bind + "` — "@ + target
                + "' must be `type: number` (sum requires a numeric target; got type: "@
                + quoted_type(f.field_type) + ")"@,
        )
    } else if f.default is None {
        field_says(
            path,
            reducer_name(reducer) + " `bind: "@ + bind + "` — "@ + target
                + "' must declare `default:` (the default is used when no atoms map to that linked row)"@,
        )
    } else {
        None
    }
}

/// The problem of a binding.
pub open spec fn binding_problem(
    ds: SyntheticDatasetModel,
    all: Seq<DatasetEntryModel>,
    path: Seq<char>,
    b: RefBindingModel,
) -> Option<Seq<PartModel>> {
    match b.bind {
        None => field_says(path, "collect binding has no `bind` target"@),
        Some(bind) => {
            let head = "collect `bind: "@ + bind + "` — "@;
            match ref_parts(bind) {
                None => field_says(
                    path,
                    "collect `bind: "@ + bind
                        + "` must be in the form 'linked_ref.field_name'"@,
                ),
                Some(p) => match link_position(ds.links, p.0, 0) {
                    None => field_says(
                        path,
                        head + "no link with ref '"@ + p.0 + "' in this dataset"@,
                    ),
                    Some(l) => if ds.links[l].resolved is None {
                        field_says(
                            path,
                            head + "cannot resolve linked file '"@ + ds.links[l].file + "'"@,
                        )
                    } else {
                        match target_of(all, ds.links[l]) {
                            None => field_says(path, head + "linked dataset not loaded"@),
                            Some(t) => match field_position(all[t].dataset.data, p.1, 0) {
                                None => field_says(
                                    path,
                                    head + "field '"@ + p.1 + "' not found in '"@
                                        + ds.links[l].file + "'"@,
                                ),
                                Some(i) => bound_field_problem(
                                    path,
                                    bind,
                                    p.1,
                                    ds.links[l],
                                    all[t].dataset.data[i],
                                    match b.reducer {
                                        Some(r) => r,
                                        None => Reducer::Collect,
                                    },
                                ),
                            },
                        }
                    },
                },
            }
        },
    }
}

fn check_bound_field(
    path: &str,
    bind: &str,
    column: &str,
    link: &Include,
    field: &Field,
    reducer: Reducer,
) -> (r: Result<(), Problem>)
    ensures
        problem_of(r) == bound_field_problem(
            path@,
            bind@,
            column@,
            link.model(),
            field.model(),
            reducer,
        ),
{
    let target = join4("target field '", column, "' in '", &link.file);
    let quoted = quote_type(field.field_type);
    if matches!(reducer, Reducer::Collect) && !matches!(field.field_type, Some(FieldType::List)) {
        let text = join7(
            "collect `bind: ",
            bind,
            "` — ",
            &target,
            "' must be `type: list` (collect accumulates values into a list; got type: ",
            &quoted,
            ")",
        );
        return fail_field(path, &text);
    }
    if matches!(reducer, Reducer::Sum) && !matches!(field.field_type, Some(FieldType::Number)) {
        let text = join7(
            "sum `bind: ",
            bind,
            "` — ",
            &target,
            "' must be `type: number` (sum requires a numeric target; got type: ",
            &quoted,
            ")",
        );
        return fail_field(path, &text);
    }
    if field.default.is_none() {
        let text = join6(
            name_of_reducer(reducer),
            " `bind: ",
            bind,
            "` — ",
            &target,
            "' must declare `default:` (the default is used when no atoms map to that linked row)",
        );
        return fail_field(path, &text);
    }
    Ok(())
}

/// Checks one binding of a field at `field_path`.
pub fn validate_single_collect_bind(
    dataset: &SyntheticDataset,
    all: &Vec<DatasetEntry>,
    field_path: &str,
    binding: &RefBinding,
) -> (r: Result<(), Problem>)
    ensures
        problem_of(r) == binding_problem(
            dataset.model(),
            entries_model(all@),
            field_path@,
            binding.model(),
        ),
{
    assert(dataset.model().links == includes_model(dataset.links@));
    match &binding.bind {
        None => fail_field(field_path, "collect binding has no `bind` target"),
        Some(bind) => {
            assert(binding.model().bind == Some(bind@));
            let head = join3("collect `bind: ", bind, "` — ");
            match split_ref(bind) {
                None => {
                    let text = join3(
                        "collect `bind: ",
                        bind,
                        "` must be in the form 'linked_ref.field_name'",
                    );
                    fail_field(field_path, &text)
                },
                Some((a, b)) => match find_link(&dataset.links, a) {
                    None => {
                        let text = join4(&head, "no link with ref '", a, "' in this dataset");
                        fail_field(field_path, &text)
                    },
                    Some(l) => {
                        let link = &dataset.links[l];
                        assert(includes_model(dataset.links@)[l as int] == link.model());
                        if link.resolved.is_none() {
                            let text = join4(
                                &head,
                                "cannot resolve linked file '",
                                &link.file,
                                "'",
                            );
                            return fail_field(field_path, &text);
                        }
                        match find_target(all, link) {
                            None => {
                                let text = join2(&head, "linked dataset not loaded");
                                fail_field(field_path, &text)
                            },
                            Some(t) => {
                                assert(entries_model(all@)[t as int] == all[t as int].model());
                                let data = &all[t].dataset.data;
                                match find_field(data, b) {
                                    None => {
                                        let text = join6(
                                            &head,
                                            "field '",
                                            b,
                                            "' not found in '",
                                            &link.file,
                                            "'",
                                        );
                                        fail_field(field_path, &text)
                                    },
                                    Some(i) => {
                                        assert(fields_model(data@)[i as int]
                                            == data[i as int].model());
                                        let reducer = match binding.reducer {
                                            Some(r) => r,
                                            None => Reducer::Collect,
                                        };
                                        check_bound_field(
                                            field_path,
                                            bind,
                                            b,
                                            link,
                                            &data[i],
                                            reducer,
                                        )
                                    },
                                }
                            },
                        }
                    },
                },
            }
        },
    }
}

/// The first problem of the first `n` bindings of a field.
pub open spec fn bindings_problem(
    ds: SyntheticDatasetModel,
    all: Seq<DatasetEntryModel>,
    path: Seq<char>,
    bindings: Seq<RefBindingModel>,
    n: int,
) -> Option<Seq<PartModel>>
    decreases n,
{
    if n <= 0 {
        None
    } else {
        first_of(
            bindings_problem(ds, all, path, bindings, n - 1),
            binding_problem(ds, all, path, bindings[n - 1]),
        )
    }
}

proof fn lemma_bindings_stay(
    ds: SyntheticDatasetModel,
    all: Seq<DatasetEntryModel>,
    path: Seq<char>,
    bindings: Seq<RefBindingModel>,
    k: int,
    n: int,
)
    requires
        0 <= k <= n,
        bindings_problem(ds, all, path, bindings, k) is Some,
    ensures
        bindings_problem(ds, all, path, bindings, n) == bindings_problem(
            ds,
            all,
            path,
            bindings,
            k,
        ),
    decreases n - k,
{
    if k < n {
        lemma_bindings_stay(ds, all, path, bindings, k, n - 1);
    }
}

fn check_bindings(
    dataset: &SyntheticDataset,
    all: &Vec<DatasetEntry>,
    path: &str,
    field: &Field,
) -> (r: Result<(), Problem>)
    ensures
        problem_of(r) == bindings_problem(
            dataset.model(),
            entries_model(all@),
            path@,
            field.model().collects(),
            field.model().collects().len() as int,
        ),
{
    let bindings = field.collect_bindings();
    let ghost dm = dataset.model();
    let ghost am = entries_model(all@);
    let ghost bm = binding_refs_model(bindings@);
    assert(bm == field.model().collects());
    let mut i: usize = 0;
    while i < bindings.len()
        invariant
            i <= bindings.len(),
            dm == dataset.model(),
            am == entries_model(all@),
            bm == binding_refs_model(bindings@),
            bm == field.model().collects(),
            bindings_problem(dm, am, path@, bm, i as int) is None,
        decreases bindings.len() - i,
    {
        assert(bm[i as int] == bindings[i as int].model());
        if let Err(p) = validate_single_collect_bind(dataset, all, path, bindings[i]) {
            proof {
                lemma_bindings_stay(dm, am, path@, bm, i + 1, bm.len() as int);
            }
            return Err(p);
        }
        i += 1;
    }
    Ok(())
}

/// The first problem of the bindings of the first `n` fields of a link's items.
pub open spec fn item_bindings_problem(
    ds: SyntheticDatasetModel,
    all: Seq<DatasetEntryModel>,
    path: Seq<char>,
    fields: Seq<FieldModel>,
    n: int,
) -> Option<Seq<PartModel>>
    decreases n,
{
    if n <= 0 {
        None
    } else {
        first_of(
            item_bindings_problem(ds, all, path, fields, n - 1),
            bindings_problem(
                ds,
                all,
                path + "[]."@ + fields[n - 1].name,
                fields[n - 1].collects(),
                fields[n - 1].collects().len() as int,
            ),
        )
    }
}

proof fn lemma_item_bindings_stay(
    ds: SyntheticDatasetModel,
    all: Seq<DatasetEntryModel>,
    path: Seq<char>,
    fields: Seq<FieldModel>,
    k: int,
    n: int,
)
    requires
        0 <= k <= n,
        item_bindings_problem(ds, all, path, fields, k) is Some,
    ensures
        item_bindings_problem(ds, all, path, fields, n) == item_bindings_problem(
            ds,
            all,
            path,
            fields,
            k,
        ),
    decreases n - k,
{
    if k < n {
        lemma_item_bindings_stay(ds, all, path, fields, k, n - 1);
    }
}

fn check_item_bindings(
    dataset: &SyntheticDataset,
    all: &Vec<DatasetEntry>,
    path: &str,
    fields: &Vec<Field>,
) -> (r: Result<(), Problem>)
    ensures
        problem_of(r) == item_bindings_problem(
            dataset.model(),
            entries_model(all@),
            path@,
            fields_model(fields@),
            fields@.len() as int,
        ),
{
    let ghost dm = dataset.model();
    let ghost am = entries_model(all@);
    let ghost fm = fields_model(fields@);
    let mut i: usize = 0;
    while i < fields.len()
        invariant
            i <= fields.len(),
            dm == dataset.model(),
            am == entries_model(all@),
            fm == fields_model(fields@),
            item_bindings_problem(dm, am, path@, fm, i as int) is None,
        decreases fields.len() - i,
    {
        assert(fm[i as int] == fields[i as int].model());
        let sub = join3(path, "[].", &fields[i].name);
        if let Err(p) = check_bindings(dataset, all, &sub, &fields[i]) {
            proof {
                lemma_item_bindings_stay(dm, am, path@, fm, i + 1, fm.len() as int);
            }
            return Err(p);
        }
        i += 1;
    }
    Ok(())
}

/// The problem of the bindings of one field, its own and those of the items it draws from a link.
pub open spec fn field_bindings_problem(
    ds: SyntheticDatasetModel,
    all: Seq<DatasetEntryModel>,
    f: FieldModel,
) -> Option<Seq<PartModel>> {
    let path = ds.name + "."@ + f.name;
    first_of(
        bindings_problem(ds, all, path, f.collects(), f.collects().len() as int),
        match f.content {
            None => None,
            Some(c) => if c.from is None {
                None
            } else {
                item_bindings_problem(
                    ds,
                    all,
                    path,
                    c.item.fields,
                    c.item.fields.len() as int,
                )
            },
        },
    )
}

fn check_field_bindings(dataset: &SyntheticDataset, all: &Vec<DatasetEntry>, field: &Field) -> (r:
    Result<(), Problem>)
    ensures
        problem_of(r) == field_bindings_problem(
            dataset.model(),
            entries_model(all@),
            field.model(),
        ),
{
    let path = join3(&dataset.name, ".", &field.name);
    check_bindings(dataset, all, &path, field)?;
    if let Some(c) = &field.content {
        proof {
            lemma_content_model(*field);
        }
        if c.from.is_some() {
            return check_item_bindings(dataset, all, &path, &c.item.fields);
        }
    }
    Ok(())
}

/// The first problem of the bindings of the first `n` fields.
pub open spec fn all_bindings_problem(
    ds: SyntheticDatasetModel,
    all: Seq<DatasetEntryModel>,
    n: int,
) -> Option<Seq<PartModel>>
    decreases n,
{
    if n <= 0 {
        None
    } else {
        first_of(
            all_bindings_problem(ds, all, n - 1),
            field_bindings_problem(ds, all, ds.data[n - 1]),
        )
    }
}

proof fn lemma_all_bindings_stay(
    ds: SyntheticDatasetModel,
    all: Seq<DatasetEntryModel>,
    k: int,
    n: int,
)
    requires
        0 <= k <= n,
        all_bindings_problem(ds, all, k) is Some,
    ensures
        all_bindings_problem(ds, all, n) == all_bindings_problem(ds, all, k),
    decreases n - k,
{
    if k < n {
        lemma_all_bindings_stay(ds, all, k, n - 1);
    }
}

/// Checks the bindings of a dataset's fields.
pub fn validate_collect_bindings(dataset: &SyntheticDataset, all: &Vec<DatasetEntry>) -> (r: Result<
    (),
    Problem,
>)
    ensures
        problem_of(r) == all_bindings_problem(
            dataset.model(),
            entries_model(all@),
            dataset.model().data.len() as int,
        ),
{
    let ghost dm = dataset.model();
    let ghost am = entries_model(all@);
    assert(dm.data == fields_model(dataset.data@));
    let mut i: usize = 0;
    while i < dataset.data.len()
        invariant
            i <= dataset.data.len(),
            dm == dataset.model(),
            am == entries_model(all@),
            dm.data == fields_model(dataset.data@),
            all_bindings_problem(dm, am, i as int) is None,
        decreases dataset.data.len() - i,
    {
        assert(dm.data[i as int] == dataset.data[i as int].model());
        if let Err(p) = check_field_bindings(dataset, all, &dataset.data[i]) {
            proof {
                lemma_all_bindings_stay(dm, am, i + 1, dm.data.len() as int);
            }
            return Err(p);
        }
        i += 1;
    }
    Ok(())
}

} // verus!
