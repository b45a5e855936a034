//! Rewriting of datasets before planning: copying included fields, resolving references to their
//! base fields, and stamping locales.
use vstd::prelude::*;

use crate::constraints::{constraints_of, merged, FieldConstraints, FieldConstraintsModel, Merge};
use crate::message::{join3, join5, join7, problem, said, PartModel, Problem};
use crate::models::{
    clone_case_deltas, clone_fields, clone_field_variants, clone_opt_refs_spec, default_field_model,
    entries_model, field_position, fields_model, find_dataset, find_field, find_link, find_target,
    lemma_content_model, link_position, list_source, ref_parts, replace_data, split_ref, target_of,
    with_data, DatasetEntry, DatasetEntryModel, Field, FieldModel, Include, IncludeModel,
    ListContent, ListContentModel, Locale, Range, RefsSpec, RefsSpecModel, SyntheticDataset,
    SyntheticDatasetModel,
};
use crate::text::{holds_text, same_text, texts};

verus! {

/// Most steps that a chain of references may take.
pub const MAX_REF_CHAIN_DEPTH: usize = 32;

// ---------------------------------------------------------------------------
// Locales
// ---------------------------------------------------------------------------

/// A field with the locale `g` wherever the generator depends on a locale and none is set, at any
/// depth.
pub open spec fn stamped(f: FieldModel, g: Locale) -> FieldModel
    decreases f,
{
    FieldModel {
        locale: if f.locale is None && f.generator is Some && f.generator->0.is_localised() {
            Some(g)
        } else {
            f.locale
        },
        fields: stamped_all(f.fields, g),
        content: match f.content {
            Some(c) => Some(
                Box::new(ListContentModel { item: stamped(c.item, g), ..*c }),
            ),
            None => None,
        },
        ..f
    }
}

/// Fields with the locale `g` stamped on each.
pub open spec fn stamped_all(s: Seq<FieldModel>, g: Locale) -> Seq<FieldModel>
    decreases s,
{
    Seq::new(
        s.len(),
        |i: int|
            if 0 <= i < s.len() {
                stamped(s[i], g)
            } else {
                arbitrary()
            },
    )
}

fn stamp(field: &Field, global: Locale) -> (r: Field)
    ensures
        r.model() == stamped(field.model(), global),
    decreases field,
{
    let locale = match (field.locale, field.generator) {
        (None, Some(g)) => if g.supports_locale() {
            Some(global)
        } else {
            None
        },
        (l, _) => l,
    };
    let fields = stamp_all(&field.fields, global);
    let content: Option<Box<ListContent>> = match &field.content {
        Some(c) => {
            proof {
                lemma_content_model(*field);
            }
            let item = stamp(&c.item, global);
            Some(
                Box::new(
                    ListContent {
                        from: crate::text::clone_opt_text(&c.from),
                        project: crate::text::clone_opt_text(&c.project),
                        item,
                    },
                ),
            )
        },
        None => None,
    };
    let mut r = field.clone();
    r.locale = locale;
    r.fields = fields;
    r.content = content;
    proof {
        if field.content is Some {
            lemma_content_model(r);
            assert(r.content->0.model() == (ListContentModel {
                item: stamped(field.content->0.item.model(), global),
                ..field.content->0.model()
            }));
        }
        let want = stamped(field.model(), global);
        assert(r.model().locale == want.locale);
        assert(r.model().fields == want.fields);
        assert(r.model().content == want.content);
    }
    r
}

fn stamp_all(fields: &Vec<Field>, global: Locale) -> (r: Vec<Field>)
    ensures
        fields_model(r@) == stamped_all(fields_model(fields@), global),
    decreases fields,
{
    let ghost fm = fields_model(fields@);
    let mut r: Vec<Field> = Vec::new();
    let mut i: usize = 0;
    while i < fields.len()
        invariant
            i <= fields.len(),
            fm == fields_model(fields@),
            r.len() == i,
            forall|j: int|
                0 <= j < i ==> (#[trigger] r[j]).model() == stamped(fields[j].model(), global),
        decreases fields.len() - i,
    {
        let f = stamp(&fields[i], global);
        r.push(f);
        i += 1;
    }
    proof {
        assert forall|j: int| 0 <= j < fm.len() implies #[trigger] fields_model(r@)[j]
            == stamped_all(fm, global)[j] by {
            assert(fm[j] == fields[j].model());
        }
    }
    assert(fields_model(r@) =~= stamped_all(fm, global));
    r
}

/// Stamps the locale on a field and everything inside it.
pub fn stamp_locale(field: &mut Field, global: &Locale)
    ensures
        final(field).model() == stamped(old(field).model(), *global),
{
    let f = stamp(&*field, *global);
    *field = f;
}

/// Stamps the locale on every field of a list.
pub fn apply_locale_to_schema(fields: &mut Vec<Field>, locale: &Locale)
    ensures
        fields_model(final(fields)@) == stamped_all(fields_model(old(fields)@), *locale),
{
    let f = stamp_all(&*fields, *locale);
    *fields = f;
}

/// A dataset with its own locale stamped on its fields.
pub open spec fn localised(e: DatasetEntryModel) -> DatasetEntryModel {
    match e.dataset.locale {
        Some(g) => with_data(e, stamped_all(e.dataset.data, g)),
        None => e,
    }
}

/// Stamps every dataset's locale on its fields; a locale set on a field stays.
pub fn apply_global_locales(datasets: &Vec<DatasetEntry>) -> (r: Vec<DatasetEntry>)
    ensures
        entries_model(r@) == Seq::new(datasets@.len(), |i: int| localised(datasets@[i].model())),
{
    let mut data: Vec<Vec<Field>> = Vec::new();
    let mut i: usize = 0;
    while i < datasets.len()
        invariant
            i <= datasets.len(),
            data.len() == i,
            forall|j: int|
                0 <= j < i ==> with_data(datasets[j].model(), fields_model(#[trigger] data[j]@))
                    == localised(datasets[j].model()),
        decreases datasets.len() - i,
    {
        let ds = &datasets[i].dataset;
        let fields = match ds.locale {
            Some(g) => stamp_all(&ds.data, g),
            None => clone_fields(&ds.data),
        };
        assert(with_data(datasets[i as int].model(), fields_model(fields@)) == localised(
            datasets[i as int].model(),
        ));
        data.push(fields);
        i += 1;
    }
    let r = replace_data(datasets, &data);
    assert(entries_model(r@) =~= Seq::new(
        datasets@.len(),
        |i: int| localised(datasets@[i].model()),
    )) by {
        assert forall|i: int| 0 <= i < datasets.len() implies #[trigger] entries_model(r@)[i]
            == localised(datasets@[i].model()) by {
            assert(with_data(datasets[i].model(), fields_model(data[i]@)) == localised(
                datasets[i].model(),
            ));
        }
    }
    r
}

/// A locale that a field sets itself is never replaced.
pub proof fn law_own_locale_wins(f: FieldModel, g: Locale)
    ensures
        f.locale is Some ==> stamped(f, g).locale == f.locale,
{
}

/// Stamping a second time changes nothing, whatever the second locale.
pub proof fn law_stamping_is_final(f: FieldModel, g: Locale, h: Locale)
    ensures
        stamped(stamped(f, g), h) == stamped(f, g),
    decreases f,
{
    let once = stamped(f, g);
    assert(once.fields == stamped_all(f.fields, g));
    assert(once.fields.len() == f.fields.len());
    assert(stamped_all(once.fields, h) =~= once.fields) by {
        assert forall|i: int| 0 <= i < f.fields.len() implies #[trigger] stamped_all(
            once.fields,
            h,
        )[i] == once.fields[i] by {
            assert(once.fields[i] == stamped(f.fields[i], g));
            assert(stamped_all(once.fields, h)[i] == stamped(once.fields[i], h));
            law_stamping_is_final(f.fields[i], g, h);
        }
    }
    if let Some(c) = f.content {
        law_stamping_is_final(c.item, g, h);
        assert(once.content->0.item == stamped(c.item, g));
    }
    assert(stamped(once, h).content == once.content);
}

// ---------------------------------------------------------------------------
// Included fields
// ---------------------------------------------------------------------------

/// A field that refers to the field of the same name in another dataset.
pub open spec fn ref_field(name: Seq<char>, reference: Seq<char>) -> FieldModel {
    FieldModel {
        name,
        refs: Some(RefsSpecModel::Single(reference + "."@ + name)),
        ..default_field_model()
    }
}

fn make_ref_field(name: &str, ref_prefix: &str) -> (r: Field)
    ensures
        r.model() == ref_field(name@, ref_prefix@),
{
    let mut r = Field::default();
    r.name = name.to_owned();
    r.refs = Some(RefsSpec::Single(join3(ref_prefix, ".", name)));
    assert(r.model() == ref_field(name@, ref_prefix@));
    r
}

/// What a list of field patterns is expanded against.
pub struct Expansion {
    pub exclude: Seq<Seq<char>>,
    pub target: Seq<FieldModel>,
    pub reference: Seq<char>,
    pub existing: Seq<FieldModel>,
}

impl Expansion {
    /// `name` is not excluded and there is no field of that name yet.
    pub open spec fn is_new(self, out: Seq<FieldModel>, name: Seq<char>) -> bool {
        &&& !self.exclude.contains(name)
        &&& field_position(self.existing, name, 0) is None
        &&& field_position(out, name, 0) is None
    }

    /// The copied fields after `*` has looked at the first `n` target fields: every new one that
    /// is not imported.
    pub open spec fn star(self, out: Seq<FieldModel>, n: int) -> Seq<FieldModel>
        decreases n,
    {
        if n <= 0 {
            out
        } else {
            let before = self.star(out, n - 1);
            let t = self.target[n - 1];
            if !t.imported_taint && self.is_new(before, t.name) {
                before.push(ref_field(t.name, self.reference))
            } else {
                before
            }
        }
    }

    /// The copied fields after the first `n` patterns.
    pub open spec fn copied(self, patterns: Seq<Seq<char>>, n: int) -> Seq<FieldModel>
        decreases n,
    {
        if n <= 0 {
            Seq::empty()
        } else {
            let before = self.copied(patterns, n - 1);
            let p = patterns[n - 1];
            if p == "*"@ {
                self.star(before, self.target.len() as int)
            } else if self.is_new(before, p) && field_position(self.target, p, 0) is Some {
                before.push(ref_field(p, self.reference))
            } else {
                before
            }
        }
    }
}

/// The names that an include leaves out.
pub open spec fn excluded(inc: IncludeModel) -> Seq<Seq<char>> {
    match inc.exclude {
        Some(e) => e,
        None => Seq::empty(),
    }
}

/// The fields that an include copies from `target` next to the `existing` ones.
pub open spec fn copied_fields(
    inc: IncludeModel,
    target: Seq<FieldModel>,
    existing: Seq<FieldModel>,
) -> Seq<FieldModel> {
    Expansion { exclude: excluded(inc), target, reference: inc.reference, existing }.copied(
        inc.fields,
        inc.fields.len() as int,
    )
}

fn is_new_name(inc: &Include, existing: &Vec<Field>, out: &Vec<Field>, name: &str) -> (r: bool)
    ensures
        r == (!excluded(inc.model()).contains(name@) && field_position(
            fields_model(existing@),
            name@,
            0,
        ) is None && field_position(fields_model(out@), name@, 0) is None),
{
    let skipped = match &inc.exclude {
        Some(e) => holds_text(e, name),
        None => false,
    };
    !skipped && find_field(existing, name).is_none() && find_field(out, name).is_none()
}

fn expand_field_patterns(inc: &Include, target: &Vec<Field>, existing: &Vec<Field>) -> (r: Vec<
    Field,
>)
    ensures
        fields_model(r@) == copied_fields(
            inc.model(),
            fields_model(target@),
            fields_model(existing@),
        ),
{
    let ghost x = Expansion {
        exclude: excluded(inc.model()),
        target: fields_model(target@),
        reference: inc.reference@,
        existing: fields_model(existing@),
    };
    let ghost pm = texts(inc.fields@);
    let mut out: Vec<Field> = Vec::new();
    let mut p: usize = 0;
    assert(fields_model(out@) =~= Seq::empty());
    while p < inc.fields.len()
        invariant
            p <= inc.fields.len(),
            x == (Expansion {
                exclude: excluded(inc.model()),
                target: fields_model(target@),
                reference: inc.reference@,
                existing: fields_model(existing@),
            }),
            pm == texts(inc.fields@),
            fields_model(out@) == x.copied(pm, p as int),
        decreases inc.fields.len() - p,
    {
        let pattern = &inc.fields[p];
        assert(pm[p as int] == pattern@);
        if same_text(pattern, "*") {
            let ghost start = fields_model(out@);
            let mut t: usize = 0;
            while t < target.len()
                invariant
                    t <= target.len(),
                    x == (Expansion {
                        exclude: excluded(inc.model()),
                        target: fields_model(target@),
                        reference: inc.reference@,
                        existing: fields_model(existing@),
                    }),
                    fields_model(out@) == x.star(start, t as int),
                decreases target.len() - t,
            {
                let f = &target[t];
                assert(x.target[t as int] == f.model());
                if !f.imported_taint && is_new_name(inc, existing, &out, &f.name) {
                    let ghost prior = out@;
                    let made = make_ref_field(&f.name, &inc.reference);
                    out.push(made);
                    assert(fields_model(out@) =~= fields_model(prior).push(made.model()));
                }
                t += 1;
            }
        } else if is_new_name(inc, existing, &out, pattern) && find_field(target, pattern).is_some() {
            let ghost prior = out@;
            let made = make_ref_field(pattern, &inc.reference);
            out.push(made);
            assert(fields_model(out@) =~= fields_model(prior).push(made.model()));
        }
        p += 1;
    }
    out
}

/// The fields of a dataset that a link resolves to.
pub open spec fn target_fields(all: Seq<DatasetEntryModel>, inc: IncludeModel) -> Option<
    Seq<FieldModel>,
> {
    match target_of(all, inc) {
        Some(t) => Some(all[t].dataset.data),
        None => None,
    }
}

/// The item fields of a list that draws from `link`: a projection without fields becomes one
/// reference, and copied fields stand before the declared ones.
pub open spec fn expanded_items(
    all: Seq<DatasetEntryModel>,
    link: IncludeModel,
    c: ListContentModel,
) -> Seq<FieldModel> {
    match c.project {
        Some(p) => match ref_parts(p) {
            Some((_, column)) => if c.item.fields.len() == 0 {
                seq![ref_field(column, link.reference)]
            } else {
                c.item.fields
            },
            None => c.item.fields,
        },
        None => if link.fields.len() == 0 {
            c.item.fields
        } else {
            match target_fields(all, link) {
                Some(t) => copied_fields(link, t, c.item.fields) + c.item.fields,
                None => c.item.fields,
            }
        },
    }
}

/// A field with other item fields.
pub open spec fn with_items(f: FieldModel, items: Seq<FieldModel>) -> FieldModel {
    match f.content {
        Some(c) => FieldModel {
            content: Some(
                Box::new(
                    ListContentModel {
                        item: FieldModel { fields: items, ..c.item },
                        ..*c
                    },
                ),
            ),
            ..f
        },
        None => f,
    }
}

/// A field after its link has been expanded, where it draws from that link.
pub open spec fn expanded_by_link(
    all: Seq<DatasetEntryModel>,
    link: IncludeModel,
    f: FieldModel,
) -> FieldModel {
    if list_source(f) == Some(link.reference) {
        with_items(f, expanded_items(all, link, *f.content->0))
    } else {
        f
    }
}

/// The fields after the first `n` links have been expanded.
pub open spec fn expanded_by_links(
    all: Seq<DatasetEntryModel>,
    links: Seq<IncludeModel>,
    fields: Seq<FieldModel>,
    n: int,
) -> Seq<FieldModel>
    decreases n,
{
    if n <= 0 {
        fields
    } else {
        let before = expanded_by_links(all, links, fields, n - 1);
        Seq::new(before.len(), |i: int| expanded_by_link(all, links[n - 1], before[i]))
    }
}

/// The fields of a dataset after copying what its parent and its links offer.
pub open spec fn expanded_data(all: Seq<DatasetEntryModel>, ds: SyntheticDatasetModel) -> Seq<
    FieldModel,
> {
    let own = match ds.include_spec {
        Some(inc) => if inc.fields.len() > 0 {
            match target_fields(all, inc) {
                Some(t) => copied_fields(inc, t, ds.data) + ds.data,
                None => ds.data,
            }
        } else {
            ds.data
        },
        None => ds.data,
    };
    expanded_by_links(all, ds.links, own, ds.links.len() as int)
}

fn replace_items(field: &Field, items: Vec<Field>) -> (r: Field)
    requires
        field.content is Some,
    ensures
        r.model() == with_items(field.model(), fields_model(items@)),
{
    let mut r = field.clone();
    if let Some(c) = &field.content {
        let mut item = c.item.clone();
        item.fields = items;
        let content = ListContent {
            from: crate::text::clone_opt_text(&c.from),
            project: crate::text::clone_opt_text(&c.project),
            item,
        };
        proof {
            lemma_content_model(*field);
            assert(content.item.model() == (FieldModel {
                fields: fields_model(items@),
                ..c.item.model()
            }));
            assert(content.model() == (ListContentModel {
                item: content.item.model(),
                ..c.model()
            }));
        }
        r.content = Some(Box::new(content));
        proof {
            lemma_content_model(r);
            assert(r.model().content == with_items(field.model(), fields_model(items@)).content);
        }
    }
    r
}

fn expand_link_field(all: &Vec<DatasetEntry>, link: &Include, field: &Field) -> (r: Field)
    ensures
        r.model() == expanded_by_link(entries_model(all@), link.model(), field.model()),
{
    let ghost am = entries_model(all@);
    let c = match &field.content {
        Some(c) => c,
        None => {
            return field.clone();
        },
    };
    proof {
        lemma_content_model(*field);
    }
    let drawn = match &c.from {
        Some(from) => same_text(from, &link.reference),
        None => false,
    };
    if !drawn {
        return field.clone();
    }
    assert(list_source(field.model()) == Some(link.reference@));
    let ghost cm = c.model();
    let items: Vec<Field> = match &c.project {
        Some(p) => {
            if c.item.fields.len() == 0 {
                match split_ref(p) {
                    Some((_, column)) => {
                        let mut v: Vec<Field> = Vec::new();
                        let made = make_ref_field(column, &link.reference);
                        v.push(made);
                        assert(fields_model(v@) =~= seq![made.model()]);
                        v
                    },
                    None => clone_fields(&c.item.fields),
                }
            } else {
                clone_fields(&c.item.fields)
            }
        },
        None => {
            if link.fields.len() == 0 {
                clone_fields(&c.item.fields)
            } else {
                match find_target(all, link) {
                    Some(t) => {
                        assert(am[t as int] == all[t as int].model());
                        let mut v = expand_field_patterns(
                            link,
                            &all[t].dataset.data,
                            &c.item.fields,
                        );
                        let mut rest = clone_fields(&c.item.fields);
                        let ghost a = v@;
                        let ghost b = rest@;
                        v.append(&mut rest);
                        assert(fields_model(v@) =~= fields_model(a) + fields_model(b));
                        v
                    },
                    None => clone_fields(&c.item.fields),
                }
            }
        },
    };
    assert(fields_model(items@) == expanded_items(am, link.model(), cm));
    replace_items(field, items)
}

fn expand_dataset(all: &Vec<DatasetEntry>, at: usize) -> (r: Vec<Field>)
    requires
        at < all.len(),
    ensures
        fields_model(r@) == expanded_data(entries_model(all@), all[at as int].dataset.model()),
{
    let ghost am = entries_model(all@);
    let ds = &all[at].dataset;
    let ghost dm = ds.model();
    let mut data: Vec<Field> = clone_fields(&ds.data);
    if let Some(inc) = &ds.include_spec {
        if inc.fields.len() > 0 {
            if let Some(t) = find_target(all, inc) {
                assert(am[t as int] == all[t as int].model());
                let mut v = expand_field_patterns(inc, &all[t].dataset.data, &ds.data);
                let ghost a = v@;
                let ghost b = data@;
                v.append(&mut data);
                assert(fields_model(v@) =~= fields_model(a) + fields_model(b));
                data = v;
            }
        }
    }
    let ghost own = fields_model(data@);
    let mut l: usize = 0;
    while l < ds.links.len()
        invariant
            l <= ds.links.len(),
            am == entries_model(all@),
            dm == ds.model(),
            fields_model(data@) == expanded_by_links(am, dm.links, own, l as int),
        decreases ds.links.len() - l,
    {
        assert(dm.links[l as int] == ds.links[l as int].model());
        let mut next: Vec<Field> = Vec::new();
        let mut i: usize = 0;
        while i < data.len()
            invariant
                i <= data.len(),
                l < ds.links.len(),
                am == entries_model(all@),
                next.len() == i,
                forall|j: int|
                    0 <= j < i ==> (#[trigger] next[j]).model() == expanded_by_link(
                        am,
                        ds.links[l as int].model(),
                        data[j].model(),
                    ),
            decreases data.len() - i,
        {
            let f = expand_link_field(all, &ds.links[l], &data[i]);
            next.push(f);
            i += 1;
        }
        assert(fields_model(next@) =~= expanded_by_links(am, dm.links, own, l + 1)) by {
            let before = fields_model(data@);
            assert forall|j: int| 0 <= j < before.len() implies #[trigger] fields_model(next@)[j]
                == expanded_by_link(am, dm.links[l as int], before[j]) by {
                assert(before[j] == data[j].model());
            }
        }
        data = next;
        l += 1;
    }
    data
}

/// Copies into every dataset the fields that its include and its links name.
pub fn expand_include_fields(datasets: &Vec<DatasetEntry>) -> (r: Vec<DatasetEntry>)
    ensures
        entries_model(r@) == Seq::new(
            datasets@.len(),
            |i: int|
                with_data(
                    datasets@[i].model(),
                    expanded_data(entries_model(datasets@), datasets@[i].dataset.model()),
                ),
        ),
{
    let ghost am = entries_model(datasets@);
    let mut data: Vec<Vec<Field>> = Vec::new();
    let mut i: usize = 0;
    while i < datasets.len()
        invariant
            i <= datasets.len(),
            am == entries_model(datasets@),
            data.len() == i,
            forall|j: int|
                0 <= j < i ==> fields_model(#[trigger] data[j]@) == expanded_data(
                    am,
                    datasets[j].dataset.model(),
                ),
        decreases datasets.len() - i,
    {
        data.push(expand_dataset(datasets, i));
        i += 1;
    }
    let r = replace_data(datasets, &data);
    assert(entries_model(r@) =~= Seq::new(
        datasets@.len(),
        |i: int|
            with_data(
                datasets@[i].model(),
                expanded_data(am, datasets@[i].dataset.model()),
            ),
    ));
    r
}

/// Wildcards never copy an imported column, and nothing that is copied is excluded or named
/// twice: every copied field refers to its target, under a name that no declared field has.
pub proof fn law_star_copies_new_fields_only(x: Expansion, n: int, i: int)
    requires
        0 <= n <= x.target.len(),
        0 <= i < x.star(Seq::empty(), n).len(),
    ensures
        exists|t: int|
            0 <= t < n && !(#[trigger] x.target[t]).imported_taint && x.star(Seq::empty(), n)[i]
                == ref_field(x.target[t].name, x.reference) && !x.exclude.contains(
                x.target[t].name,
            ) && field_position(x.existing, x.target[t].name, 0) is None,
    decreases n,
{
    if n > 0 {
        let before = x.star(Seq::empty(), n - 1);
        if i < before.len() {
            law_star_copies_new_fields_only(x, n - 1, i);
            assert(x.star(Seq::empty(), n)[i] == before[i]);
        } else {
            assert(!x.target[n - 1].imported_taint);
        }
    }
}

// ---------------------------------------------------------------------------
// References
// ---------------------------------------------------------------------------

/// The include or link of a dataset with the given name; the include comes first.
pub open spec fn named_reference(ds: SyntheticDatasetModel, name: Seq<char>) -> Option<IncludeModel> {
    if ds.include_spec is Some && ds.include_spec->0.reference == name {
        ds.include_spec
    } else {
        match link_position(ds.links, name, 0) {
            Some(l) => Some(ds.links[l]),
            None => None,
        }
    }
}

fn find_reference<'a>(ds: &'a SyntheticDataset, name: &str) -> (r: Option<&'a Include>)
    ensures
        match r {
            Some(i) => named_reference(ds.model(), name@) == Some(i.model()),
            None => named_reference(ds.model(), name@) is None,
        },
{
    if let Some(inc) = &ds.include_spec {
        if same_text(&inc.reference, name) {
            return Some(inc);
        }
    }
    match find_link(&ds.links, name) {
        Some(l) => {
            assert(ds.model().links[l as int] == ds.links[l as int].model());
            Some(&ds.links[l])
        },
        None => None,
    }
}

/// One step of a reference: the dataset and the field it leads to, or what is wrong with it.
pub open spec fn chain_step(
    all: Seq<DatasetEntryModel>,
    ds: SyntheticDatasetModel,
    reference: Seq<char>,
) -> Result<(int, int), Seq<char>> {
    match ref_parts(reference) {
        None => Err("malformed ref '"@ + reference + "' in chain"@),
        Some((name, column)) => match named_reference(ds, name) {
            None => Err(
                "ref '"@ + reference + "' — include or link '"@ + name + "' not found"@,
            ),
            Some(inc) => match inc.resolved {
                None => Err("cannot resolve include '"@ + inc.file + "' in chain"@),
                Some(p) => match crate::models::dataset_position(all, p, 0) {
                    None => Err("included dataset '"@ + inc.file + "' not loaded"@),
                    Some(t) => match field_position(all[t].dataset.data, column, 0) {
                        None => Err(
                            "field '"@ + column + "' not found in '"@ + inc.file + "'"@,
                        ),
                        Some(f) => Ok((t, f)),
                    },
                },
            },
        },
    }
}

/// The base of a field: the field at the end of its chain of references.
pub open spec fn base_field(
    all: Seq<DatasetEntryModel>,
    ds: SyntheticDatasetModel,
    f: FieldModel,
    depth: int,
) -> Result<FieldModel, Seq<char>>
    decreases MAX_REF_CHAIN_DEPTH + 1 - depth,
{
    if depth > MAX_REF_CHAIN_DEPTH {
        Err("ref chain exceeds maximum depth — check for a circular reference"@)
    } else {
        match f.type_ref() {
            None => Ok(f),
            Some(reference) => match chain_step(all, ds, reference) {
                Err(m) => Err(m),
                Ok((t, c)) => base_field(all, all[t].dataset, all[t].dataset.data[c], depth + 1),
            },
        }
    }
}

fn resolve_to_base<'a>(
    all: &'a Vec<DatasetEntry>,
    ds: &'a SyntheticDataset,
    field: &'a Field,
    depth: usize,
) -> (r: Result<&'a Field, String>)
    requires
        depth <= MAX_REF_CHAIN_DEPTH + 1,
    ensures
        match r {
            Ok(f) => base_field(entries_model(all@), ds.model(), field.model(), depth as int)
                == Ok::<FieldModel, Seq<char>>(f.model()),
            Err(m) => base_field(entries_model(all@), ds.model(), field.model(), depth as int)
                == Err::<FieldModel, Seq<char>>(m@),
        },
    decreases MAX_REF_CHAIN_DEPTH + 1 - depth,
{
    let ghost am = entries_model(all@);
    if depth > MAX_REF_CHAIN_DEPTH {
        return Err(
            "ref chain exceeds maximum depth — check for a circular reference".to_owned(),
        );
    }
    let reference = match field.simple_ref() {
        Some(s) => s,
        None => {
            return Ok(field);
        },
    };
    let (name, column) = match split_ref(reference) {
        Some(p) => p,
        None => {
            return Err(join3("malformed ref '", reference, "' in chain"));
        },
    };
    let inc = match find_reference(ds, name) {
        Some(i) => i,
        None => {
            return Err(
                join5("ref '", reference, "' — include or link '", name, "' not found"),
            );
        },
    };
    let path = match &inc.resolved {
        Some(p) => p,
        None => {
            return Err(join3("cannot resolve include '", &inc.file, "' in chain"));
        },
    };
    let t = match find_dataset(all, path) {
        Some(t) => t,
        None => {
            return Err(join3("included dataset '", &inc.file, "' not loaded"));
        },
    };
    assert(am[t as int] == all[t as int].model());
    let next = &all[t].dataset;
    match find_field(&next.data, column) {
        Some(c) => {
            assert(next.model().data[c as int] == next.data[c as int].model());
            resolve_to_base(all, next, &next.data[c], depth + 1)
        },
        None => Err(join5("field '", column, "' not found in '", &inc.file, "'")),
    }
}

/// A reference resolved: the base's type and structure, the merged value source, and the local
/// field's own cases where it has some.
pub open spec fn merged_field(
    name: Seq<char>,
    local: FieldModel,
    base: FieldModel,
    m: FieldConstraintsModel,
) -> FieldModel {
    FieldModel {
        name,
        field_type: base.field_type,
        generator: m.generator,
        range: if m.min is Some || m.max is Some {
            Some(Range { min: m.min, max: m.max })
        } else {
            None
        },
        value: m.value,
        one_of: m.one_of,
        variants: if local.variants.len() == 0 {
            base.variants
        } else {
            local.variants
        },
        constrain_cases: local.constrain_cases,
        constraint_bearing: local.constraint_bearing,
        fields: base.fields,
        content: base.content,
        hidden: local.hidden,
        ..default_field_model()
    }
}

fn merged_ref_field(name: &str, local: &Field, base: &Field, m: FieldConstraints) -> (r: Field)
    ensures
        r.model() == merged_field(name@, local.model(), base.model(), m.model()),
{
    let range = m.to_range();
    let ghost mm = m.model();
    let copy = base.clone();
    let mut r = Field::default();
    r.name = name.to_owned();
    r.field_type = base.field_type;
    r.generator = m.generator;
    r.range = range;
    r.value = m.value;
    r.one_of = m.one_of;
    r.variants = if local.variants.len() == 0 {
        clone_field_variants(&base.variants)
    } else {
        clone_field_variants(&local.variants)
    };
    r.constrain_cases = clone_case_deltas(&local.constrain_cases);
    r.constraint_bearing = local.constraint_bearing;
    r.fields = copy.fields;
    r.content = copy.content;
    r.hidden = local.hidden;
    assert(r.model() == merged_field(name@, local.model(), base.model(), mm));
    r
}

/// The beginning of every message about a reference of a field.
pub open spec fn ref_context(ds: Seq<char>, field: Seq<char>, reference: Seq<char>) -> Seq<char> {
    "field '"@ + ds + "."@ + field + "': ref '"@ + reference + "'"@
}

/// A field with its reference resolved, or what is wrong with the reference.
pub open spec fn resolved_field(
    all: Seq<DatasetEntryModel>,
    ds: SyntheticDatasetModel,
    f: FieldModel,
    reference: Seq<char>,
) -> Result<FieldModel, Seq<PartModel>> {
    let ctx = ref_context(ds.name, f.name, reference);
    match ref_parts(reference) {
        None => Err(
            said(
                "field '"@ + ds.name + "."@ + f.name + "': malformed ref '"@ + reference
                    + "' — expected 'include_ref.field_name'"@,
            ),
        ),
        Some((name, column)) => match named_reference(ds, name) {
            None => Err(said(ctx + (" — no include or link with ref '"@ + name + "'"@))),
            Some(inc) => match inc.resolved {
                None => Err(said(ctx + (" — cannot resolve '"@ + inc.file + "'"@))),
                Some(p) => match crate::models::dataset_position(all, p, 0) {
                    None => Err(said(ctx + " — included dataset not loaded"@)),
                    Some(t) => match field_position(all[t].dataset.data, column, 0) {
                        None => Err(said(ctx + " — target field not found"@)),
                        Some(c) => match base_field(
                            all,
                            all[t].dataset,
                            all[t].dataset.data[c],
                            0,
                        ) {
                            Err(m) => Err(
                                said(ctx + (" — could not resolve ref chain: "@ + m)),
                            ),
                            Ok(base) => if base.expression is Some {
                                Err(
                                    said(
                                        ctx
                                            + " points to an expression field — expression field types are inferred at runtime and cannot be referenced"@,
                                    ),
                                )
                            } else {
                                match merged(constraints_of(f), constraints_of(base)) {
                                    None => Err(
                                        said(
                                            ctx + (" — local constraints conflict with target field '"@
                                                + column + "'"@),
                                        ),
                                    ),
                                    Some(m) => Ok(
                                        FieldModel {
                                            expression: f.expression,
                                            ..merged_field(f.name, f, base, m)
                                        },
                                    ),
                                }
                            },
                        },
                    },
                },
            },
        },
    }
}

fn context_of(ds: &str, field: &str, reference: &str) -> (r: String)
    ensures
        r@ == ref_context(ds@, field@, reference@),
{
    join7("field '", ds, ".", field, "': ref '", reference, "'")
}

fn resolve_field(
    all: &Vec<DatasetEntry>,
    ds: &SyntheticDataset,
    field: &Field,
    reference: &str,
) -> (r: Result<Field, Problem>)
    ensures
        match r {
            Ok(f) => resolved_field(entries_model(all@), ds.model(), field.model(), reference@)
                == Ok::<FieldModel, Seq<PartModel>>(f.model()),
            Err(p) => resolved_field(entries_model(all@), ds.model(), field.model(), reference@)
                == Err::<FieldModel, Seq<PartModel>>(p.model()),
        },
{
    let ghost am = entries_model(all@);
    let ctx = context_of(&ds.name, &field.name, reference);
    let (name, column) = match split_ref(reference) {
        Some(p) => p,
        None => {
            return Err(
                problem(
                    join7(
                        "field '",
                        &ds.name,
                        ".",
                        &field.name,
                        "': malformed ref '",
                        reference,
                        "' — expected 'include_ref.field_name'",
                    ),
                ),
            );
        },
    };
    let inc = match find_reference(ds, name) {
        Some(i) => i,
        None => {
            return Err(
                problem(ctx.concat(&join3(" — no include or link with ref '", name, "'"))),
            );
        },
    };
    let path = match &inc.resolved {
        Some(p) => p,
        None => {
            return Err(problem(ctx.concat(&join3(" — cannot resolve '", &inc.file, "'"))));
        },
    };
    let t = match find_dataset(all, path) {
        Some(t) => t,
        None => {
            return Err(problem(ctx.concat(" — included dataset not loaded")));
        },
    };
    assert(am[t as int] == all[t as int].model());
    let target_ds = &all[t].dataset;
    let c = match find_field(&target_ds.data, column) {
        Some(c) => c,
        None => {
            return Err(problem(ctx.concat(" — target field not found")));
        },
    };
    assert(target_ds.model().data[c as int] == target_ds.data[c as int].model());
    let base = match resolve_to_base(all, target_ds, &target_ds.data[c], 0) {
        Ok(b) => b,
        Err(m) => {
            return Err(
                problem(
                    ctx.concat(&crate::message::join2(" — could not resolve ref chain: ", &m)),
                ),
            );
        },
    };
    if base.expression.is_some() {
        return Err(
            problem(
                ctx.concat(
                    " points to an expression field — expression field types are inferred at runtime and cannot be referenced",
                ),
            ),
        );
    }
    match FieldConstraints::from(field).merge(&FieldConstraints::from(base)) {
        None => Err(
            problem(
                ctx.concat(
                    &join3(" — local constraints conflict with target field '", column, "'"),
                ),
            ),
        ),
        Some(m) => {
            let mut r = merged_ref_field(&field.name, field, base, m);
            let ghost before = r.model();
            r.expression = crate::text::clone_opt_text(&field.expression);
            assert(r.model() == (FieldModel { expression: field.model().expression, ..before }));
            Ok(r)
        },
    }
}

/// An item field of a list with its reference into the linked dataset resolved; references to the
/// enclosing row, and fields without reference, stay as they are.
pub open spec fn resolved_item(
    all: Seq<DatasetEntryModel>,
    f: FieldModel,
    link: IncludeModel,
) -> Result<FieldModel, Seq<PartModel>> {
    let ctx = "list-link content field '"@ + f.name + "': "@;
    match f.type_ref() {
        None => Ok(f),
        Some(reference) => match ref_parts(reference) {
            None => Ok(f),
            Some((name, column)) => if name != link.reference {
                Ok(f)
            } else {
                match link.resolved {
                    None => Err(said(ctx + ("cannot resolve linked file '"@ + link.file + "'"@))),
                    Some(_) => {
                        let found = match target_of(all, link) {
                            Some(t) => match field_position(all[t].dataset.data, column, 0) {
                                Some(c) => Some(all[t].dataset.data[c]),
                                None => None,
                            },
                            None => None,
                        };
                        match found {
                            None => Err(
                                said(
                                    ctx + ("target field '"@ + column + "' not found in '"@
                                        + link.file + "'"@),
                                ),
                            ),
                            Some(target) => match merged(
                                constraints_of(f),
                                constraints_of(target),
                            ) {
                                None => Err(
                                    said(
                                        ctx + ("local constraints conflict with target '"@ + column
                                            + "'"@),
                                    ),
                                ),
                                Some(m) => Ok(
                                    FieldModel { refs: f.refs, ..merged_field(f.name, f, target, m) },
                                ),
                            },
                        }
                    },
                }
            },
        },
    }
}

fn resolve_list_link_content_field(
    all: &Vec<DatasetEntry>,
    field: &Field,
    link: &Include,
) -> (r: Result<Field, Problem>)
    ensures
        match r {
            Ok(f) => resolved_item(entries_model(all@), field.model(), link.model()) == Ok::<
                FieldModel,
                Seq<PartModel>,
            >(f.model()),
            Err(p) => resolved_item(entries_model(all@), field.model(), link.model()) == Err::<
                FieldModel,
                Seq<PartModel>,
            >(p.model()),
        },
{
    let ghost am = entries_model(all@);
    let reference = match field.simple_ref() {
        Some(s) => s,
        None => {
            return Ok(field.clone());
        },
    };
    let (name, column) = match split_ref(reference) {
        Some(p) => p,
        None => {
            return Ok(field.clone());
        },
    };
    if !same_text(&link.reference, name) {
        return Ok(field.clone());
    }
    let ctx = join3("list-link content field '", &field.name, "': ");
    if link.resolved.is_none() {
        return Err(problem(ctx.concat(&join3("cannot resolve linked file '", &link.file, "'"))));
    }
    let mut found: Option<&Field> = None;
    if let Some(t) = find_target(all, link) {
        assert(am[t as int] == all[t as int].model());
        if let Some(c) = find_field(&all[t].dataset.data, column) {
            assert(all[t as int].dataset.model().data[c as int]
                == all[t as int].dataset.data[c as int].model());
            found = Some(&all[t].dataset.data[c]);
        }
    }
    let target = match found {
        Some(f) => f,
        None => {
            return Err(
                problem(
                    ctx.concat(
                        &join5("target field '", column, "' not found in '", &link.file, "'"),
                    ),
                ),
            );
        },
    };
    match FieldConstraints::from(field).merge(&FieldConstraints::from(target)) {
        None => Err(
            problem(
                ctx.concat(&join3("local constraints conflict with target '", column, "'")),
            ),
        ),
        Some(m) => {
            let mut r = merged_ref_field(&field.name, field, target, m);
            let ghost before = r.model();
            r.refs = clone_opt_refs_spec(&field.refs);
            assert(r.model() == (FieldModel { refs: field.model().refs, ..before }));
            Ok(r)
        },
    }
}

/// The first `n` item fields resolved, or the first problem among them.
pub open spec fn resolved_items(
    all: Seq<DatasetEntryModel>,
    items: Seq<FieldModel>,
    link: IncludeModel,
    n: int,
) -> Result<Seq<FieldModel>, Seq<PartModel>>
    decreases n,
{
    if n <= 0 {
        Ok(Seq::empty())
    } else {
        match resolved_items(all, items, link, n - 1) {
            Err(m) => Err(m),
            Ok(before) => match resolved_item(all, items[n - 1], link) {
                Err(m) => Err(m),
                Ok(f) => Ok(before.push(f)),
            },
        }
    }
}

/// A field with its references resolved: its own, and those of its list items.
pub open spec fn resolved_whole(
    all: Seq<DatasetEntryModel>,
    ds: SyntheticDatasetModel,
    f: FieldModel,
) -> Result<FieldModel, Seq<PartModel>> {
    let own = match f.type_ref() {
        Some(reference) => match resolved_field(all, ds, f, reference) {
            Ok(g) => Ok(FieldModel { refs: f.refs, ..g }),
            Err(m) => Err(m),
        },
        None => Ok(f),
    };
    match own {
        Err(m) => Err(m),
        Ok(g) => match list_source(f) {
            None => Ok(g),
            Some(from) => match link_position(ds.links, from, 0) {
                None => Ok(g),
                Some(l) => {
                    let items = f.content->0.item.fields;
                    match resolved_items(all, items, ds.links[l], items.len() as int) {
                        Err(m) => Err(m),
                        Ok(done) => Ok(with_items(g, done)),
                    }
                },
            },
        },
    }
}

fn resolve_whole(all: &Vec<DatasetEntry>, ds: &SyntheticDataset, field: &Field) -> (r: Result<
    Field,
    Problem,
>)
    ensures
        match r {
            Ok(f) => resolved_whole(entries_model(all@), ds.model(), field.model()) == Ok::<
                FieldModel,
                Seq<PartModel>,
            >(f.model()),
            Err(p) => resolved_whole(entries_model(all@), ds.model(), field.model()) == Err::<
                FieldModel,
                Seq<PartModel>,
            >(p.model()),
        },
{
    let ghost am = entries_model(all@);
    let out = match field.simple_ref() {
        Some(reference) => match resolve_field(all, ds, field, reference) {
            Ok(f) => {
                let mut g = f;
                let ghost before = g.model();
                g.refs = clone_opt_refs_spec(&field.refs);
                assert(g.model() == (FieldModel { refs: field.model().refs, ..before }));
                g
            },
            Err(p) => {
                return Err(p);
            },
        },
        None => field.clone(),
    };
    let c = match &field.content {
        Some(c) => c,
        None => {
            return Ok(out);
        },
    };
    proof {
        lemma_content_model(*field);
    }
    let from = match &c.from {
        Some(f) => f,
        None => {
            return Ok(out);
        },
    };
    let l = match find_link(&ds.links, from) {
        Some(l) => l,
        None => {
            return Ok(out);
        },
    };
    assert(ds.model().links[l as int] == ds.links[l as int].model());
    let link = &ds.links[l];
    let items = &c.item.fields;
    let ghost im = fields_model(items@);
    let mut done: Vec<Field> = Vec::new();
    let mut i: usize = 0;
    assert(fields_model(done@) =~= Seq::empty());
    let ghost whole = resolved_whole(am, ds.model(), field.model());
    assert(whole == match resolved_items(am, im, link.model(), im.len() as int) {
        Err(m) => Err::<FieldModel, Seq<PartModel>>(m),
        Ok(d) => Ok(with_items(out.model(), d)),
    });
    while i < items.len()
        invariant
            i <= items.len(),
            am == entries_model(all@),
            im == fields_model(items@),
            whole == resolved_whole(am, ds.model(), field.model()),
            whole == match resolved_items(am, im, link.model(), im.len() as int) {
                Err(m) => Err::<FieldModel, Seq<PartModel>>(m),
                Ok(d) => Ok(with_items(out.model(), d)),
            },
            resolved_items(am, im, link.model(), i as int) == Ok::<
                Seq<FieldModel>,
                Seq<PartModel>,
            >(fields_model(done@)),
        decreases items.len() - i,
    {
        assert(im[i as int] == items[i as int].model());
        match resolve_list_link_content_field(all, &items[i], link) {
            Ok(f) => {
                let ghost prior = done@;
                done.push(f);
                assert(fields_model(done@) =~= fields_model(prior).push(f.model()));
            },
            Err(p) => {
                proof {
                    lemma_items_error_stays(am, im, link.model(), i + 1, items.len() as int);
                }
                return Err(p);
            },
        }
        i += 1;
    }
    if out.content.is_some() {
        Ok(replace_items(&out, done))
    } else {
        proof {
            assert(out.model().content is None);
        }
        Ok(out)
    }
}

proof fn lemma_items_error_stays(
    all: Seq<DatasetEntryModel>,
    items: Seq<FieldModel>,
    link: IncludeModel,
    m: int,
    n: int,
)
    requires
        0 <= m <= n,
    ensures
        resolved_items(all, items, link, m) is Err ==> resolved_items(all, items, link, n)
            == resolved_items(all, items, link, m),
    decreases n,
{
    if m < n {
        lemma_items_error_stays(all, items, link, m, n - 1);
    }
}

/// The first `n` fields of a dataset with their references resolved, or the first problem.
pub open spec fn resolved_data(
    all: Seq<DatasetEntryModel>,
    ds: SyntheticDatasetModel,
    n: int,
) -> Result<Seq<FieldModel>, Seq<PartModel>>
    decreases n,
{
    if n <= 0 {
        Ok(Seq::empty())
    } else {
        match resolved_data(all, ds, n - 1) {
            Err(m) => Err(m),
            Ok(before) => match resolved_whole(all, ds, ds.data[n - 1]) {
                Err(m) => Err(m),
                Ok(f) => Ok(before.push(f)),
            },
        }
    }
}

/// The first `n` datasets with their references resolved, or the first problem.
pub open spec fn resolved_datasets(all: Seq<DatasetEntryModel>, n: int) -> Result<
    Seq<DatasetEntryModel>,
    Seq<PartModel>,
>
    decreases n,
{
    if n <= 0 {
        Ok(Seq::empty())
    } else {
        match resolved_datasets(all, n - 1) {
            Err(m) => Err(m),
            Ok(before) => match resolved_data(
                all,
                all[n - 1].dataset,
                all[n - 1].dataset.data.len() as int,
            ) {
                Err(m) => Err(m),
                Ok(data) => Ok(before.push(with_data(all[n - 1], data))),
            },
        }
    }
}

proof fn lemma_data_error_stays(
    all: Seq<DatasetEntryModel>,
    ds: SyntheticDatasetModel,
    m: int,
    n: int,
)
    requires
        0 <= m <= n,
    ensures
        resolved_data(all, ds, m) is Err ==> resolved_data(all, ds, n) == resolved_data(all, ds, m),
    decreases n,
{
    if m < n {
        lemma_data_error_stays(all, ds, m, n - 1);
    }
}

proof fn lemma_datasets_error_stays(all: Seq<DatasetEntryModel>, m: int, n: int)
    requires
        0 <= m <= n,
    ensures
        resolved_datasets(all, m) is Err ==> resolved_datasets(all, n) == resolved_datasets(all, m),
    decreases n,
{
    if m < n {
        lemma_datasets_error_stays(all, m, n - 1);
    }
}

fn resolve_data(all: &Vec<DatasetEntry>, ds: &SyntheticDataset) -> (r: Result<Vec<Field>, Problem>)
    ensures
        match r {
            Ok(v) => resolved_data(entries_model(all@), ds.model(), ds.data.len() as int) == Ok::<
                Seq<FieldModel>,
                Seq<PartModel>,
            >(fields_model(v@)),
            Err(p) => resolved_data(entries_model(all@), ds.model(), ds.data.len() as int) == Err::<
                Seq<FieldModel>,
                Seq<PartModel>,
            >(p.model()),
        },
{
    let ghost am = entries_model(all@);
    let ghost dm = ds.model();
    let mut done: Vec<Field> = Vec::new();
    let mut i: usize = 0;
    assert(fields_model(done@) =~= Seq::empty());
    while i < ds.data.len()
        invariant
            i <= ds.data.len(),
            am == entries_model(all@),
            dm == ds.model(),
            resolved_data(am, dm, i as int) == Ok::<Seq<FieldModel>, Seq<PartModel>>(
                fields_model(done@),
            ),
        decreases ds.data.len() - i,
    {
        assert(dm.data[i as int] == ds.data[i as int].model());
        match resolve_whole(all, ds, &ds.data[i]) {
            Ok(f) => {
                let ghost prior = done@;
                done.push(f);
                assert(fields_model(done@) =~= fields_model(prior).push(f.model()));
            },
            Err(p) => {
                proof {
                    lemma_data_error_stays(am, dm, i + 1, ds.data.len() as int);
                }
                return Err(p);
            },
        }
        i += 1;
    }
    Ok(done)
}

/// Resolves every reference: a field that refers to another takes over its type and structure
/// and the constraints of both. The references themselves stay on the fields.
pub fn resolve_refs(datasets: &Vec<DatasetEntry>) -> (r: Result<Vec<DatasetEntry>, Problem>)
    ensures
        match r {
            Ok(v) => resolved_datasets(entries_model(datasets@), datasets.len() as int) == Ok::<
                Seq<DatasetEntryModel>,
                Seq<PartModel>,
            >(entries_model(v@)),
            Err(p) => resolved_datasets(entries_model(datasets@), datasets.len() as int) == Err::<
                Seq<DatasetEntryModel>,
                Seq<PartModel>,
            >(p.model()),
        },
{
    let ghost am = entries_model(datasets@);
    let mut done: Vec<DatasetEntry> = Vec::new();
    let mut i: usize = 0;
    assert(entries_model(done@) =~= Seq::empty());
    while i < datasets.len()
        invariant
            i <= datasets.len(),
            am == entries_model(datasets@),
            resolved_datasets(am, i as int) == Ok::<Seq<DatasetEntryModel>, Seq<PartModel>>(
                entries_model(done@),
            ),
        decreases datasets.len() - i,
    {
        assert(am[i as int] == datasets[i as int].model());
        match resolve_data(datasets, &datasets[i].dataset) {
            Ok(data) => {
                let mut ds = datasets[i].dataset.clone();
                let ghost dm = fields_model(data@);
                ds.data = data;
                let e = DatasetEntry { path: datasets[i].path.clone(), dataset: ds };
                assert(e.model() == with_data(am[i as int], dm));
                let ghost prior = done@;
                done.push(e);
                assert(entries_model(done@) =~= entries_model(prior).push(e.model()));
            },
            Err(p) => {
                proof {
                    lemma_datasets_error_stays(am, i + 1, datasets.len() as int);
                }
                return Err(p);
            },
        }
        i += 1;
    }
    Ok(done)
}

/// A resolved field never loosens the field it refers to: its bounds lie within those of the base.
pub proof fn law_reference_narrows(
    name: Seq<char>,
    local: FieldModel,
    base: FieldModel,
    n: crate::models::Num,
)
    requires
        merged(constraints_of(local), constraints_of(base)) is Some,
    ensures
        ({
            let r = merged_field(name, local, base, merged(constraints_of(local), constraints_of(base))->0);
            let rc = constraints_of(r);
            &&& r.field_type == base.field_type
            &&& crate::constraints::within(n, rc.min, rc.max) ==> crate::constraints::within(
                n,
                constraints_of(base).min,
                constraints_of(base).max,
            )
        }),
{
    crate::constraints::law_merge_narrows(constraints_of(local), constraints_of(base), n);
}

} // verus!
