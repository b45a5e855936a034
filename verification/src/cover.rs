//! Lower covers: which datasets, and which list fields, draw from each dataset.
use vstd::prelude::*;

use crate::message::{join2, join4, join5};
use crate::models::{
    entries_model, for_each_list_link, lemma_content_model, list_link_uses, uses_model, CountSpec,
    DatasetEntry, DatasetEntryModel, Field, FieldModel, Include, IncludeModel, Num,
    SyntheticDataset, SyntheticDatasetModel, ONE_KEY,
};
use crate::paths::{file_stem, law_decimal_is_unique, place_for, place_of, stem_part};
use crate::segment::{copy_map, segments_model, segments_wf, LowerCoverMember, Segment};
use crate::text::{clone_texts, decimal, decimal_text, same_text, texts};

verus! {

// ---------------------------------------------------------------------------
// Internal keys
// ---------------------------------------------------------------------------

/// The key of something derived from the dataset at `base`: a file next to it that no user names.
pub open spec fn internal_key(base: Seq<char>, label: Seq<char>) -> Seq<char> {
    place_of(base) + stem_or_none(base) + "___"@ + label + ".internal"@
}

/// The file name of a path without its extension; empty where there is none.
pub open spec fn stem_or_none(path: Seq<char>) -> Seq<char> {
    match stem_part(path) {
        Some(s) => s,
        None => Seq::empty(),
    }
}

/// The key of something derived from the dataset at `base`.
pub fn internal_path(base: &str, label: &str) -> (r: String)
    ensures
        r@ == internal_key(base@, label@),
{
    let place = place_for(base);
    match file_stem(base) {
        Some(stem) => join5(&place, stem, "___", label, ".internal"),
        None => {
            proof {
                reveal_strlit("");
                assert(""@ =~= Seq::empty());
            }
            join5(&place, "", "___", label, ".internal")
        },
    }
}

/// The key of the `i`th variant of a dataset.
pub open spec fn variant_key_of(path: Seq<char>, i: int) -> Seq<char> {
    internal_key(path, "variant_"@ + decimal_text(i as nat))
}

/// The key of the `i`th variant of a dataset.
pub fn variant_key(path: &str, i: usize) -> (r: String)
    ensures
        r@ == variant_key_of(path@, i as int),
{
    internal_path(path, &join2("variant_", &decimal(i as u64)))
}

/// The key of the witness rows of a list field.
pub open spec fn witness_key_of(path: Seq<char>, field: Seq<char>) -> Seq<char> {
    internal_key(path, field + "___witness"@)
}

/// The key of the witness rows of a list field.
pub fn witness_key(staging_path: &str, field_name: &str) -> (r: String)
    ensures
        r@ == witness_key_of(staging_path@, field_name@),
{
    internal_path(staging_path, &join2(field_name, "___witness"))
}

/// The key of the lower cover member that stands for a list field.
pub open spec fn linked_key_of(path: Seq<char>, field: Seq<char>) -> Seq<char> {
    internal_key(path, field + "___linked"@)
}

/// The key of the lower cover member that stands for a list field.
pub fn linked_lower_cover_path(outer_path: &str, field_name: &str) -> (r: String)
    ensures
        r@ == linked_key_of(outer_path@, field_name@),
{
    internal_path(outer_path, &join2(field_name, "___linked"))
}

proof fn lemma_middle_cancels(a: Seq<char>, x: Seq<char>, y: Seq<char>, b: Seq<char>)
    requires
        a + x + b == a + y + b,
    ensures
        x == y,
{
    let l = a + x + b;
    let r = a + y + b;
    assert(l.len() == a.len() + x.len() + b.len());
    assert(r.len() == a.len() + y.len() + b.len());
    assert(l.subrange(a.len() as int, (a.len() + x.len()) as int) =~= x);
    assert(r.subrange(a.len() as int, (a.len() + y.len()) as int) =~= y);
}

/// Different labels of one dataset have different keys.
pub proof fn law_internal_keys_differ(base: Seq<char>, a: Seq<char>, b: Seq<char>)
    requires
        internal_key(base, a) == internal_key(base, b),
    ensures
        a == b,
{
    lemma_middle_cancels(place_of(base) + stem_or_none(base) + "___"@, a, b, ".internal"@);
}

/// Different variants of one dataset have different keys.
pub proof fn law_variant_keys_differ(path: Seq<char>, i: int, j: int)
    requires
        0 <= i,
        0 <= j,
        variant_key_of(path, i) == variant_key_of(path, j),
    ensures
        i == j,
{
    let a = decimal_text(i as nat);
    let b = decimal_text(j as nat);
    law_internal_keys_differ(path, "variant_"@ + a, "variant_"@ + b);
    assert("variant_"@ + a + Seq::empty() =~= "variant_"@ + a);
    assert("variant_"@ + b + Seq::empty() =~= "variant_"@ + b);
    lemma_middle_cancels("variant_"@, a, b, Seq::empty());
    law_decimal_is_unique(i as nat, j as nat);
}

/// Different list fields of one dataset have different witness keys.
pub proof fn law_witness_keys_differ(path: Seq<char>, a: Seq<char>, b: Seq<char>)
    requires
        witness_key_of(path, a) == witness_key_of(path, b),
    ensures
        a == b,
{
    law_internal_keys_differ(path, a + "___witness"@, b + "___witness"@);
    assert(Seq::<char>::empty() + a + "___witness"@ =~= a + "___witness"@);
    assert(Seq::<char>::empty() + b + "___witness"@ =~= b + "___witness"@);
    lemma_middle_cancels(Seq::empty(), a, b, "___witness"@);
}

// ---------------------------------------------------------------------------
// Members
// ---------------------------------------------------------------------------

/// What a lower cover member says, free of representation.
pub struct MemberModel {
    pub path: Seq<char>,
    pub dataset: SyntheticDatasetModel,
    pub ratio: Num,
    pub cardinality: Option<CountSpec>,
    pub reference: Seq<char>,
    pub is_witness_source: bool,
}

/// What a member says, free of representation.
pub open spec fn member_model(m: LowerCoverMember) -> MemberModel {
    MemberModel {
        path: m.path@,
        dataset: m.dataset.model(),
        ratio: m.ratio,
        cardinality: m.cardinality,
        reference: m.reference@,
        is_witness_source: m.is_witness_source,
    }
}

/// The models of a list of members.
pub open spec fn members_model(s: Seq<LowerCoverMember>) -> Seq<MemberModel> {
    Seq::new(s.len(), |i: int| member_model(s[i]))
}

/// The models of the groups of all datasets.
pub open spec fn groups_model(s: Seq<Vec<LowerCoverMember>>) -> Seq<Seq<MemberModel>> {
    Seq::new(s.len(), |i: int| members_model(s[i]@))
}

/// A copy of a member.
pub fn clone_member(m: &LowerCoverMember) -> (r: LowerCoverMember)
    ensures
        member_model(r) == member_model(*m),
{
    LowerCoverMember {
        path: m.path.clone(),
        dataset: m.dataset.clone(),
        ratio: m.ratio,
        cardinality: m.cardinality,
        reference: m.reference.clone(),
        is_witness_source: m.is_witness_source,
    }
}

/// A copy of a list of members.
pub fn clone_members(v: &Vec<LowerCoverMember>) -> (r: Vec<LowerCoverMember>)
    ensures
        members_model(r@) == members_model(v@),
{
    let mut r: Vec<LowerCoverMember> = Vec::new();
    let mut i: usize = 0;
    while i < v.len()
        invariant
            i <= v.len(),
            r.len() == i,
            forall|j: int| 0 <= j < i ==> member_model(#[trigger] r[j]) == member_model(v[j]),
        decreases v.len() - i,
    {
        r.push(clone_member(&v[i]));
        i += 1;
    }
    assert(members_model(r@) =~= members_model(v@));
    r
}

/// A copy of a list of segments.
pub fn clone_segments(v: &Vec<Segment>) -> (r: Vec<Segment>)
    requires
        segments_wf(v@),
    ensures
        segments_model(r@) == segments_model(v@),
        segments_wf(r@),
{
    let mut r: Vec<Segment> = Vec::new();
    let mut i: usize = 0;
    while i < v.len()
        invariant
            i <= v.len(),
            segments_wf(v@),
            r.len() == i,
            segments_wf(r@),
            forall|j: int| 0 <= j < i ==> (#[trigger] r[j]).model() == v[j].model(),
        decreases v.len() - i,
    {
        assert(v[i as int].field_constraints.wf());
        let s = &v[i];
        r.push(
            Segment {
                members: clone_texts(&s.members),
                rows: s.rows,
                field_constraints: copy_map(&s.field_constraints),
                ring: s.ring,
            },
        );
        i += 1;
    }
    assert(segments_model(r@) =~= segments_model(v@));
    r
}

// ---------------------------------------------------------------------------
// Groups
// ---------------------------------------------------------------------------

/// A ratio, or one where none is given.
pub open spec fn ratio_or_one(r: Option<Num>) -> Num {
    match r {
        Some(n) => n,
        None => Num { key: ONE_KEY },
    }
}

/// The member that a dataset is of its parent.
pub open spec fn flat_member(e: DatasetEntryModel, inc: IncludeModel) -> MemberModel {
    MemberModel {
        path: e.path,
        dataset: e.dataset,
        ratio: ratio_or_one(inc.ratio),
        cardinality: inc.cardinality,
        reference: inc.reference,
        is_witness_source: false,
    }
}

/// The member that a list field is of the dataset it draws from.
pub open spec fn linked_member(e: DatasetEntryModel, f: FieldModel, link: IncludeModel) -> MemberModel {
    MemberModel {
        path: linked_key_of(e.path, f.name),
        dataset: SyntheticDatasetModel {
            name: e.dataset.name + "__"@ + f.name + "_linked"@,
            format: e.dataset.format,
            locale: e.dataset.locale,
            rows: None,
            output: None,
            outputs: Seq::empty(),
            include_spec: None,
            import: None,
            links: Seq::empty(),
            data: f.content->0.item.fields,
            variants: Seq::empty(),
        },
        ratio: ratio_or_one(link.ratio),
        cardinality: None,
        reference: link.reference,
        is_witness_source: true,
    }
}

/// The members of `path` among the first `n` list fields of a dataset.
pub open spec fn linked_members(
    e: DatasetEntryModel,
    uses: Seq<(FieldModel, int)>,
    path: Seq<char>,
    n: int,
) -> Seq<MemberModel>
    decreases n,
{
    if n <= 0 {
        Seq::empty()
    } else {
        let before = linked_members(e, uses, path, n - 1);
        let (f, l) = uses[n - 1];
        if e.dataset.links[l].resolved == Some(path) {
            before.push(linked_member(e, f, e.dataset.links[l]))
        } else {
            before
        }
    }
}

/// The list fields of a dataset with the links they draw from.
pub open spec fn uses_of(ds: SyntheticDatasetModel) -> Seq<(FieldModel, int)> {
    list_link_uses(ds.links, ds.data, 0)
}

/// What one dataset contributes to the lower cover of `path`: itself where it is drawn from
/// there, then its list fields that draw from there.
pub open spec fn members_from(e: DatasetEntryModel, path: Seq<char>) -> Seq<MemberModel> {
    let flat = match e.dataset.include_spec {
        Some(inc) => if inc.resolved == Some(path) {
            seq![flat_member(e, inc)]
        } else {
            Seq::empty()
        },
        None => Seq::empty(),
    };
    let uses = uses_of(e.dataset);
    flat + linked_members(e, uses, path, uses.len() as int)
}

/// The lower cover of `path` among the first `n` datasets.
pub open spec fn group_at(all: Seq<DatasetEntryModel>, path: Seq<char>, n: int) -> Seq<MemberModel>
    decreases n,
{
    if n <= 0 {
        Seq::empty()
    } else {
        group_at(all, path, n - 1) + members_from(all[n - 1], path)
    }
}

/// The lower cover of dataset `i`.
pub open spec fn group(all: Seq<DatasetEntryModel>, i: int) -> Seq<MemberModel> {
    group_at(all, all[i].path, all.len() as int)
}

proof fn lemma_uses(links: Seq<IncludeModel>, fields: Seq<FieldModel>, i: int, k: int)
    requires
        0 <= i,
        0 <= k < list_link_uses(links, fields, i).len(),
    ensures
        list_link_uses(links, fields, i)[k].0.content is Some,
        0 <= list_link_uses(links, fields, i)[k].1 < links.len(),
    decreases fields, fields.len() - i,
{
    if i < fields.len() {
        let f = fields[i];
        let inner = list_link_uses(links, f.fields, 0);
        let rest = list_link_uses(links, fields, i + 1);
        let own: Seq<(FieldModel, int)> = match f.content {
            Some(c) => match c.from {
                Some(from) => match crate::models::link_position(links, from, 0) {
                    Some(l) => seq![(f, l)],
                    None => Seq::empty(),
                },
                None => Seq::empty(),
            },
            None => Seq::empty(),
        };
        let nested: Seq<(FieldModel, int)> = match f.content {
            Some(c) => list_link_uses(links, c.item.fields, 0),
            None => Seq::empty(),
        };
        let all = list_link_uses(links, fields, i);
        assert(all =~= own + nested + inner + rest);
        if k < own.len() {
            lemma_link_position(links, f.content->0.from->0, 0);
        } else if k < own.len() + nested.len() {
            lemma_uses(links, f.content->0.item.fields, 0, k - own.len());
        } else if k < own.len() + nested.len() + inner.len() {
            lemma_uses(links, f.fields, 0, k - own.len() - nested.len());
        } else {
            lemma_uses(links, fields, i + 1, k - own.len() - nested.len() - inner.len());
        }
    }
}

/// A found link lies among the links and has the name.
pub proof fn lemma_link_position(links: Seq<IncludeModel>, reference: Seq<char>, i: int)
    requires
        0 <= i,
    ensures
        match crate::models::link_position(links, reference, i) {
            Some(l) => i <= l < links.len() && links[l].reference == reference,
            None => true,
        },
    decreases links.len() - i,
{
    if i < links.len() {
        lemma_link_position(links, reference, i + 1);
    }
}

fn make_linked_member(path: &str, ds: &SyntheticDataset, f: &Field, link: &Include) -> (r:
    LowerCoverMember)
    requires
        f.content is Some,
    ensures
        forall|e: DatasetEntryModel|
            e.path == path@ && e.dataset == ds.model() ==> member_model(r) == #[trigger] linked_member(
                e,
                f.model(),
                link.model(),
            ),
{
    let data = match &f.content {
        Some(c) => {
            proof {
                lemma_content_model(*f);
            }
            crate::models::clone_fields(&c.item.fields)
        },
        None => Vec::new(),
    };
    let dataset = SyntheticDataset {
        name: join4(&ds.name, "__", &f.name, "_linked"),
        format: ds.format,
        locale: ds.locale,
        rows: None,
        output: None,
        outputs: Vec::new(),
        include_spec: None,
        import: None,
        links: Vec::new(),
        data,
        variants: Vec::new(),
    };
    proof {
        let m = dataset.model();
        assert(m.outputs =~= Seq::empty());
        assert(m.links =~= Seq::empty());
        assert(m.variants =~= Seq::empty());
    }
    LowerCoverMember {
        path: linked_lower_cover_path(path, &f.name),
        dataset,
        ratio: match link.ratio {
            Some(n) => n,
            None => Num { key: ONE_KEY },
        },
        cardinality: None,
        reference: link.reference.clone(),
        is_witness_source: true,
    }
}

fn add_members_of(e: &DatasetEntry, path: &str, out: &mut Vec<LowerCoverMember>)
    ensures
        members_model(final(out)@) == members_model(old(out)@) + members_from(e.model(), path@),
{
    let ghost start = members_model(out@);
    let ghost em = e.model();
    let ds = &e.dataset;
    if let Some(inc) = &ds.include_spec {
        if let Some(p) = &inc.resolved {
            if same_text(p, path) {
                let ghost prior = out@;
                let m = LowerCoverMember {
                    path: e.path.clone(),
                    dataset: ds.clone(),
                    ratio: match inc.ratio {
                        Some(n) => n,
                        None => Num { key: ONE_KEY },
                    },
                    cardinality: inc.cardinality,
                    reference: inc.reference.clone(),
                    is_witness_source: false,
                };
                out.push(m);
                assert(member_model(m) == flat_member(em, inc.model()));
                assert(members_model(out@) =~= members_model(prior).push(member_model(m)));
            }
        }
    }
    let ghost flat = match em.dataset.include_spec {
        Some(inc) => if inc.resolved == Some(path@) {
            seq![flat_member(em, inc)]
        } else {
            Seq::empty()
        },
        None => Seq::empty(),
    };
    assert(members_model(out@) =~= start + flat);
    collect_linked_lower_cover_members(e, path, out);
    assert(members_model(out@) =~= start + members_from(em, path@));
}

fn collect_linked_lower_cover_members(
    e: &DatasetEntry,
    path: &str,
    out: &mut Vec<LowerCoverMember>,
)
    ensures
        members_model(final(out)@) == members_model(old(out)@) + linked_members(
            e.model(),
            uses_of(e.model().dataset),
            path@,
            uses_of(e.model().dataset).len() as int,
        ),
{
    let ghost start = members_model(out@);
    let ghost em = e.model();
    let ghost um = uses_of(em.dataset);
    let ds = &e.dataset;
    let uses = for_each_list_link(&ds.links, &ds.data);
    let mut k: usize = 0;
    assert(members_model(out@) =~= start + linked_members(em, um, path@, 0));
    while k < uses.len()
        invariant
            k <= uses.len(),
            em == e.model(),
            *ds == e.dataset,
            um == uses_of(em.dataset),
            um == uses_model(uses@),
            members_model(out@) == start + linked_members(em, um, path@, k as int),
        decreases uses.len() - k,
    {
        let (f, l) = uses[k];
        proof {
            assert(um[k as int] == (f.model(), l as int));
            lemma_uses(em.dataset.links, em.dataset.data, 0, k as int);
            assert(em.dataset.links[l as int] == ds.links[l as int].model());
            assert(f.content is Some);
        }
        if let Some(p) = &ds.links[l].resolved {
            if same_text(p, path) {
                let ghost prior = out@;
                let m = make_linked_member(&e.path, ds, f, &ds.links[l]);
                assert(member_model(m) == linked_member(em, f.model(), ds.links[l as int].model()));
                out.push(m);
                assert(members_model(out@) =~= members_model(prior).push(member_model(m)));
            }
        }
        k += 1;
        assert(members_model(out@) =~= start + linked_members(em, um, path@, k as int));
    }
}

/// The lower cover of every dataset: the datasets drawn from it, and the list fields that draw
/// from it.
pub fn build_lower_cover_groups(datasets: &Vec<DatasetEntry>) -> (r: Vec<Vec<LowerCoverMember>>)
    ensures
        groups_model(r@) == Seq::new(
            datasets@.len(),
            |i: int| group(entries_model(datasets@), i),
        ),
{
    let ghost all = entries_model(datasets@);
    let mut r: Vec<Vec<LowerCoverMember>> = Vec::new();
    let mut i: usize = 0;
    while i < datasets.len()
        invariant
            i <= datasets.len(),
            all == entries_model(datasets@),
            r.len() == i,
            forall|j: int| 0 <= j < i ==> members_model(#[trigger] r[j]@) == group(all, j),
        decreases datasets.len() - i,
    {
        let mut out: Vec<LowerCoverMember> = Vec::new();
        let mut k: usize = 0;
        assert(all[i as int].path == datasets[i as int].path@);
        assert(members_model(out@) =~= Seq::empty());
        while k < datasets.len()
            invariant
                k <= datasets.len(),
                i < datasets.len(),
                all == entries_model(datasets@),
                all[i as int].path == datasets[i as int].path@,
                members_model(out@) == group_at(all, all[i as int].path, k as int),
            decreases datasets.len() - k,
        {
            assert(all[k as int] == datasets[k as int].model());
            add_members_of(&datasets[k], &datasets[i].path, &mut out);
            k += 1;
        }
        r.push(out);
        i += 1;
    }
    assert(groups_model(r@) =~= Seq::new(datasets@.len(), |i: int| group(all, i)));
    r
}

/// The keys of the list fields among the first `n` whose linked file exists.
pub open spec fn linked_keys(e: DatasetEntryModel, uses: Seq<(FieldModel, int)>, n: int) -> Seq<
    Seq<char>,
>
    decreases n,
{
    if n <= 0 {
        Seq::empty()
    } else {
        let before = linked_keys(e, uses, n - 1);
        let (f, l) = uses[n - 1];
        if e.dataset.links[l].resolved is Some {
            before.push(linked_key_of(e.path, f.name))
        } else {
            before
        }
    }
}

/// The paths of all lower cover members among the first `n` datasets.
pub open spec fn covered_paths(all: Seq<DatasetEntryModel>, n: int) -> Seq<Seq<char>>
    decreases n,
{
    if n <= 0 {
        Seq::empty()
    } else {
        let e = all[n - 1];
        let own: Seq<Seq<char>> = match e.dataset.include_spec {
            Some(inc) => if inc.resolved is Some {
                seq![e.path]
            } else {
                Seq::empty()
            },
            None => Seq::empty(),
        };
        let uses = uses_of(e.dataset);
        covered_paths(all, n - 1) + own + linked_keys(e, uses, uses.len() as int)
    }
}

/// The paths of all lower cover members.
pub fn lower_cover_set(datasets: &Vec<DatasetEntry>) -> (r: Vec<String>)
    ensures
        texts(r@) == covered_paths(entries_model(datasets@), datasets.len() as int),
{
    let ghost all = entries_model(datasets@);
    let mut r: Vec<String> = Vec::new();
    let mut i: usize = 0;
    assert(texts(r@) =~= Seq::empty());
    while i < datasets.len()
        invariant
            i <= datasets.len(),
            all == entries_model(datasets@),
            texts(r@) == covered_paths(all, i as int),
        decreases datasets.len() - i,
    {
        let e = &datasets[i];
        let ds = &e.dataset;
        let ghost em = all[i as int];
        assert(em == e.model());
        let ghost start = texts(r@);
        if let Some(inc) = &ds.include_spec {
            if inc.resolved.is_some() {
                let ghost prior = r@;
                r.push(e.path.clone());
                assert(texts(r@) =~= texts(prior).push(e.path@));
            }
        }
        let ghost own: Seq<Seq<char>> = match em.dataset.include_spec {
            Some(inc) => if inc.resolved is Some {
                seq![em.path]
            } else {
                Seq::empty()
            },
            None => Seq::empty(),
        };
        assert(texts(r@) =~= start + own);
        let ghost um = uses_of(em.dataset);
        let uses = for_each_list_link(&ds.links, &ds.data);
        let mut k: usize = 0;
        assert(texts(r@) =~= start + own + linked_keys(em, um, 0));
        while k < uses.len()
            invariant
                k <= uses.len(),
                em == e.model(),
                *ds == e.dataset,
                um == uses_of(em.dataset),
                um == uses_model(uses@),
                texts(r@) == start + own + linked_keys(em, um, k as int),
            decreases uses.len() - k,
        {
            let (f, l) = uses[k];
            proof {
                assert(um[k as int] == (f.model(), l as int));
                lemma_uses(em.dataset.links, em.dataset.data, 0, k as int);
                assert(em.dataset.links[l as int] == ds.links[l as int].model());
            }
            if ds.links[l].resolved.is_some() {
                let ghost prior = r@;
                let key = linked_lower_cover_path(&e.path, &f.name);
                r.push(key);
                assert(texts(r@) =~= texts(prior).push(key@));
            }
            k += 1;
            assert(texts(r@) =~= start + own + linked_keys(em, um, k as int));
        }
        i += 1;
    }
    r
}

} // verus!
