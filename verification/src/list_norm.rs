//! Rescaling of list items so that every list adds up to a declared total.
use vstd::prelude::*;

use crate::columns::{column_at, find_column};
use crate::message::{join2, join3, join4, problem, problem_of, said, PartModel, Problem};
use crate::models::{
    clone_opt_data_quality, default_field_model, entries_model, fields_model, replace_data,
    with_data, DatasetEntry, Field, FieldModel, Normalize, NormalizeModel, Num,
};
use crate::segment::{
    count_of, largest_remainder, law_rounding_conserves_total, lemma_total_prefix, total_of,
};
use crate::text::{decimal, decimal_text, opt_text, texts};

verus! {

// ---------------------------------------------------------------------------
// From declarations to expressions
// ---------------------------------------------------------------------------

/// A signed number in decimal notation.
pub open spec fn signed_text(n: int) -> Seq<char> {
    if n < 0 {
        "-"@ + decimal_text((-n) as nat)
    } else {
        decimal_text(n as nat)
    }
}

fn signed_decimal(n: i32) -> (r: String)
    ensures
        r@ == signed_text(n as int),
{
    if n < 0 {
        let d = decimal((-(n as i64)) as u64);
        join2("-", &d)
    } else {
        decimal(n as u64)
    }
}

/// The column that holds the items before rescaling.
pub open spec fn source_name(name: Seq<char>) -> Seq<char> {
    name + "__norm_src"@
}

/// The trailing precision argument, if there is one.
pub open spec fn precision_argument(precision: Option<i32>) -> Seq<char> {
    match precision {
        Some(p) => ", "@ + signed_text(p as int),
        None => Seq::empty(),
    }
}

/// The call that rescales the items of `src`; `total` is how the total is written.
pub open spec fn normalize_call(src: Seq<char>, total: Seq<char>, n: NormalizeModel) -> Seq<char> {
    match n.field {
        None => "array_normalize(\""@ + src + "\", "@ + total + precision_argument(n.precision)
            + ")"@,
        Some(f) => match n.into {
            None => "array_normalize_field(\""@ + src + "\", '"@ + f + "', "@ + total
                + precision_argument(n.precision) + ")"@,
            Some(into) => "array_normalize_field(\""@ + src + "\", '"@ + f + "', "@ + total + ", '"@
                + into + "'"@ + precision_argument(n.precision) + ")"@,
        },
    }
}

/// The call that rescales the items of a column; `total` is how the total is written.
pub fn build_normalize_expression(src_name: &str, total: &str, norm: &Normalize) -> (r: String)
    ensures
        r@ == normalize_call(src_name@, total@, norm.model()),
{
    let precision: String = match norm.precision {
        Some(p) => {
            let d = signed_decimal(p);
            join2(", ", &d)
        },
        None => "".to_owned(),
    };
    proof {
        reveal_strlit("");
        assert(precision@ =~= precision_argument(norm.precision));
        assert(norm.model().field == opt_text(norm.field));
        assert(norm.model().into == opt_text(norm.into));
    }
    match &norm.field {
        None => join4("array_normalize(\"", src_name, "\", ", total).concat(&precision).concat(")"),
        Some(f) => {
            let head = join4("array_normalize_field(\"", src_name, "\", '", f).concat("', ").concat(
                total,
            );
            match &norm.into {
                None => head.concat(&precision).concat(")"),
                Some(into) => head.concat(", '").concat(into).concat("'").concat(&precision).concat(
                    ")",
                ),
            }
        },
    }
}

/// The hidden field that produces the items before rescaling.
pub open spec fn source_field(f: FieldModel) -> FieldModel {
    FieldModel {
        name: source_name(f.name),
        hidden: true,
        normalize: None,
        quality: None,
        ..f
    }
}

/// The computed field that rescales them.
pub open spec fn rescaled_field(f: FieldModel, total: Seq<char>) -> FieldModel {
    FieldModel {
        name: f.name,
        expression: Some(normalize_call(source_name(f.name), total, f.normalize->0)),
        hidden: f.hidden,
        quality: f.quality,
        ..default_field_model()
    }
}

/// The first `n` fields, each that asks for rescaling replaced by its source and the computed
/// field behind it.
pub open spec fn desugared(fields: Seq<FieldModel>, totals: Seq<Seq<char>>, n: int) -> Seq<
    FieldModel,
>
    decreases n,
{
    if n <= 0 {
        Seq::empty()
    } else {
        let before = desugared(fields, totals, n - 1);
        let f = fields[n - 1];
        if f.normalize is None {
            before.push(f)
        } else {
            before.push(source_field(f)).push(rescaled_field(f, totals[n - 1]))
        }
    }
}

fn desugar_fields(fields: &Vec<Field>, totals: &Vec<String>) -> (r: Vec<Field>)
    requires
        totals.len() == fields.len(),
    ensures
        fields_model(r@) == desugared(
            fields_model(fields@),
            texts(totals@),
            fields@.len() as int,
        ),
{
    let ghost fm = fields_model(fields@);
    let ghost tm = texts(totals@);
    let mut r: Vec<Field> = Vec::new();
    let mut i: usize = 0;
    assert(fields_model(r@) =~= Seq::empty());
    while i < fields.len()
        invariant
            i <= fields.len(),
            totals.len() == fields.len(),
            fm == fields_model(fields@),
            tm == texts(totals@),
            fields_model(r@) == desugared(fm, tm, i as int),
        decreases fields.len() - i,
    {
        let f = &fields[i];
        assert(fm[i as int] == f.model());
        assert(tm[i as int] == totals[i as int]@);
        let ghost before = r@;
        match &f.normalize {
            None => {
                let g = f.clone();
                r.push(g);
                assert(fields_model(r@) =~= fields_model(before).push(g.model()));
            },
            Some(norm) => {
                assert(f.model().normalize == Some(norm.model()));
                let src = join2(&f.name, "__norm_src");
                let call = build_normalize_expression(&src, &totals[i], norm);
                let mut g = f.clone();
                let quality = clone_opt_data_quality(&f.quality);
                g.name = src;
                g.hidden = true;
                g.normalize = None;
                g.quality = None;
                assert(g.model() == source_field(f.model()));
                let mut c: Field = Default::default();
                c.name = f.name.clone();
                c.expression = Some(call);
                c.hidden = f.hidden;
                c.quality = quality;
                assert(c.model() == rescaled_field(f.model(), totals[i as int]@));
                r.push(g);
                let ghost middle = r@;
                assert(fields_model(middle) =~= fields_model(before).push(g.model()));
                r.push(c);
                assert(fields_model(r@) =~= fields_model(middle).push(c.model()));
            },
        }
        i += 1;
    }
    r
}

/// Turns every declared rescaling into a computed field behind a hidden source. `totals` holds,
/// for each field of each dataset, how its total is written; it matters only where a field asks
/// for rescaling.
pub fn desugar_normalize(datasets: &Vec<DatasetEntry>, totals: &Vec<Vec<String>>) -> (r: Vec<
    DatasetEntry,
>)
    requires
        totals.len() == datasets.len(),
        forall|i: int|
            0 <= i < totals.len() ==> (#[trigger] totals[i]).len() == datasets[i].dataset.data.len(),
    ensures
        entries_model(r@) == Seq::new(
            datasets@.len(),
            |i: int|
                with_data(
                    datasets@[i].model(),
                    desugared(
                        datasets@[i].model().dataset.data,
                        texts(totals@[i]@),
                        datasets@[i].model().dataset.data.len() as int,
                    ),
                ),
        ),
{
    let mut data: Vec<Vec<Field>> = Vec::new();
    let mut i: usize = 0;
    while i < datasets.len()
        invariant
            i <= datasets.len(),
            totals.len() == datasets.len(),
            forall|j: int|
                0 <= j < totals.len() ==> (#[trigger] totals[j]).len()
                    == datasets[j].dataset.data.len(),
            data.len() == i,
            forall|j: int|
                0 <= j < i ==> fields_model((#[trigger] data[j])@) == desugared(
                    datasets[j].model().dataset.data,
                    texts(totals[j]@),
                    datasets[j].model().dataset.data.len() as int,
                ),
        decreases datasets.len() - i,
    {
        let e = &datasets[i];
        assert(totals[i as int].len() == e.dataset.data.len());
        assert(e.model().dataset.data == fields_model(e.dataset.data@));
        let fields = desugar_fields(&e.dataset.data, &totals[i]);
        data.push(fields);
        i += 1;
    }
    let r = replace_data(datasets, &data);
    proof {
        let want = Seq::new(
            datasets@.len(),
            |i: int|
                with_data(
                    datasets@[i].model(),
                    desugared(
                        datasets@[i].model().dataset.data,
                        texts(totals@[i]@),
                        datasets@[i].model().dataset.data.len() as int,
                    ),
                ),
        );
        assert forall|i: int| 0 <= i < datasets.len() implies #[trigger] entries_model(r@)[i]
            == want[i] by {
            assert(fields_model(data[i]@) == desugared(
                datasets[i].model().dataset.data,
                texts(totals[i]@),
                datasets[i].model().dataset.data.len() as int,
            ));
        }
        assert(entries_model(r@) =~= want);
    }
    r
}

/// After the rewriting no field asks for rescaling any more.
pub proof fn law_desugaring_is_complete(
    fields: Seq<FieldModel>,
    totals: Seq<Seq<char>>,
    n: int,
    i: int,
)
    requires
        0 <= n <= fields.len(),
        0 <= i < desugared(fields, totals, n).len(),
    ensures
        desugared(fields, totals, n)[i].normalize is None,
    decreases n,
{
    if n > 0 {
        let before = desugared(fields, totals, n - 1);
        if i < before.len() {
            law_desugaring_is_complete(fields, totals, n - 1, i);
        }
    }
}

/// Fields without rescaling stay as they are.
pub proof fn law_plain_fields_stay(fields: Seq<FieldModel>, totals: Seq<Seq<char>>, n: int)
    requires
        0 <= n <= fields.len(),
        forall|i: int| 0 <= i < fields.len() ==> (#[trigger] fields[i]).normalize is None,
    ensures
        desugared(fields, totals, n) == fields.subrange(0, n),
    decreases n,
{
    if n > 0 {
        law_plain_fields_stay(fields, totals, n - 1);
    }
    assert(desugared(fields, totals, n) =~= fields.subrange(0, n));
}

// ---------------------------------------------------------------------------
// Rescaling
// ---------------------------------------------------------------------------

/// Whether rescaled items are whole: an explicit precision decides, else the items themselves.
pub open spec fn whole_output(whole_items: bool, precision: Option<i32>) -> bool {
    match precision {
        Some(p) => p == 0,
        None => whole_items,
    }
}

/// Whether rescaled items are whole numbers.
pub fn out_is_int(whole_items: bool, precision: Option<i32>) -> (r: bool)
    ensures
        r == whole_output(whole_items, precision),
{
    match precision {
        Some(p) => p == 0,
        None => whole_items,
    }
}

/// The `i`th part of an even split of `total` in `n` parts: the first ones get one more where it
/// does not come out even.
pub open spec fn even_part(total: int, n: int, i: int) -> int {
    total / n + (if i < total % n {
        1int
    } else {
        0int
    })
}

/// The item `i` of a list after rescaling: its rounded share, or an even part where the list has
/// no weight.
pub open spec fn window_item(
    floors: Seq<usize>,
    fracs: Seq<Num>,
    sum: Num,
    total: int,
    i: int,
) -> int {
    if sum.at_most(Num::zero()) {
        even_part(total, floors.len() as int, i)
    } else {
        count_of(floors, fracs, sum, total, i)
    }
}

/// The whole shares are those of an exact split of `total`: they fall short of it by no more than
/// one per item.
pub open spec fn splits(floors: Seq<usize>, total: int) -> bool {
    total_of(floors) <= total <= total_of(floors) + floors.len()
}

fn split_evenly(n: usize, total: usize) -> (r: Vec<i64>)
    requires
        n > 0,
        total <= i64::MAX,
    ensures
        r.len() == n,
        forall|i: int| 0 <= i < n ==> #[trigger] r[i] == even_part(total as int, n as int, i),
        sum_of(r@) == total,
{
    let share: usize = total / n;
    let more: usize = total % n;
    proof {
        vstd::arithmetic::div_mod::lemma_fundamental_div_mod(total as int, n as int);
        assert(share * 1 <= share * n) by (nonlinear_arith)
            requires
                n >= 1,
                share >= 0,
        ;
        assert(n * share == share * n) by (nonlinear_arith);
    }
    let mut r: Vec<i64> = Vec::new();
    let mut i: usize = 0;
    while i < n
        invariant
            i <= n,
            n > 0,
            share == total / n,
            more == total % n,
            more > 0 ==> share < total,
            total <= i64::MAX,
            share <= i64::MAX,
            r.len() == i,
            forall|j: int| 0 <= j < i ==> #[trigger] r[j] == even_part(total as int, n as int, j),
            sum_of(r@) == share * i + (if i < more {
                i as int
            } else {
                more as int
            }),
        decreases n - i,
    {
        let ghost before = r@;
        let part: usize = if i < more { share + 1 } else { share };
        r.push(part as i64);
        proof {
            assert(r@.drop_last() =~= before);
            assert(share * (i + 1) == share * i + share) by (nonlinear_arith);
        }
        i += 1;
    }
    r
}

/// Rescales one list to whole numbers that add up to `total`, given the whole parts and the
/// fractions of the exact shares, and the sum of the items. A list without weight is split evenly.
pub fn normalize_window_int(floors: &Vec<usize>, fracs: &Vec<Num>, sum: Num, total: usize) -> (r:
    Vec<i64>)
    requires
        floors.len() == fracs.len(),
        total <= i64::MAX,
        total_of(floors@) < i64::MAX,
        total_of(floors@) <= usize::MAX,
    ensures
        r.len() == floors.len(),
        forall|i: int|
            0 <= i < r.len() ==> #[trigger] r[i] == window_item(
                floors@,
                fracs@,
                sum,
                total as int,
                i,
            ),
        r.len() > 0 && (sum.at_most(Num::zero()) || splits(floors@, total as int)) ==> sum_of(r@) == total,
{
    let n: usize = floors.len();
    let mut r: Vec<i64> = Vec::new();
    if n == 0 {
        return r;
    }
    if sum.le(Num { key: 0 }) {
        return split_evenly(n, total);
    }
    let counts = largest_remainder(floors, fracs, sum, total);
    proof {
        if splits(floors@, total as int) {
            law_rounding_conserves_total(floors@, fracs@, total as int, counts@);
        }
    }
    let mut i: usize = 0;
    assert(counts@.subrange(0, 0).len() == 0);
    while i < n
        invariant
            i <= n,
            n == counts.len(),
            n == floors.len(),
            total_of(floors@) < i64::MAX,
            !sum.at_most(Num::zero()),
            forall|j: int|
                0 <= j < n ==> #[trigger] counts[j] == count_of(
                    floors@,
                    fracs@,
                    sum,
                    total as int,
                    j,
                ),
            r.len() == i,
            forall|j: int| 0 <= j < i ==> #[trigger] r[j] == counts[j],
            sum_of(r@) == total_of(counts@.subrange(0, i as int)),
        decreases n - i,
    {
        proof {
            lemma_total_prefix(floors@, i + 1);
            lemma_total_prefix(floors@, i as int);
            assert(floors@.subrange(0, i + 1).drop_last() =~= floors@.subrange(0, i as int));
            assert(floors@.subrange(0, i + 1).last() == floors@[i as int]);
            assert(counts@[i as int] <= floors@[i as int] + 1);
            assert(counts@.subrange(0, i + 1).drop_last() =~= counts@.subrange(0, i as int));
            assert(counts@.subrange(0, i + 1).last() == counts@[i as int]);
        }
        let ghost before = r@;
        r.push(counts[i] as i64);
        assert(r@.drop_last() =~= before);
        i += 1;
    }
    assert(counts@.subrange(0, n as int) =~= counts@);
    r
}

/// The sum of a list of whole numbers.
pub open spec fn sum_of(s: Seq<i64>) -> int
    decreases s.len(),
{
    if s.len() == 0 {
        0
    } else {
        sum_of(s.drop_last()) + s.last()
    }
}

/// The offsets of lists in a run of items.
pub open spec fn offsets_fit(offsets: Seq<usize>, items: nat) -> bool {
    &&& forall|i: int, j: int|
        0 <= i <= j < offsets.len() ==> #[trigger] offsets[i] <= #[trigger] offsets[j]
    &&& forall|i: int| 0 <= i < offsets.len() ==> #[trigger] offsets[i] <= items
}

/// The whole shares of list `w`.
pub open spec fn list_part(offsets: Seq<usize>, floors: Seq<usize>, w: int) -> Seq<usize> {
    floors.subrange(offsets[w] as int, offsets[w + 1] as int)
}

/// The item `k` of list `w` after rescaling.
pub open spec fn rescaled_item(
    offsets: Seq<usize>,
    floors: Seq<usize>,
    fracs: Seq<Num>,
    sums: Seq<Num>,
    total: int,
    w: int,
    k: int,
) -> int {
    window_item(
        list_part(offsets, floors, w),
        fracs.subrange(offsets[w] as int, offsets[w + 1] as int),
        sums[w],
        total,
        k,
    )
}

/// The first `n` lists are rescaled in `out`.
pub open spec fn lists_rescaled(
    offsets: Seq<usize>,
    floors: Seq<usize>,
    fracs: Seq<Num>,
    sums: Seq<Num>,
    total: int,
    out: Seq<i64>,
    n: int,
) -> bool {
    forall|w: int, k: int|
        0 <= w < n && 0 <= k < offsets[w + 1] - offsets[w] ==> out[offsets[w] + k]
            == #[trigger] rescaled_item(offsets, floors, fracs, sums, total, w, k)
}

/// Those of the first `n` lists add up to `total` in `out` that are not empty and whose shares are
/// those of an exact split, or that have no weight.
pub open spec fn lists_add_up(
    offsets: Seq<usize>,
    floors: Seq<usize>,
    sums: Seq<Num>,
    total: int,
    out: Seq<i64>,
    n: int,
) -> bool {
    forall|w: int|
        0 <= w < n && offsets[w] < offsets[w + 1] && (sums[w].at_most(Num::zero()) || splits(
            list_part(offsets, floors, w),
            total,
        )) ==> #[trigger] list_sum(offsets, out, w) == total
}

/// The sum of the items of list `w`.
pub open spec fn list_sum(offsets: Seq<usize>, out: Seq<i64>, w: int) -> int {
    sum_of(out.subrange(offsets[w] as int, offsets[w + 1] as int))
}

fn part_of(v: &Vec<usize>, from: usize, to: usize) -> (r: Vec<usize>)
    requires
        from <= to <= v.len(),
    ensures
        r@ == v@.subrange(from as int, to as int),
{
    let mut r: Vec<usize> = Vec::new();
    let mut i: usize = from;
    while i < to
        invariant
            from <= i <= to <= v.len(),
            r@ == v@.subrange(from as int, i as int),
        decreases to - i,
    {
        r.push(v[i]);
        i += 1;
        assert(r@ =~= v@.subrange(from as int, i as int));
    }
    r
}

fn fraction_part_of(v: &Vec<Num>, from: usize, to: usize) -> (r: Vec<Num>)
    requires
        from <= to <= v.len(),
    ensures
        r@ == v@.subrange(from as int, to as int),
{
    let mut r: Vec<Num> = Vec::new();
    let mut i: usize = from;
    while i < to
        invariant
            from <= i <= to <= v.len(),
            r@ == v@.subrange(from as int, i as int),
        decreases to - i,
    {
        r.push(v[i]);
        i += 1;
        assert(r@ =~= v@.subrange(from as int, i as int));
    }
    r
}

/// Rescales every list of a run of items to whole numbers; items outside all lists become zero.
/// `sums` holds the sum of the items of each list.
pub fn normalize_flat(
    offsets: &Vec<usize>,
    floors: &Vec<usize>,
    fracs: &Vec<Num>,
    sums: &Vec<Num>,
    total: usize,
) -> (r: Vec<i64>)
    requires
        floors.len() == fracs.len(),
        total <= i64::MAX,
        offsets_fit(offsets@, floors@.len()),
        offsets.len() > 0 ==> sums.len() == offsets.len() - 1,
        forall|w: int|
            0 <= w < offsets.len() - 1 ==> total_of(#[trigger] list_part(offsets@, floors@, w))
                < i64::MAX && total_of(list_part(offsets@, floors@, w)) <= usize::MAX,
    ensures
        r.len() == floors.len(),
        lists_rescaled(offsets@, floors@, fracs@, sums@, total as int, r@, offsets@.len() - 1),
        lists_add_up(offsets@, floors@, sums@, total as int, r@, offsets@.len() - 1),
        forall|i: int|
            0 <= i < r.len() && (offsets.len() == 0 || i < offsets[0] || i >= offsets[
                offsets.len() - 1
            ]) ==> #[trigger] r[i] == 0,
{
    let n: usize = floors.len();
    let mut r: Vec<i64> = Vec::new();
    let mut i: usize = 0;
    while i < n
        invariant
            i <= n,
            r.len() == i,
            forall|j: int| 0 <= j < i ==> #[trigger] r[j] == 0,
        decreases n - i,
    {
        r.push(0);
        i += 1;
    }
    if offsets.len() == 0 {
        return r;
    }
    let last: usize = offsets.len() - 1;
    let mut w: usize = 0;
    while w < last
        invariant
            w <= last,
            last == offsets.len() - 1,
            n == floors.len(),
            floors.len() == fracs.len(),
            total <= i64::MAX,
            offsets_fit(offsets@, floors@.len()),
            sums.len() == offsets.len() - 1,
            forall|a: int|
                0 <= a < offsets.len() - 1 ==> total_of(#[trigger] list_part(offsets@, floors@, a))
                    < i64::MAX && total_of(list_part(offsets@, floors@, a)) <= usize::MAX,
            r.len() == n,
            lists_rescaled(offsets@, floors@, fracs@, sums@, total as int, r@, w as int),
            lists_add_up(offsets@, floors@, sums@, total as int, r@, w as int),
            forall|j: int|
                0 <= j < r.len() && (j < offsets[0] || j >= offsets[w as int]) ==> #[trigger] r[j]
                    == 0,
        decreases last - w,
    {
        let s: usize = offsets[w];
        let e: usize = offsets[w + 1];
        assert(offsets@[w as int] <= offsets@[w + 1]);
        assert(offsets@[0] <= offsets@[w as int]);
        assert(total_of(list_part(offsets@, floors@, w as int)) < i64::MAX);
        let f = part_of(floors, s, e);
        let g = fraction_part_of(fracs, s, e);
        let items = normalize_window_int(&f, &g, sums[w], total);
        let ghost before = r@;
        let mut k: usize = 0;
        while k < items.len()
            invariant
                k <= items.len(),
                items.len() == e - s,
                s <= e <= n,
                r.len() == n,
                before.len() == n,
                forall|j: int| 0 <= j < n && (j < s || j >= s + k) ==> #[trigger] r[j] == before[j],
                forall|j: int| s <= j < s + k ==> #[trigger] r[j] == items[j - s],
            decreases items.len() - k,
        {
            r.set(s + k, items[k]);
            k += 1;
        }
        proof {
            assert forall|a: int, b: int|
                0 <= a < w + 1 && 0 <= b < offsets@[a + 1] - offsets@[a] implies r@[offsets@[a] + b]
                == #[trigger] rescaled_item(offsets@, floors@, fracs@, sums@, total as int, a, b) by {
                if a < w {
                    assert(offsets@[a + 1] <= offsets@[w as int]);
                    assert(before[offsets@[a] + b] == rescaled_item(
                        offsets@,
                        floors@,
                        fracs@,
                        sums@,
                        total as int,
                        a,
                        b,
                    ));
                    assert(r@[offsets@[a] + b] == before[offsets@[a] + b]);
                } else {
                    assert(r@[s + b] == items[b]);
                }
            }
            assert forall|a: int|
                0 <= a < w + 1 && offsets@[a] < offsets@[a + 1] && (sums@[a].at_most(Num::zero()) || splits(
                    list_part(offsets@, floors@, a),
                    total as int,
                )) implies #[trigger] list_sum(offsets@, r@, a) == total by {
                if a < w {
                    assert(offsets@[a + 1] <= offsets@[w as int]);
                    assert(r@.subrange(offsets@[a] as int, offsets@[a + 1] as int)
                        =~= before.subrange(offsets@[a] as int, offsets@[a + 1] as int));
                    assert(list_sum(offsets@, before, a) == total);
                } else {
                    assert(r@.subrange(s as int, e as int) =~= items@);
                }
            }
        }
        w += 1;
    }
    r
}

// ---------------------------------------------------------------------------
// Arguments
// ---------------------------------------------------------------------------

/// An argument of a rescaling call, as far as it can be read as a text, a number or an integer.
#[derive(Debug)]
pub struct ScalarArg {
    pub text: Option<String>,
    pub number: Option<Num>,
    pub integer: Option<i32>,
}

/// The trailing arguments of a rescaling call on records.
#[derive(Debug)]
pub struct FieldArgs {
    pub total: Num,
    pub into: Option<String>,
    pub precision: Option<i32>,
}

/// What [`FieldArgs`] say, free of representation.
pub struct FieldArgsModel {
    pub total: Num,
    pub into: Option<Seq<char>>,
    pub precision: Option<i32>,
}

impl FieldArgs {
    /// The content of this value, free of representation.
    pub open spec fn model(self) -> FieldArgsModel {
        FieldArgsModel { total: self.total, into: opt_text(self.into), precision: self.precision }
    }
}

/// The destination and precision among the first `n` arguments; the last of each counts.
pub open spec fn tail_of(args: Seq<Option<ScalarArg>>, n: int) -> Result<
    (Option<Seq<char>>, Option<i32>),
    Seq<PartModel>,
>
    decreases n,
{
    if n <= 1 {
        Ok((None, None))
    } else {
        match tail_of(args, n - 1) {
            Err(p) => Err(p),
            Ok((into, precision)) => match args[n - 1] {
                None => Ok((into, precision)),
                Some(a) => match a.text {
                    Some(t) => Ok((Some(t@), precision)),
                    None => match a.integer {
                        Some(p) => Ok((into, Some(p))),
                        None => Err(
                            said("array_normalize: `precision` must be a non-null integer"@),
                        ),
                    },
                },
            },
        }
    }
}

/// The trailing arguments: the total, and behind it a destination (a text) or a precision (an
/// integer), in any order.
pub open spec fn field_args(args: Seq<Option<ScalarArg>>) -> Result<FieldArgsModel, Seq<PartModel>> {
    if args.len() == 0 || args[0] is None {
        Err(said("array_normalize_field: missing `total`"@))
    } else {
        match args[0]->0.number {
            None => Err(said("array_normalize: `total` must be a non-null number"@)),
            Some(total) => match tail_of(args, args.len() as int) {
                Err(p) => Err(p),
                Ok((into, precision)) => Ok(FieldArgsModel { total, into, precision }),
            },
        }
    }
}

proof fn lemma_tail_error_stays(args: Seq<Option<ScalarArg>>, k: int, n: int)
    requires
        1 <= k <= n,
        tail_of(args, k) is Err,
    ensures
        tail_of(args, n) == tail_of(args, k),
    decreases n - k,
{
    if k < n {
        lemma_tail_error_stays(args, k, n - 1);
    }
}

/// Reads the trailing arguments of a rescaling call on records.
pub fn parse_field_tail(args: &Vec<Option<ScalarArg>>) -> (r: Result<FieldArgs, Problem>)
    ensures
        match r {
            Ok(a) => field_args(args@) == Ok::<FieldArgsModel, Seq<PartModel>>(a.model()),
            Err(p) => field_args(args@) == Err::<FieldArgsModel, Seq<PartModel>>(p.model()),
        },
{
    if args.len() == 0 {
        return Err(problem("array_normalize_field: missing `total`".to_owned()));
    }
    let total = match &args[0] {
        None => {
            return Err(problem("array_normalize_field: missing `total`".to_owned()));
        },
        Some(a) => match a.number {
            None => {
                return Err(
                    problem("array_normalize: `total` must be a non-null number".to_owned()),
                );
            },
            Some(t) => t,
        },
    };
    let mut into: Option<String> = None;
    let mut precision: Option<i32> = None;
    let mut i: usize = 1;
    while i < args.len()
        invariant
            1 <= i <= args.len(),
            args@[0] is Some,
            args@[0]->0.number == Some(total),
            tail_of(args@, i as int) == Ok::<(Option<Seq<char>>, Option<i32>), Seq<PartModel>>(
                (opt_text(into), precision),
            ),
        decreases args.len() - i,
    {
        if let Some(a) = &args[i] {
            match &a.text {
                Some(t) => {
                    into = Some(t.clone());
                },
                None => match a.integer {
                    Some(p) => {
                        precision = Some(p);
                    },
                    None => {
                        proof {
                            lemma_tail_error_stays(args@, i + 1, args@.len() as int);
                        }
                        return Err(
                            problem(
                                "array_normalize: `precision` must be a non-null integer".to_owned(),
                            ),
                        );
                    },
                },
            }
        }
        i += 1;
    }
    Ok(FieldArgs { total, into, precision })
}

/// Where the rescaled entry goes: behind the entries of the record, or in place of one.
#[derive(Debug, Clone, Copy, PartialEq, Eq, Structural)]
pub enum EntryTarget {
    Append { source: usize },
    Replace { source: usize },
}

/// Finds the entry to rescale, and where the result goes.
pub fn field_output_fields(names: &Vec<String>, src: &str, into: &Option<String>) -> (r: Result<
    EntryTarget,
    Problem,
>)
    ensures
        match column_at(texts(names@), src@, 0) {
            Some(i) => r == Ok::<EntryTarget, Problem>(
                if into is Some {
                    EntryTarget::Append { source: i as usize }
                } else {
                    EntryTarget::Replace { source: i as usize }
                },
            ),
            None => problem_of(r) == Some(
                said("array_normalize_field: no sub-field '"@ + src@ + "'"@),
            ),
        },
{
    match find_column(names, src) {
        Some(source) => if into.is_some() {
            Ok(EntryTarget::Append { source })
        } else {
            Ok(EntryTarget::Replace { source })
        },
        None => Err(problem(join3("array_normalize_field: no sub-field '", src, "'"))),
    }
}

} // verus!
