//! How many rows each dataset gets: declared counts, counts derived from a parent or a child, and
//! a default for the rest.
//!
//! A derived count is a rounded product of a known count and a ratio. [`RowPlanner`] decides which
//! count is derived next and from what; the product itself comes from outside.
use vstd::prelude::*;

use crate::models::{
    dataset_position, entries_model, target_of, find_target, CountSpec, DatasetEntry,
    DatasetEntryModel, IncludeModel, Num, SyntheticDatasetModel, ONE_KEY,
};
use crate::text::same_text;

verus! {

/// Rows of a dataset whose count neither is declared nor can be derived.
pub const DEFAULT_ROWS: usize = 100;

/// A count that is to be derived next.
#[derive(Debug, Clone, Copy, PartialEq, Eq, Structural)]
pub enum RowRequest {
    /// The rows of the parent, times the ratio, times the expected cardinality where there is
    /// one, rounded after each product.
    FromParent { dataset: usize, rows: usize, ratio: Num, cardinality: Option<CountSpec> },
    /// The rows of a child divided by its ratio, rounded.
    FromChild { dataset: usize, rows: usize, ratio: Num },
    /// Nothing more can be derived.
    Done,
}

/// The known row counts, and where the planner stands in its pass over the datasets.
#[derive(Debug)]
pub struct RowPlanner {
    pub counts: Vec<Option<usize>>,
    pub at: usize,
    pub changed: bool,
}

/// How the count of dataset `i` follows from that of its parent.
pub open spec fn from_parent(
    all: Seq<DatasetEntryModel>,
    counts: Seq<Option<usize>>,
    i: int,
) -> Option<RowRequest> {
    match all[i].dataset.include_spec {
        None => None,
        Some(inc) => match target_of(all, inc) {
            None => None,
            Some(t) => match counts[t] {
                None => None,
                Some(rows) => Some(
                    RowRequest::FromParent {
                        dataset: i as usize,
                        rows,
                        ratio: match inc.ratio {
                            Some(r) => r,
                            None => Num { key: ONE_KEY },
                        },
                        cardinality: inc.cardinality,
                    },
                ),
            },
        },
    }
}

/// How the count of dataset `i` follows from the first child, from `c` on, that has a count and a
/// positive ratio.
pub open spec fn from_child(
    all: Seq<DatasetEntryModel>,
    counts: Seq<Option<usize>>,
    i: int,
    c: int,
) -> Option<RowRequest>
    decreases all.len() - c,
{
    if c < 0 || c >= all.len() {
        None
    } else {
        let here = match all[c].dataset.include_spec {
            None => None,
            Some(inc) => match inc.ratio {
                None => None,
                Some(r) => if Num::zero().below(r) && inc.resolved == Some(all[i].path) {
                    match counts[c] {
                        None => None,
                        Some(rows) => Some(
                            RowRequest::FromChild { dataset: i as usize, rows, ratio: r },
                        ),
                    }
                } else {
                    None
                },
            },
        };
        if here is Some {
            here
        } else {
            from_child(all, counts, i, c + 1)
        }
    }
}

/// How the count of dataset `i` is derived, if it is unknown and can be.
pub open spec fn request_for(
    all: Seq<DatasetEntryModel>,
    counts: Seq<Option<usize>>,
    i: int,
) -> Option<RowRequest> {
    if counts[i] is Some {
        None
    } else if from_parent(all, counts, i) is Some {
        from_parent(all, counts, i)
    } else {
        from_child(all, counts, i, 0)
    }
}

/// The first dataset, from `i` on, whose count can be derived.
pub open spec fn first_request(
    all: Seq<DatasetEntryModel>,
    counts: Seq<Option<usize>>,
    i: int,
) -> Option<int>
    decreases all.len() - i,
{
    if i < 0 || i >= all.len() {
        None
    } else if request_for(all, counts, i) is Some {
        Some(i)
    } else {
        first_request(all, counts, i + 1)
    }
}

/// The number of unknown counts among the first `n`.
pub open spec fn unknown_counts(counts: Seq<Option<usize>>, n: int) -> int
    decreases n,
{
    if n <= 0 {
        0
    } else {
        unknown_counts(counts, n - 1) + if counts[n - 1] is None {
            1int
        } else {
            0int
        }
    }
}

proof fn lemma_first_request(all: Seq<DatasetEntryModel>, counts: Seq<Option<usize>>, i: int)
    requires
        0 <= i,
    ensures
        match first_request(all, counts, i) {
            Some(j) => i <= j < all.len() && request_for(all, counts, j) is Some && forall|k: int|
                i <= k < j ==> #[trigger] request_for(all, counts, k) is None,
            None => forall|k: int|
                i <= k < all.len() ==> #[trigger] request_for(all, counts, k) is None,
        },
    decreases all.len() - i,
{
    if i < all.len() && request_for(all, counts, i) is None {
        lemma_first_request(all, counts, i + 1);
    }
}

proof fn lemma_unknown_update(counts: Seq<Option<usize>>, at: int, rows: usize, n: int)
    requires
        0 <= at < counts.len(),
        counts[at] is None,
        0 <= n <= counts.len(),
    ensures
        unknown_counts(counts.update(at, Some(rows)), n) == unknown_counts(counts, n) - if at < n {
            1int
        } else {
            0int
        },
    decreases n,
{
    if n > 0 {
        lemma_unknown_update(counts, at, rows, n - 1);
    }
}

impl RowPlanner {
    /// The planner belongs to these datasets, keeps their declared counts, and has passed over
    /// nothing that could be derived since the last change.
    pub open spec fn wf(self, all: Seq<DatasetEntryModel>) -> bool {
        &&& self.counts@.len() == all.len()
        &&& self.at <= all.len()
        &&& forall|i: int|
            0 <= i < all.len() && (#[trigger] all[i]).dataset.rows is Some ==> self.counts@[i]
                == all[i].dataset.rows
        &&& !self.changed ==> forall|i: int|
            0 <= i < self.at ==> #[trigger] request_for(all, self.counts@, i) is None
    }

    /// Starts with the declared counts.
    pub fn start(datasets: &Vec<DatasetEntry>) -> (r: Self)
        ensures
            r.wf(entries_model(datasets@)),
            r.at == 0,
            !r.changed,
            r.counts@ == Seq::new(datasets@.len(), |i: int| datasets@[i].dataset.rows),
    {
        let mut counts: Vec<Option<usize>> = Vec::new();
        let mut i: usize = 0;
        while i < datasets.len()
            invariant
                i <= datasets.len(),
                counts.len() == i,
                forall|j: int| 0 <= j < i ==> counts[j] == (#[trigger] datasets[j]).dataset.rows,
            decreases datasets.len() - i,
        {
            counts.push(datasets[i].dataset.rows);
            i += 1;
        }
        assert(counts@ =~= Seq::new(datasets@.len(), |i: int| datasets@[i].dataset.rows));
        RowPlanner { counts, at: 0, changed: false }
    }

    fn derive(&self, datasets: &Vec<DatasetEntry>, i: usize) -> (r: Option<RowRequest>)
        requires
            i < datasets.len(),
            self.counts.len() == datasets.len(),
        ensures
            r == request_for(entries_model(datasets@), self.counts@, i as int),
    {
        let ghost all = entries_model(datasets@);
        if self.counts[i].is_some() {
            return None;
        }
        assert(all[i as int] == datasets[i as int].model());
        if let Some(inc) = &datasets[i].dataset.include_spec {
            if let Some(t) = find_target(datasets, inc) {
                if let Some(rows) = self.counts[t] {
                    return Some(
                        RowRequest::FromParent {
                            dataset: i,
                            rows,
                            ratio: match inc.ratio {
                                Some(r) => r,
                                None => Num { key: ONE_KEY },
                            },
                            cardinality: inc.cardinality,
                        },
                    );
                }
            }
        }
        assert(from_parent(all, self.counts@, i as int) is None);
        let mut c: usize = 0;
        while c < datasets.len()
            invariant
                c <= datasets.len(),
                i < datasets.len(),
                all == entries_model(datasets@),
                all[i as int] == datasets[i as int].model(),
                self.counts.len() == datasets.len(),
                self.counts@[i as int] is None,
                from_parent(all, self.counts@, i as int) is None,
                from_child(all, self.counts@, i as int, 0) == from_child(
                    all,
                    self.counts@,
                    i as int,
                    c as int,
                ),
            decreases datasets.len() - c,
        {
            assert(all[c as int] == datasets[c as int].model());
            if let Some(inc) = &datasets[c].dataset.include_spec {
                if let Some(r) = inc.ratio {
                    if (Num { key: 0 }).lt(r) {
                        if let Some(p) = &inc.resolved {
                            if same_text(p, &datasets[i].path) {
                                if let Some(rows) = self.counts[c] {
                                    return Some(
                                        RowRequest::FromChild { dataset: i, rows, ratio: r },
                                    );
                                }
                            }
                        }
                    }
                }
            }
            c += 1;
        }
        None
    }

    fn seek(&self, datasets: &Vec<DatasetEntry>, from: usize) -> (r: Option<(usize, RowRequest)>)
        requires
            self.counts.len() == datasets.len(),
        ensures
            match r {
                Some((i, q)) => i < datasets.len() && first_request(
                    entries_model(datasets@),
                    self.counts@,
                    from as int,
                ) == Some(i as int) && request_for(
                    entries_model(datasets@),
                    self.counts@,
                    i as int,
                ) == Some(q),
                None => first_request(entries_model(datasets@), self.counts@, from as int) is None,
            },
    {
        let mut i: usize = from;
        while i < datasets.len()
            invariant
                from <= i,
                self.counts.len() == datasets.len(),
                first_request(entries_model(datasets@), self.counts@, from as int)
                    == first_request(entries_model(datasets@), self.counts@, i as int),
            decreases datasets.len() - i,
        {
            if let Some(q) = self.derive(datasets, i) {
                return Some((i, q));
            }
            i += 1;
        }
        None
    }

    /// The next count to derive: the first one in the rest of this pass, else, where this pass
    /// has derived something, the first one in a new pass.
    pub fn next(&mut self, datasets: &Vec<DatasetEntry>) -> (r: RowRequest)
        requires
            old(self).wf(entries_model(datasets@)),
        ensures
            final(self).wf(entries_model(datasets@)),
            final(self).counts@ == old(self).counts@,
            ({
                let all = entries_model(datasets@);
                let rest = first_request(all, old(self).counts@, old(self).at as int);
                let again = first_request(all, old(self).counts@, 0);
                let found = if rest is Some {
                    rest
                } else if old(self).changed {
                    again
                } else {
                    None
                };
                match found {
                    Some(i) => request_for(all, old(self).counts@, i) == Some(r) && final(self).at
                        == i,
                    None => r is Done && forall|i: int|
                        0 <= i < all.len() ==> #[trigger] request_for(all, old(self).counts@, i) is None,
                }
            }),
    {
        let ghost all = entries_model(datasets@);
        proof {
            lemma_first_request(all, self.counts@, self.at as int);
            lemma_first_request(all, self.counts@, 0);
        }
        if let Some((i, q)) = self.seek(datasets, self.at) {
            self.at = i;
            return q;
        }
        if self.changed {
            self.changed = false;
            self.at = 0;
            if let Some((i, q)) = self.seek(datasets, 0) {
                self.at = i;
                return q;
            }
        }
        RowRequest::Done
    }

    /// Takes the derived count of the dataset that the planner stands at; it is at least one.
    pub fn answer(&mut self, datasets: &Vec<DatasetEntry>, rows: usize)
        requires
            old(self).wf(entries_model(datasets@)),
            old(self).at < datasets.len(),
            old(self).counts@[old(self).at as int] is None,
        ensures
            final(self).wf(entries_model(datasets@)),
            final(self).counts@ == old(self).counts@.update(
                old(self).at as int,
                Some(if rows < 1 {
                    1
                } else {
                    rows
                }),
            ),
            final(self).changed,
            final(self).at == old(self).at + 1,
            unknown_counts(final(self).counts@, datasets.len() as int) < unknown_counts(
                old(self).counts@,
                datasets.len() as int,
            ),
    {
        let n: usize = if rows < 1 {
            1
        } else {
            rows
        };
        proof {
            lemma_unknown_update(self.counts@, self.at as int, n, datasets.len() as int);
        }
        let at = self.at;
        self.counts.set(at, Some(n));
        self.changed = true;
        self.at = at + 1;
    }

    /// The counts, with the default where nothing is known.
    pub fn finish(&self) -> (r: Vec<usize>)
        ensures
            r@ == Seq::new(
                self.counts@.len(),
                |i: int|
                    match self.counts@[i] {
                        Some(n) => n,
                        None => DEFAULT_ROWS,
                    },
            ),
    {
        let mut r: Vec<usize> = Vec::new();
        let mut i: usize = 0;
        while i < self.counts.len()
            invariant
                i <= self.counts.len(),
                r.len() == i,
                forall|j: int|
                    0 <= j < i ==> #[trigger] r[j] == match self.counts@[j] {
                        Some(n) => n,
                        None => DEFAULT_ROWS,
                    },
            decreases self.counts.len() - i,
        {
            r.push(
                match self.counts[i] {
                    Some(n) => n,
                    None => DEFAULT_ROWS,
                },
            );
            i += 1;
        }
        assert(r@ =~= Seq::new(
            self.counts@.len(),
            |i: int|
                match self.counts@[i] {
                    Some(n) => n,
                    None => DEFAULT_ROWS,
                },
        ));
        r
    }
}

/// A declared count is final: whatever else is derived, the dataset gets exactly these rows.
pub proof fn law_declared_rows_are_kept(p: RowPlanner, all: Seq<DatasetEntryModel>, i: int)
    requires
        p.wf(all),
        0 <= i < all.len(),
        all[i].dataset.rows is Some,
    ensures
        p.counts@[i] == all[i].dataset.rows,
        request_for(all, p.counts@, i) is None,
{
    assert(all[i].dataset.rows is Some);
}

/// Dataset `t` is the one that dataset `i` narrows: its include leads there, and to no earlier one.
pub open spec fn narrows(all: Seq<DatasetEntryModel>, i: int, t: int) -> bool {
    &&& 0 <= i < all.len()
    &&& 0 <= t < all.len()
    &&& all[i].dataset.include_spec is Some
    &&& all[i].dataset.include_spec->0.resolved == Some(all[t].path)
    &&& forall|j: int| 0 <= j < t ==> (#[trigger] all[j]).path != all[t].path
}

proof fn lemma_first_position(all: Seq<DatasetEntryModel>, path: Seq<char>, from: int)
    requires
        0 <= from,
    ensures
        match dataset_position(all, path, from) {
            Some(t) => from <= t < all.len() && all[t].path == path && forall|j: int|
                from <= j < t ==> (#[trigger] all[j]).path != path,
            None => forall|j: int| from <= j < all.len() ==> (#[trigger] all[j]).path != path,
        },
    decreases all.len() - from,
{
    if from < all.len() && all[from].path != path {
        lemma_first_position(all, path, from + 1);
    }
}

/// A dataset without a count that narrows one with a count is derived from it: the request names
/// the dataset and the rows of the narrowed one, its ratio is the declared one, and a dataset that
/// declares none takes every row. The declared cardinality comes along.
pub proof fn law_narrowing_asks_for_a_share_of_the_parent(
    all: Seq<DatasetEntryModel>,
    counts: Seq<Option<usize>>,
    i: int,
    t: int,
)
    requires
        all.len() <= usize::MAX,
        narrows(all, i, t),
        counts[i] is None,
        counts[t] is Some,
    ensures
        request_for(all, counts, i) is Some,
        request_for(all, counts, i)->0 is FromParent,
        request_for(all, counts, i)->0->FromParent_dataset == i,
        request_for(all, counts, i)->0->FromParent_rows == counts[t]->0,
        all[i].dataset.include_spec->0.ratio is Some ==> Some(
            request_for(all, counts, i)->0->FromParent_ratio,
        ) == all[i].dataset.include_spec->0.ratio,
        all[i].dataset.include_spec->0.ratio is None ==> request_for(
            all,
            counts,
            i,
        )->0->FromParent_ratio == Num::one(),
        request_for(all, counts, i)->0->cardinality == all[i].dataset.include_spec->0.cardinality,
{
    lemma_first_position(all, all[t].path, 0);
}

/// The same datasets, with another ratio declared for dataset `i`.
pub open spec fn with_ratio(all: Seq<DatasetEntryModel>, i: int, ratio: Option<Num>) -> Seq<
    DatasetEntryModel,
> {
    all.update(
        i,
        DatasetEntryModel {
            path: all[i].path,
            dataset: SyntheticDatasetModel {
                include_spec: Some(IncludeModel { ratio, ..all[i].dataset.include_spec->0 }),
                ..all[i].dataset
            },
        },
    )
}

/// A missing ratio and a ratio of one ask for the same rows.
pub proof fn law_missing_ratio_is_one(
    all: Seq<DatasetEntryModel>,
    counts: Seq<Option<usize>>,
    i: int,
    t: int,
)
    requires
        all.len() <= usize::MAX,
        narrows(all, i, t),
        counts[i] is None,
        counts[t] is Some,
    ensures
        request_for(with_ratio(all, i, None), counts, i) == request_for(
            with_ratio(all, i, Some(Num::one())),
            counts,
            i,
        ),
{
    let a = with_ratio(all, i, None);
    let b = with_ratio(all, i, Some(Num::one()));
    assert(narrows(a, i, t)) by {
        assert forall|j: int| 0 <= j < t implies (#[trigger] a[j]).path != a[t].path by {
            assert(all[j].path != all[t].path);
        }
    }
    assert(narrows(b, i, t)) by {
        assert forall|j: int| 0 <= j < t implies (#[trigger] b[j]).path != b[t].path by {
            assert(all[j].path != all[t].path);
        }
    }
    law_narrowing_asks_for_a_share_of_the_parent(a, counts, i, t);
    law_narrowing_asks_for_a_share_of_the_parent(b, counts, i, t);
}

/// Dataset `c` narrows the dataset at `path` by a positive ratio and has a count.
pub open spec fn tells_its_parent(
    all: Seq<DatasetEntryModel>,
    counts: Seq<Option<usize>>,
    c: int,
    path: Seq<char>,
) -> bool {
    &&& all[c].dataset.include_spec is Some
    &&& all[c].dataset.include_spec->0.resolved == Some(path)
    &&& all[c].dataset.include_spec->0.ratio is Some
    &&& all[c].dataset.include_spec->0.ratio->0.key > 0
    &&& !all[c].dataset.include_spec->0.ratio->0.nan()
    &&& counts[c] is Some
}

proof fn lemma_from_child(
    all: Seq<DatasetEntryModel>,
    counts: Seq<Option<usize>>,
    i: int,
    from: int,
)
    requires
        all.len() <= usize::MAX,
        0 <= i < all.len(),
        0 <= from,
    ensures
        from_child(all, counts, i, from) is None ==> forall|c: int|
            from <= c < all.len() ==> !#[trigger] tells_its_parent(all, counts, c, all[i].path),
        from_child(all, counts, i, from) matches Some(q) ==> exists|c: int|
            {
                &&& from <= c < all.len()
                &&& #[trigger] tells_its_parent(all, counts, c, all[i].path)
                &&& q == RowRequest::FromChild {
                    dataset: i as usize,
                    rows: counts[c]->0,
                    ratio: all[c].dataset.include_spec->0.ratio->0,
                }
                &&& forall|d: int|
                    from <= d < c ==> !#[trigger] tells_its_parent(all, counts, d, all[i].path)
            },
    decreases all.len() - from,
{
    if from < all.len() {
        if tells_its_parent(all, counts, from, all[i].path) {
        } else {
            lemma_from_child(all, counts, i, from + 1);
            assert(from_child(all, counts, i, from) == from_child(all, counts, i, from + 1));
            if from_child(all, counts, i, from) is Some {
                let c = choose|c: int|
                    {
                        &&& from + 1 <= c < all.len()
                        &&& #[trigger] tells_its_parent(all, counts, c, all[i].path)
                        &&& from_child(all, counts, i, from) == Some(
                            RowRequest::FromChild {
                                dataset: i as usize,
                                rows: counts[c]->0,
                                ratio: all[c].dataset.include_spec->0.ratio->0,
                            },
                        )
                        &&& forall|d: int|
                            from + 1 <= d < c ==> !#[trigger] tells_its_parent(
                                all,
                                counts,
                                d,
                                all[i].path,
                            )
                    };
                assert(tells_its_parent(all, counts, c, all[i].path));
                assert forall|d: int| from <= d < c implies !#[trigger] tells_its_parent(
                    all,
                    counts,
                    d,
                    all[i].path,
                ) by {
                    if d == from {
                    }
                }
            }
        }
    }
}

/// A dataset without a count that narrows nothing is derived from the first dataset that narrows
/// it by a positive ratio and has a count: the request has that dataset's rows and ratio. Without
/// such a dataset nothing is asked.
pub proof fn law_parents_are_derived_from_children(
    all: Seq<DatasetEntryModel>,
    counts: Seq<Option<usize>>,
    i: int,
    c: int,
)
    requires
        all.len() <= usize::MAX,
        0 <= i < all.len(),
        0 <= c < all.len(),
        counts[i] is None,
        all[i].dataset.include_spec is None,
    ensures
        request_for(all, counts, i) is Some <==> exists|d: int|
            0 <= d < all.len() && #[trigger] tells_its_parent(all, counts, d, all[i].path),
        tells_its_parent(all, counts, c, all[i].path) && (forall|d: int|
            0 <= d < c ==> !#[trigger] tells_its_parent(all, counts, d, all[i].path))
            ==> request_for(all, counts, i) == Some(
            RowRequest::FromChild {
                dataset: i as usize,
                rows: counts[c]->0,
                ratio: all[c].dataset.include_spec->0.ratio->0,
            },
        ),
{
    lemma_from_child(all, counts, i, 0);
}

/// A known count is never derived again.
pub proof fn law_known_counts_are_not_derived(
    all: Seq<DatasetEntryModel>,
    counts: Seq<Option<usize>>,
    i: int,
)
    requires
        counts[i] is Some,
    ensures
        request_for(all, counts, i) is None,
{
}

/// The next count that is derived is that of the first dataset that can be derived, and the plan is
/// done where there is none.
pub proof fn law_the_first_derivable_count_comes_next(
    all: Seq<DatasetEntryModel>,
    counts: Seq<Option<usize>>,
    from: int,
)
    requires
        0 <= from <= all.len(),
    ensures
        match first_request(all, counts, from) {
            Some(i) => from <= i < all.len() && request_for(all, counts, i) is Some && forall|j: int|
                from <= j < i ==> #[trigger] request_for(all, counts, j) is None,
            None => forall|j: int|
                from <= j < all.len() ==> #[trigger] request_for(all, counts, j) is None,
        },
    decreases all.len() - from,
{
    if from < all.len() {
        law_the_first_derivable_count_comes_next(all, counts, from + 1);
    }
}

} // verus!
