//! A stable sort of positions by keys that are lists of numbers.
use vstd::prelude::*;

verus! {

/// `a` and `b` agree up to `k`, and there `a` ends or holds the smaller number.
pub open spec fn splits_at(a: Seq<u64>, b: Seq<u64>, k: int) -> bool {
    &&& 0 <= k <= a.len()
    &&& k < b.len()
    &&& forall|j: int| 0 <= j < k ==> a[j] == b[j]
    &&& k == a.len() || a[k] < b[k]
}

/// Dictionary order on lists of numbers.
pub open spec fn lex_lt(a: Seq<u64>, b: Seq<u64>) -> bool {
    exists|k: int| splits_at(a, b, k)
}

/// Position `i` comes before position `j`: by key, and by position where the keys are equal.
pub open spec fn before(keys: Seq<Vec<u64>>, i: int, j: int) -> bool {
    lex_lt(keys[i]@, keys[j]@) || (keys[i]@ == keys[j]@ && i < j)
}

proof fn lemma_lex_transitive(a: Seq<u64>, b: Seq<u64>, c: Seq<u64>)
    requires
        lex_lt(a, b),
        lex_lt(b, c),
    ensures
        lex_lt(a, c),
{
    let k = choose|k: int| splits_at(a, b, k);
    let l = choose|l: int| splits_at(b, c, l);
    if k <= l {
        assert(splits_at(a, c, k));
    } else {
        assert(splits_at(a, c, l));
    }
}

proof fn lemma_lex_irreflexive(a: Seq<u64>)
    ensures
        !lex_lt(a, a),
{
}

proof fn lemma_before_transitive(keys: Seq<Vec<u64>>, i: int, j: int, k: int)
    requires
        before(keys, i, j),
        before(keys, j, k),
    ensures
        before(keys, i, k),
{
    if lex_lt(keys[i]@, keys[j]@) && lex_lt(keys[j]@, keys[k]@) {
        lemma_lex_transitive(keys[i]@, keys[j]@, keys[k]@);
    }
}

/// Of two positions at most one comes first.
pub proof fn lemma_before_asymmetric(keys: Seq<Vec<u64>>, i: int, j: int)
    requires
        before(keys, i, j),
    ensures
        !before(keys, j, i),
{
    if lex_lt(keys[i]@, keys[j]@) && lex_lt(keys[j]@, keys[i]@) {
        lemma_lex_transitive(keys[i]@, keys[j]@, keys[i]@);
    }
    lemma_lex_irreflexive(keys[i]@);
}

fn comes_before(keys: &Vec<Vec<u64>>, i: usize, j: usize) -> (r: bool)
    requires
        i < keys.len(),
        j < keys.len(),
        i != j,
    ensures
        r == before(keys@, i as int, j as int),
        !r == before(keys@, j as int, i as int),
{
    let a = &keys[i];
    let b = &keys[j];
    let mut k: usize = 0;
    while k < a.len() && k < b.len()
        invariant
            k <= a.len(),
            k <= b.len(),
            i < keys.len(),
            j < keys.len(),
            a == keys[i as int],
            b == keys[j as int],
            forall|m: int| 0 <= m < k ==> a@[m] == b@[m],
        decreases a.len() - k,
    {
        if a[k] != b[k] {
            let r = a[k] < b[k];
            proof {
                if r {
                    assert(splits_at(a@, b@, k as int));
                    lemma_before_asymmetric(keys@, i as int, j as int);
                } else {
                    assert(splits_at(b@, a@, k as int));
                    lemma_before_asymmetric(keys@, j as int, i as int);
                }
            }
            return r;
        }
        k += 1;
    }
    if k < b.len() {
        proof {
            assert(splits_at(a@, b@, k as int));
            lemma_before_asymmetric(keys@, i as int, j as int);
        }
        true
    } else if k < a.len() {
        proof {
            assert(splits_at(b@, a@, k as int));
            lemma_before_asymmetric(keys@, j as int, i as int);
        }
        false
    } else {
        assert(a@ =~= b@);
        proof {
            if i < j {
                lemma_before_asymmetric(keys@, i as int, j as int);
            } else {
                lemma_before_asymmetric(keys@, j as int, i as int);
            }
        }
        i < j
    }
}

/// The positions are in range and each stands before the ones behind it.
pub open spec fn in_order(keys: Seq<Vec<u64>>, s: Seq<usize>) -> bool {
    &&& forall|a: int| 0 <= a < s.len() ==> (#[trigger] s[a]) < keys.len()
    &&& forall|a: int, b: int|
        0 <= a < b < s.len() ==> before(keys, #[trigger] s[a] as int, #[trigger] s[b] as int)
}

/// Merges two runs of positions, each in order and with no position in common.
fn merge_runs(keys: &Vec<Vec<u64>>, left: &Vec<usize>, right: &Vec<usize>) -> (r: Vec<usize>)
    requires
        in_order(keys@, left@),
        in_order(keys@, right@),
        forall|a: int, b: int|
            0 <= a < left.len() && 0 <= b < right.len() ==> #[trigger] left[a] != #[trigger] right[b],
        left.len() + right.len() <= usize::MAX,
    ensures
        in_order(keys@, r@),
        r@.to_multiset() == left@.to_multiset().add(right@.to_multiset()),
{
    broadcast use vstd::seq_lib::group_to_multiset_ensures;

    let mut r: Vec<usize> = Vec::new();
    let mut i: usize = 0;
    let mut j: usize = 0;
    proof {
        assert(left@.subrange(0, 0) =~= Seq::empty());
        assert(right@.subrange(0, 0) =~= Seq::empty());
        assert(r@.to_multiset() =~= left@.subrange(0, 0).to_multiset().add(
            right@.subrange(0, 0).to_multiset(),
        ));
    }
    while i < left.len() || j < right.len()
        invariant
            i <= left.len(),
            j <= right.len(),
            in_order(keys@, left@),
            in_order(keys@, right@),
            in_order(keys@, r@),
            left.len() + right.len() <= usize::MAX,
            forall|a: int, b: int|
                0 <= a < left.len() && 0 <= b < right.len() ==> #[trigger] left[a]
                    != #[trigger] right[b],
            forall|a: int, b: int|
                0 <= a < r.len() && i <= b < left.len() ==> before(
                    keys@,
                    #[trigger] r[a] as int,
                    #[trigger] left[b] as int,
                ),
            forall|a: int, b: int|
                0 <= a < r.len() && j <= b < right.len() ==> before(
                    keys@,
                    #[trigger] r[a] as int,
                    #[trigger] right[b] as int,
                ),
            r@.to_multiset() == left@.subrange(0, i as int).to_multiset().add(
                right@.subrange(0, j as int).to_multiset(),
            ),
        decreases left.len() + right.len() - i - j,
    {
        let take_left = if i >= left.len() {
            false
        } else if j >= right.len() {
            true
        } else {
            comes_before(keys, left[i], right[j])
        };
        if take_left {
            let x: usize = left[i];
            proof {
                if j < right.len() {
                    assert forall|b: int| j <= b < right.len() implies before(
                        keys@,
                        x as int,
                        #[trigger] right[b] as int,
                    ) by {
                        if b > j {
                            assert(before(keys@, right[j as int] as int, right[b] as int));
                            lemma_before_transitive(
                                keys@,
                                x as int,
                                right[j as int] as int,
                                right[b] as int,
                            );
                        }
                    }
                }
                assert(left@.subrange(0, i + 1) =~= left@.subrange(0, i as int).push(x));
            }
            r.push(x);
            i += 1;
            broadcast use vstd::seq_lib::group_to_multiset_ensures;

            assert(r@.to_multiset() =~= left@.subrange(0, i as int).to_multiset().add(
                right@.subrange(0, j as int).to_multiset(),
            ));
        } else {
            let x: usize = right[j];
            proof {
                if i < left.len() {
                    assert(before(keys@, x as int, left[i as int] as int));
                    assert forall|b: int| i <= b < left.len() implies before(
                        keys@,
                        x as int,
                        #[trigger] left[b] as int,
                    ) by {
                        if b > i {
                            assert(before(keys@, left[i as int] as int, left[b] as int));
                            lemma_before_transitive(
                                keys@,
                                x as int,
                                left[i as int] as int,
                                left[b] as int,
                            );
                        }
                    }
                }
                assert(right@.subrange(0, j + 1) =~= right@.subrange(0, j as int).push(x));
            }
            r.push(x);
            j += 1;
            broadcast use vstd::seq_lib::group_to_multiset_ensures;

            assert(r@.to_multiset() =~= left@.subrange(0, i as int).to_multiset().add(
                right@.subrange(0, j as int).to_multiset(),
            ));
        }
    }
    assert(left@.subrange(0, left.len() as int) =~= left@);
    assert(right@.subrange(0, right.len() as int) =~= right@);
    r
}

/// Sorts the positions `from..to`.
fn sort_range(keys: &Vec<Vec<u64>>, from: usize, to: usize) -> (r: Vec<usize>)
    requires
        from <= to <= keys.len(),
    ensures
        in_order(keys@, r@),
        r.len() == to - from,
        forall|a: int| 0 <= a < r.len() ==> from <= #[trigger] r[a] < to,
        forall|p: usize| from <= p < to ==> #[trigger] r@.contains(p),
    decreases to - from,
{
    broadcast use vstd::seq_lib::group_to_multiset_ensures;

    let mut r: Vec<usize> = Vec::new();
    if from == to {
        return r;
    }
    if to - from == 1 {
        r.push(from);
        assert(r@[0] == from);
        return r;
    }
    let mid: usize = from + (to - from) / 2;
    let left = sort_range(keys, from, mid);
    let right = sort_range(keys, mid, to);
    let out = merge_runs(keys, &left, &right);
    proof {
        assert(out@.to_multiset().len() == left@.to_multiset().len() + right@.to_multiset().len());
        assert forall|a: int| 0 <= a < out.len() implies from <= #[trigger] out[a] < to by {
            assert(out@.to_multiset().count(out[a]) > 0);
            if left@.to_multiset().count(out[a]) > 0 {
                assert(left@.contains(out[a]));
            } else {
                assert(right@.to_multiset().count(out[a]) > 0);
                assert(right@.contains(out[a]));
            }
        }
        assert forall|p: usize| from <= p < to implies #[trigger] out@.contains(p) by {
            if p < mid {
                assert(left@.contains(p));
                assert(left@.to_multiset().count(p) > 0);
            } else {
                assert(right@.contains(p));
                assert(right@.to_multiset().count(p) > 0);
            }
            assert(out@.to_multiset().count(p) > 0);
        }
    }
    out
}

/// Every position once, smallest key first; equal keys keep their order.
pub fn sorted_order(keys: &Vec<Vec<u64>>) -> (r: Vec<usize>)
    ensures
        in_order(keys@, r@),
        r.len() == keys.len(),
        r@.no_duplicates(),
        forall|p: usize| p < keys.len() ==> #[trigger] r@.contains(p),
{
    let r = sort_range(keys, 0, keys.len());
    proof {
        assert forall|a: int, b: int| 0 <= a < r.len() && 0 <= b < r.len() && a != b implies r@[a]
            != r@[b] by {
            if a < b {
                assert(before(keys@, r[a] as int, r[b] as int));
            } else {
                assert(before(keys@, r[b] as int, r[a] as int));
            }
            lemma_lex_irreflexive(keys@[r[a] as int]@);
        }
    }
    r
}

/// The positions that come before `i`.
pub open spec fn earlier(keys: Seq<Vec<u64>>, i: int) -> Set<int> {
    Set::new(|j: int| 0 <= j < keys.len() && before(keys, j, i))
}

/// In the sorted order a position stands behind exactly the positions that come before it.
pub proof fn lemma_rank(keys: Seq<Vec<u64>>, s: Seq<usize>, a: int)
    requires
        in_order(keys, s),
        s.len() == keys.len(),
        keys.len() <= usize::MAX,
        forall|p: usize| p < keys.len() ==> #[trigger] s.contains(p),
        0 <= a < s.len(),
    ensures
        earlier(keys, s[a] as int).finite(),
        earlier(keys, s[a] as int).len() == a,
{
    let front = s.subrange(0, a).map_values(|p: usize| p as int);
    assert(front.no_duplicates()) by {
        assert forall|x: int, y: int| 0 <= x < front.len() && 0 <= y < front.len() && x
            != y implies front[x] != front[y] by {
            if x < y {
                assert(before(keys, s[x] as int, s[y] as int));
            } else {
                assert(before(keys, s[y] as int, s[x] as int));
            }
            lemma_lex_irreflexive(keys[s[x] as int]@);
        }
    }
    assert(front.to_set() =~= earlier(keys, s[a] as int)) by {
        assert forall|j: int| #[trigger] front.to_set().contains(j) implies earlier(
            keys,
            s[a] as int,
        ).contains(j) by {
            let x = choose|x: int| 0 <= x < front.len() && front[x] == j;
            assert(before(keys, s[x] as int, s[a] as int));
        }
        assert forall|j: int| earlier(keys, s[a] as int).contains(j) implies #[trigger] front.to_set().contains(
            j,
        ) by {
            assert(s.contains(j as usize));
            let x = choose|x: int| 0 <= x < s.len() && s[x] == j as usize;
            if x >= a {
                if x > a {
                    assert(before(keys, s[a] as int, s[x] as int));
                    lemma_before_asymmetric(keys, s[a] as int, s[x] as int);
                } else {
                    lemma_lex_irreflexive(keys[s[a] as int]@);
                }
            }
            assert(front[x] == j);
        }
    }
    front.unique_seq_to_set();
}

} // verus!
