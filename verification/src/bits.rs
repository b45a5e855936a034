//! Membership masks: the `FixedBitSet` of the `fixedbitset` crate and what its methods do.
use fixedbitset::FixedBitSet;
use vstd::prelude::*;

verus! {

/// `fixedbitset::FixedBitSet`, a set of positions below a fixed length.
#[verifier::external_type_specification]
#[verifier::external_body]
pub struct ExFixedBitSet(fixedbitset::FixedBitSet);

/// The positions that a bit set holds.
pub uninterp spec fn bits_of(s: FixedBitSet) -> Set<int>;

/// The length that a bit set was made with.
pub uninterp spec fn bits_len(s: FixedBitSet) -> nat;

/// Calls `FixedBitSet::with_capacity`: a set of the given length without any position.
#[verifier::external_body]
pub(crate) fn empty_bits(n: usize) -> (r: FixedBitSet)
    ensures
        bits_of(r) == Set::<int>::empty(),
        bits_len(r) == n,
{
    FixedBitSet::with_capacity(n)
}

/// Calls `FixedBitSet::insert`, which adds one position and panics at or beyond the length.
#[verifier::external_body]
pub(crate) fn insert_bit(s: &mut FixedBitSet, i: usize)
    requires
        i < bits_len(*old(s)),
    ensures
        bits_of(*final(s)) == bits_of(*old(s)).insert(i as int),
        bits_len(*final(s)) == bits_len(*old(s)),
{
    s.insert(i)
}

/// Calls `FixedBitSet::is_disjoint`: true when the two sets have no position in common.
#[verifier::external_body]
pub(crate) fn disjoint_bits(a: &FixedBitSet, b: &FixedBitSet) -> (r: bool)
    ensures
        r == bits_of(*a).disjoint(bits_of(*b)),
{
    a.is_disjoint(b)
}

/// Calls `FixedBitSet::clone`: a set of the same length with the same positions.
#[verifier::external_body]
pub(crate) fn copy_bits(s: &FixedBitSet) -> (r: FixedBitSet)
    ensures
        bits_of(r) == bits_of(*s),
        bits_len(r) == bits_len(*s),
{
    s.clone()
}

/// The positions of a mask in ascending order.
pub open spec fn ascending(s: Set<int>, v: Seq<u64>) -> bool {
    &&& forall|a: int, b: int| 0 <= a < b < v.len() ==> #[trigger] v[a] < #[trigger] v[b]
    &&& forall|a: int| 0 <= a < v.len() ==> s.contains(#[trigger] v[a] as int)
    &&& forall|i: int| s.contains(i) ==> exists|a: int| 0 <= a < v.len() && #[trigger] v[a] == i
}

/// Calls `FixedBitSet::ones`, which walks the positions of the set in ascending order.
#[verifier::external_body]
pub(crate) fn ones(s: &FixedBitSet) -> (r: Vec<u64>)
    ensures
        ascending(bits_of(*s), r@),
{
    s.ones().map(|i| i as u64).collect()
}

} // verus!
