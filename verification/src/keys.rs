//! Conditions under which the standard comparison traits on a key or
//! element type agree with their mathematical specifications.
//!
//! Generic containers in this crate compare keys with `==` and order
//! elements with `Ord::cmp`. For an arbitrary type those operations carry
//! no specification, so the containers' contracts are stated under the
//! predicates below. The lemmas at the end discharge the predicates for
//! the common integer types, which is what makes those conditional
//! contracts bite.

use vstd::prelude::*;
use vstd::std_specs::cmp::PartialEqSpec;
use vstd::std_specs::cmp::PartialOrdSpec;
use vstd::std_specs::cmp::OrdSpec;
use core::cmp::Ordering;

verus! {

/// What `a <= b` means when the type's comparison is specified.
pub open spec fn le_spec<T: PartialOrd>(a: T, b: T) -> bool {
    a.partial_cmp_spec(&b) matches Some(Ordering::Less | Ordering::Equal)
}

/// The type's comparison operators are specified and `le_spec` is a total
/// order agreeing with spec equality.
pub open spec fn ord_is_total<T: PartialOrd>() -> bool {
    &&& T::obeys_partial_cmp_spec()
    &&& forall|a: T, b: T| #[trigger] a.partial_cmp_spec(&b) == (
        if le_spec(a, b) && le_spec(b, a) {
            Some(Ordering::Equal)
        } else if le_spec(a, b) {
            Some(Ordering::Less)
        } else {
            Some(Ordering::Greater)
        })
    &&& forall|a: T, b: T| #[trigger] le_spec(a, b) || #[trigger] le_spec(b, a)
    &&& forall|a: T, b: T| #[trigger] le_spec(a, b) && #[trigger] le_spec(b, a) ==> a == b
    &&& forall|a: T, b: T, c: T|
        #![trigger le_spec(a, b), le_spec(b, c)]
        le_spec(a, b) && le_spec(b, c) ==> le_spec(a, c)
}

/// `ord_is_total`, and `Ord::cmp` agrees with the partial comparison.
pub open spec fn cmp_is_total<T: Ord>() -> bool {
    &&& ord_is_total::<T>()
    &&& T::obeys_cmp_spec()
    &&& forall|a: T, b: T| Some(#[trigger] a.cmp_spec(&b)) == a.partial_cmp_spec(&b)
}

/// The type's `==` is specified and coincides with spec equality.
pub open spec fn eq_is_exact<K: PartialEq>() -> bool {
    &&& K::obeys_eq_spec()
    &&& forall|a: K, b: K| #[trigger] a.eq_spec(&b) <==> a == b
}

/// The type's `clone` can only return the value it was given.
pub open spec fn clone_is_exact<K: Clone>() -> bool {
    forall|a: K, b: K| #[trigger] vstd::pervasive::cloned::<K>(a, b) ==> b == a
}

/// The comparison predicates hold of `i32`.
pub proof fn lemma_props_i32()
    ensures
        eq_is_exact::<i32>(),
        clone_is_exact::<i32>(),
        ord_is_total::<i32>(),
        cmp_is_total::<i32>(),
{
    assert forall|a: i32, b: i32| #[trigger] a.eq_spec(&b) <==> a == b by {}
    assert forall|a: i32, b: i32| #[trigger] vstd::pervasive::cloned::<i32>(a, b)
        implies b == a by {}
    assert forall|a: i32, b: i32| #[trigger] a.partial_cmp_spec(&b) == (
        if le_spec(a, b) && le_spec(b, a) {
            Some(Ordering::Equal)
        } else if le_spec(a, b) {
            Some(Ordering::Less)
        } else {
            Some(Ordering::Greater)
        }) by {}
    assert forall|a: i32, b: i32| #[trigger] le_spec(a, b) || #[trigger] le_spec(b, a) by {}
    assert forall|a: i32, b: i32| Some(#[trigger] a.cmp_spec(&b)) == a.partial_cmp_spec(&b) by {}
}

/// The comparison predicates hold of `i64`.
pub proof fn lemma_props_i64()
    ensures
        eq_is_exact::<i64>(),
        clone_is_exact::<i64>(),
        ord_is_total::<i64>(),
        cmp_is_total::<i64>(),
{
    assert forall|a: i64, b: i64| #[trigger] a.eq_spec(&b) <==> a == b by {}
    assert forall|a: i64, b: i64| #[trigger] vstd::pervasive::cloned::<i64>(a, b)
        implies b == a by {}
    assert forall|a: i64, b: i64| #[trigger] a.partial_cmp_spec(&b) == (
        if le_spec(a, b) && le_spec(b, a) {
            Some(Ordering::Equal)
        } else if le_spec(a, b) {
            Some(Ordering::Less)
        } else {
            Some(Ordering::Greater)
        }) by {}
    assert forall|a: i64, b: i64| #[trigger] le_spec(a, b) || #[trigger] le_spec(b, a) by {}
    assert forall|a: i64, b: i64| Some(#[trigger] a.cmp_spec(&b)) == a.partial_cmp_spec(&b) by {}
}

/// The comparison predicates hold of `u32`.
pub proof fn lemma_props_u32()
    ensures
        eq_is_exact::<u32>(),
        clone_is_exact::<u32>(),
        ord_is_total::<u32>(),
        cmp_is_total::<u32>(),
{
    assert forall|a: u32, b: u32| #[trigger] a.eq_spec(&b) <==> a == b by {}
    assert forall|a: u32, b: u32| #[trigger] vstd::pervasive::cloned::<u32>(a, b)
        implies b == a by {}
    assert forall|a: u32, b: u32| #[trigger] a.partial_cmp_spec(&b) == (
        if le_spec(a, b) && le_spec(b, a) {
            Some(Ordering::Equal)
        } else if le_spec(a, b) {
            Some(Ordering::Less)
        } else {
            Some(Ordering::Greater)
        }) by {}
    assert forall|a: u32, b: u32| #[trigger] le_spec(a, b) || #[trigger] le_spec(b, a) by {}
    assert forall|a: u32, b: u32| Some(#[trigger] a.cmp_spec(&b)) == a.partial_cmp_spec(&b) by {}
}

/// The comparison predicates hold of `u64`.
pub proof fn lemma_props_u64()
    ensures
        eq_is_exact::<u64>(),
        clone_is_exact::<u64>(),
        ord_is_total::<u64>(),
        cmp_is_total::<u64>(),
{
    assert forall|a: u64, b: u64| #[trigger] a.eq_spec(&b) <==> a == b by {}
    assert forall|a: u64, b: u64| #[trigger] vstd::pervasive::cloned::<u64>(a, b)
        implies b == a by {}
    assert forall|a: u64, b: u64| #[trigger] a.partial_cmp_spec(&b) == (
        if le_spec(a, b) && le_spec(b, a) {
            Some(Ordering::Equal)
        } else if le_spec(a, b) {
            Some(Ordering::Less)
        } else {
            Some(Ordering::Greater)
        }) by {}
    assert forall|a: u64, b: u64| #[trigger] le_spec(a, b) || #[trigger] le_spec(b, a) by {}
    assert forall|a: u64, b: u64| Some(#[trigger] a.cmp_spec(&b)) == a.partial_cmp_spec(&b) by {}
}

/// The comparison predicates hold of `usize`.
pub proof fn lemma_props_usize()
    ensures
        eq_is_exact::<usize>(),
        clone_is_exact::<usize>(),
        ord_is_total::<usize>(),
        cmp_is_total::<usize>(),
{
    assert forall|a: usize, b: usize| #[trigger] a.eq_spec(&b) <==> a == b by {}
    assert forall|a: usize, b: usize| #[trigger] vstd::pervasive::cloned::<usize>(a, b)
        implies b == a by {}
    assert forall|a: usize, b: usize| #[trigger] a.partial_cmp_spec(&b) == (
        if le_spec(a, b) && le_spec(b, a) {
            Some(Ordering::Equal)
        } else if le_spec(a, b) {
            Some(Ordering::Less)
        } else {
            Some(Ordering::Greater)
        }) by {}
    assert forall|a: usize, b: usize| #[trigger] le_spec(a, b) || #[trigger] le_spec(b, a) by {}
    assert forall|a: usize, b: usize| Some(#[trigger] a.cmp_spec(&b)) == a.partial_cmp_spec(&b) by {}
}

} // verus!
