//! Logical identities: the key that tells which slot of the stack a reported
//! step belongs to.

use std::any::TypeId;
use vstd::prelude::*;

verus! {

/// `std::any::TypeId`, carried through as an opaque value.
#[verifier::external_type_specification]
#[verifier::external_body]
pub struct ExTypeId(TypeId);

/// The identity of the step type `P`.
///
/// Trusted: this is `std::any::TypeId::of`. Nothing is claimed of the value.
#[verifier::external_body]
pub(crate) fn identity_of<P: 'static>() -> (id: TypeId) {
    TypeId::of::<P>()
}

/// Whether two identities are the same.
///
/// Trusted: this is `TypeId`'s `==`, taken to decide equality of the two
/// values.
#[verifier::external_body]
pub(crate) fn same_identity(a: &TypeId, b: &TypeId) -> (same: bool)
    ensures
        same == (*a == *b),
{
    a == b
}

/// The index of the first occurrence of `id` in `ids`, or the length of `ids`
/// when it does not occur.
pub open spec fn position<T>(ids: Seq<T>, id: T) -> int
    decreases ids.len(),
{
    if ids.len() == 0 || ids.first() == id {
        0
    } else {
        1 + position(ids.drop_first(), id)
    }
}

/// `position` is the one index below which `id` does not occur and at which,
/// if it is inside `ids`, `id` stands.
pub proof fn lemma_position<T>(ids: Seq<T>, id: T)
    ensures
        0 <= position(ids, id) <= ids.len(),
        forall|j: int| 0 <= j < position(ids, id) ==> ids[j] != id,
        position(ids, id) < ids.len() ==> ids[position(ids, id)] == id,
    decreases ids.len(),
{
    if ids.len() == 0 || ids.first() == id {
    } else {
        let rest = ids.drop_first();
        lemma_position(rest, id);
        assert forall|j: int| 0 <= j < position(ids, id) implies ids[j] != id by {
            if j > 0 {
                assert(ids[j] == rest[j - 1]);
            }
        }
        if position(ids, id) < ids.len() {
            assert(ids[position(ids, id)] == rest[position(rest, id)]);
        }
    }
}

/// An index below which `id` does not occur, and at which it stands if the
/// index is inside `ids`, is `position`.
pub proof fn lemma_position_unique<T>(ids: Seq<T>, id: T, k: int)
    requires
        0 <= k <= ids.len(),
        forall|j: int| 0 <= j < k ==> ids[j] != id,
        k < ids.len() ==> ids[k] == id,
    ensures
        position(ids, id) == k,
{
    lemma_position(ids, id);
    let p = position(ids, id);
    if p < k {
        assert(ids[p] != id);
    } else if k < p {
        assert(ids[k] != id);
    }
}

} // verus!
