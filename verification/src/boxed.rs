//! Lists of boxed values whose type may be unsized, such as trait objects.
use vstd::prelude::*;

verus! {

/// Appends `b` to `v`: one more item, and those before it unchanged.
///
/// The clauses do not mention `b` itself, so that they stay usable where the
/// items are trait objects.
pub(crate) fn push_boxed<C: ?Sized>(v: &mut Vec<Box<C>>, b: Box<C>)
    ensures
        final(v)@.len() == old(v)@.len() + 1,
        forall|i: int| 0 <= i < old(v)@.len() ==> #[trigger] final(v)@[i] == old(v)@[i],
{
    v.push(b);
}

} // verus!
