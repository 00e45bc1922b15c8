//! The bounded call stack. The machine keeps its return addresses in an
//! `arrayvec::ArrayVec<u16, 16>`; its contents are modelled as a sequence,
//! most recent entry last, and the few methods the interpreter needs are
//! wrapped with contracts matching what the crate's source does.

use vstd::prelude::*;

verus! {

#[verifier::external_type_specification]
#[verifier::external_body]
#[verifier::reject_recursive_types(T)]
pub struct ExArrayVec<T, const CAP: usize>(arrayvec::ArrayVec<T, CAP>);

/// The return addresses held by the stack, bottom first.
pub uninterp spec fn stack_model(s: arrayvec::ArrayVec<u16, 16>) -> Seq<u16>;

/// Relies on arrayvec::ArrayVec::new: a freshly made vector is empty.
#[verifier::external_body]
pub fn stack_new() -> (s: arrayvec::ArrayVec<u16, 16>)
    ensures
        stack_model(s) == Seq::<u16>::empty(),
{
    arrayvec::ArrayVec::new()
}

/// Relies on arrayvec::ArrayVec::try_push: appends the element when below
/// capacity and reports success; when full it reports failure and leaves the
/// vector unchanged.
#[verifier::external_body]
pub fn stack_try_push(s: &mut arrayvec::ArrayVec<u16, 16>, v: u16) -> (ok: bool)
    ensures
        ok <==> stack_model(*old(s)).len() < 16,
        ok ==> stack_model(*final(s)) == stack_model(*old(s)).push(v),
        !ok ==> stack_model(*final(s)) == stack_model(*old(s)),
{
    s.try_push(v).is_ok()
}

/// Relies on arrayvec::ArrayVec::pop: removes and returns the last element,
/// or returns nothing when the vector is empty.
#[verifier::external_body]
pub fn stack_pop(s: &mut arrayvec::ArrayVec<u16, 16>) -> (r: Option<u16>)
    ensures
        stack_model(*old(s)).len() == 0 ==> r is None && stack_model(*final(s))
            == stack_model(*old(s)),
        stack_model(*old(s)).len() > 0 ==> r == Some(stack_model(*old(s)).last())
            && stack_model(*final(s)) == stack_model(*old(s)).drop_last(),
{
    s.pop()
}

/// Relies on arrayvec::ArrayVec::len.
#[verifier::external_body]
pub fn stack_len(s: &arrayvec::ArrayVec<u16, 16>) -> (n: usize)
    ensures
        n == stack_model(*s).len(),
{
    s.len()
}

} // verus!
