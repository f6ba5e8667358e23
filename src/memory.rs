//! Calls that pin, unpin and erase memory.

use vstd::prelude::*;

verus! {

/// All bytes zero.
pub open spec fn is_zeroed(s: Seq<u8>) -> bool {
    forall|i: int| 0 <= i < s.len() ==> s[i] == 0u8
}

/// `n` zero bytes.
pub open spec fn zeroed(n: nat) -> Seq<u8> {
    Seq::new(n, |_i: int| 0u8)
}

/// Erasing erased bytes changes nothing: both times the result is all zero,
/// of the same length.
pub proof fn lemma_zeroize_idempotent(s: Seq<u8>)
    ensures
        is_zeroed(zeroed(s.len())),
        zeroed(s.len()).len() == s.len(),
        zeroed(zeroed(s.len()).len()) == zeroed(s.len()),
{
}

/// `n` zero bytes in a fresh vector.
pub(crate) fn zero_bytes(n: usize) -> (v: Vec<u8>)
    ensures
        v@ == zeroed(n as nat),
{
    let mut v: Vec<u8> = Vec::with_capacity(n);
    let mut i: usize = 0;
    while i < n
        invariant
            i <= n,
            v@ =~= zeroed(i as nat),
        decreases n - i,
    {
        v.push(0u8);
        i = i + 1;
    }
    v
}

/// Relies on region::lock (mlock on unix) to pin the pages that hold `bytes`.
/// Whether the system grants the request is not known in advance, so nothing
/// is promised of the result. The guard that region returns would unpin on
/// drop; it is forgotten so that the pages stay pinned until `unpin_pages`.
#[verifier::external_body]
pub(crate) fn pin_pages(bytes: &Vec<u8>) -> (granted: bool)
    requires
        bytes@.len() > 0,
{
    match region::lock(bytes.as_ptr(), bytes.len()) {
        Ok(guard) => {
            std::mem::forget(guard);
            true
        },
        Err(_) => false,
    }
}

/// Relies on region::unlock (munlock on unix) to release the pin on the pages
/// that hold `bytes`; for an empty region region returns an error without a
/// system call, which is ignored here. Only erased memory is unpinned.
#[verifier::external_body]
pub(crate) fn unpin_pages(bytes: &Vec<u8>)
    requires
        is_zeroed(bytes@),
    opens_invariants none
    no_unwind
{
    let _ = region::unlock(bytes.as_ptr(), bytes.len());
}

/// Relies on zeroize's `Zeroize` for byte slices: a volatile write of zero to
/// every byte, which the compiler may not elide.
#[verifier::external_body]
pub(crate) fn wipe_bytes(bytes: &mut [u8])
    ensures
        final(bytes)@ == zeroed(old(bytes)@.len()),
    opens_invariants none
    no_unwind
{
    zeroize::Zeroize::zeroize(bytes);
}

/// Relies on zeroize's `Zeroize` for byte slices, applied to the bytes that a
/// vector holds: a volatile write of zero to each. Length and allocation are
/// kept.
#[verifier::external_body]
pub(crate) fn wipe_vec(bytes: &mut Vec<u8>)
    ensures
        final(bytes)@ == zeroed(old(bytes)@.len()),
    opens_invariants none
    no_unwind
{
    zeroize::Zeroize::zeroize(bytes.as_mut_slice());
}

/// Relies on std::sync::atomic::compiler_fence: memory writes before it are
/// not reordered past it.
#[verifier::external_body]
pub(crate) fn ordering_fence()
    opens_invariants none
    no_unwind
{
    std::sync::atomic::compiler_fence(std::sync::atomic::Ordering::SeqCst);
}

} // verus!
