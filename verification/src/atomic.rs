//! Memory fences and the spin hint, as the ring buffers' callers use them
//! around buffer operations. The verified model owns its byte region, so no
//! contract is attached to them; they are kept for callers that share the
//! region with code outside this crate.

use vstd::prelude::*;

verus! {

/// Relies on std::sync::atomic::fence: an acquire-release memory fence.
#[verifier::external_body]
pub fn thread_fence() {
    std::sync::atomic::fence(std::sync::atomic::Ordering::AcqRel);
}

/// Relies on std::sync::atomic::fence: a sequentially consistent memory
/// fence.
#[verifier::external_body]
pub fn fence() {
    std::sync::atomic::fence(std::sync::atomic::Ordering::SeqCst);
}

/// Relies on std::sync::atomic::fence: an acquire memory fence.
#[verifier::external_body]
pub fn acquire() {
    std::sync::atomic::fence(std::sync::atomic::Ordering::Acquire);
}

/// Relies on std::sync::atomic::fence: a release memory fence.
#[verifier::external_body]
pub fn release() {
    std::sync::atomic::fence(std::sync::atomic::Ordering::Release);
}

/// A busy-wait pause between polls; a plain no-op on this platform.
pub fn cpu_pause() {
}

} // verus!
