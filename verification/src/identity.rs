//! Message identities, generated through the uuid crate.
use vstd::prelude::*;

verus! {

/// A message identity: the two halves of a version-4 UUID.
#[derive(Clone, Copy, PartialEq, Eq, Structural, Debug)]
pub struct MessageId {
    pub hi: u64,
    pub lo: u64,
}

/// Relies on `uuid::Uuid::new_v4`, which draws a random UUID, and
/// `Uuid::as_u64_pair`, which returns its two halves. The result is
/// random, so nothing is promised of it.
#[verifier::external_body]
pub(crate) fn fresh_id() -> MessageId {
    let (hi, lo) = uuid::Uuid::new_v4().as_u64_pair();
    MessageId { hi, lo }
}

} // verus!
