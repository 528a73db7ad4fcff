//! Idempotent newsletter issuance: an idempotency store providing
//! storage-level mutual exclusion, a transactional outbox of per-subscriber
//! delivery tasks, the command processor that ties the two together, and the
//! delivery worker's retry policy.

use vstd::prelude::*;

pub mod idempotency;
pub mod login;
pub mod outbox;
pub mod pages;
pub mod processor;
pub mod worker;

verus! {

/// Base URL under which the application is reachable, used when links into
/// the application have to be rendered.
pub struct ApplicationBaseUrl(pub String);

} // verus!
