//! The data the handlers share: the dataset's items and the CRUD cache's entries.

use vstd::prelude::*;

verus! {

/// `std::time::Instant`, a point on the monotonic clock.
#[verifier::external_type_specification]
#[verifier::external_body]
pub struct ExInstant(std::time::Instant);

/// How an item is rated: its `score` and its `count`, as the dataset gives them.
#[derive(Clone, Debug)]
pub struct Rating {
    pub score: u32,
    pub count: u32,
}

/// An item of the dataset.
#[derive(Clone, Debug)]
pub struct Item {
    pub id: u32,
    pub name: String,
    pub category: String,
    pub price: u32,
    pub quantity: u32,
    pub active: bool,
    pub tags: Vec<String>,
    pub rating: Rating,
}

/// A response body kept in the CRUD cache until `expires`.
pub struct CacheEntry {
    pub body: Vec<u8>,
    pub expires: std::time::Instant,
}

/// How long, in milliseconds, an entry stays in the CRUD cache.
pub const CRUD_CACHE_TTL_MS: u64 = 200;

} // verus!
