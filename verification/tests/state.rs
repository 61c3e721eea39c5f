use trillium_bench::state::{CacheEntry, Item, Rating, CRUD_CACHE_TTL_MS};

#[test]
fn item_holds_its_fields() {
    let item = Item {
        id: 1,
        name: "Widget".to_string(),
        category: "tools".to_string(),
        price: 999,
        quantity: 3,
        active: true,
        tags: vec!["a".to_string()],
        rating: Rating { score: 4, count: 10 },
    };
    let copy = item.clone();
    assert_eq!(copy.name, "Widget");
    assert_eq!(copy.rating.count, 10);
}

#[test]
fn cache_entry_and_ttl() {
    let now = std::time::Instant::now();
    let entry = CacheEntry { body: b"{}".to_vec(), expires: now + std::time::Duration::from_millis(CRUD_CACHE_TTL_MS) };
    assert!(entry.expires > now);
    assert_eq!(CRUD_CACHE_TTL_MS, 200);
}
