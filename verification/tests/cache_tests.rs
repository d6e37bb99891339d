use imgpipe::cache::{locator_key, SourceCache};

#[test]
fn locator_key_is_fnv1a() {
    assert_eq!(locator_key(""), 0xcbf2_9ce4_8422_2325);
    assert_eq!(locator_key("a"), 0xaf63_dc4c_8601_ec8c);
}

#[test]
fn distinct_locators_get_distinct_keys_here() {
    assert_ne!(locator_key("http://a"), locator_key("http://b"));
}

#[test]
fn cache_hit_avoids_fetch() {
    let mut cache = SourceCache::new(4);
    let mut fetch_calls = 0;
    let locator = "http://example.test/picture.png";
    let payload = vec![1, 2, 3, 4];

    // First request: miss, so the caller fetches once and stores.
    let got = match cache.lookup(locator) {
        Some(v) => v,
        None => {
            fetch_calls += 1;
            cache.store(locator, payload.clone());
            payload.clone()
        },
    };
    assert_eq!(got, payload);
    assert_eq!(fetch_calls, 1);

    // Second request: hit, the stored bytes come back and nothing is fetched.
    let got = match cache.lookup(locator) {
        Some(v) => v,
        None => {
            fetch_calls += 1;
            Vec::new()
        },
    };
    assert_eq!(got, payload);
    assert_eq!(fetch_calls, 1);
}

#[test]
fn eviction_drops_the_least_recently_used_entry() {
    let mut cache = SourceCache::new(2);
    cache.store("u1", vec![1]);
    cache.store("u2", vec![2]);
    // Touch u1 so that u2 becomes the least recently used.
    assert_eq!(cache.lookup("u1"), Some(vec![1]));
    // A third distinct locator evicts u2 and keeps the other two.
    cache.store("u3", vec![3]);
    assert_eq!(cache.lookup("u2"), None);
    assert_eq!(cache.lookup("u1"), Some(vec![1]));
    assert_eq!(cache.lookup("u3"), Some(vec![3]));
}

#[test]
fn filling_to_capacity_evicts_nothing() {
    let mut cache = SourceCache::new(3);
    cache.store("a", vec![1]);
    cache.store("b", vec![2]);
    cache.store("c", vec![3]);
    assert_eq!(cache.lookup("a"), Some(vec![1]));
    assert_eq!(cache.lookup("b"), Some(vec![2]));
    assert_eq!(cache.lookup("c"), Some(vec![3]));
}

#[test]
fn store_updates_an_existing_entry_without_eviction() {
    let mut cache = SourceCache::new(2);
    cache.store("a", vec![1]);
    cache.store("b", vec![2]);
    cache.store("a", vec![9]);
    assert_eq!(cache.lookup("a"), Some(vec![9]));
    assert_eq!(cache.lookup("b"), Some(vec![2]));
}
