use xivprofit::cache::{CacheKey, TtlCache};
use xivprofit::listing::Listing;

fn key(item_id: u64) -> CacheKey {
    CacheKey { location: 1, item_id, amount: 0, hq: false }
}

fn value(world_id: u64) -> Vec<Listing> {
    vec![Listing {
        item_id: 1,
        world_id,
        price_per_unit_raw: 0,
        quantity: 1,
        total_price: 1,
        hq: false,
        retainer_name: String::new(),
    }]
}

#[test]
fn empty_cache_misses() {
    let cache: TtlCache<Vec<Listing>> = TtlCache::new();
    assert!(cache.get(&key(1), 0).is_none());
}

#[test]
fn stored_value_answers_until_expiry() {
    let mut cache: TtlCache<Vec<Listing>> = TtlCache::new();
    cache.set(key(1), value(7), 100, 50);
    let at_set = cache.get(&key(1), 100).expect("hit right after the write");
    assert_eq!(at_set[0].world_id, 7);
    let at_edge = cache.get(&key(1), 150).expect("hit at the expiration instant");
    assert_eq!(at_edge[0].world_id, 7);
    assert!(cache.get(&key(1), 151).is_none());
}

#[test]
fn expired_entry_is_a_miss_not_a_removal() {
    let mut cache: TtlCache<Vec<Listing>> = TtlCache::new();
    cache.set(key(1), value(7), 0, 10);
    assert!(cache.get(&key(1), 11).is_none());
    // a later write lands because the read at that instant misses
    cache.set(key(1), value(8), 20, 10);
    assert_eq!(cache.get(&key(1), 20).expect("hit")[0].world_id, 8);
}

#[test]
fn write_over_fresh_entry_is_dropped() {
    let mut cache: TtlCache<Vec<Listing>> = TtlCache::new();
    cache.set(key(1), value(7), 100, 50);
    cache.set(key(1), value(8), 120, 50);
    // the earlier writer won; the duplicate result was discarded
    assert_eq!(cache.get(&key(1), 120).expect("hit")[0].world_id, 7);
}

#[test]
fn distinct_keys_do_not_interfere() {
    let mut cache: TtlCache<Vec<Listing>> = TtlCache::new();
    cache.set(key(1), value(7), 0, 100);
    cache.set(key(2), value(8), 0, 100);
    assert_eq!(cache.get(&key(1), 50).expect("hit")[0].world_id, 7);
    assert_eq!(cache.get(&key(2), 50).expect("hit")[0].world_id, 8);
    assert!(cache.get(&key(3), 50).is_none());
}
