use xivprofit::listing::Listing;
use xivprofit::search::{filter_hq, find_cheapest_combination, CombinationResult};

fn listing(world_id: u64, quantity: u64, total_price: u64, hq: bool) -> Listing {
    Listing {
        item_id: 1,
        world_id,
        price_per_unit_raw: 0,
        quantity,
        total_price,
        hq,
        retainer_name: String::new(),
    }
}

#[test]
fn feasible_pair_beats_single_listing() {
    let listings = vec![
        listing(1, 5, 50, false),
        listing(2, 3, 40, false),
        listing(3, 10, 200, false),
    ];
    let out = find_cheapest_combination(&listings, 8);
    let quantities: Vec<u64> = out.chosen.iter().map(|l| l.quantity).collect();
    let costs: Vec<u64> = out.chosen.iter().map(|l| l.total_price).collect();
    assert_eq!(quantities, vec![5, 3]);
    assert_eq!(costs, vec![50, 40]);
    let total: u64 = costs.iter().sum();
    assert_eq!(total, 90);
}

#[test]
fn infeasible_when_supply_short() {
    let listings = vec![listing(1, 2, 10, false), listing(2, 3, 10, false)];
    let out = find_cheapest_combination(&listings, 10);
    assert!(out.chosen.is_empty());
}

#[test]
fn single_listing_set_explores_nothing() {
    let listings = vec![listing(1, 100, 5, false)];
    let out = find_cheapest_combination(&listings, 1);
    assert!(out.chosen.is_empty());
    assert_eq!(out.explored_max_size, 0);
}

#[test]
fn amount_zero_yields_empty_result() {
    let listings = vec![listing(1, 5, 50, false), listing(2, 3, 40, false)];
    let out = find_cheapest_combination(&listings, 0);
    assert!(out.chosen.is_empty());
    assert_eq!(out.explored_max_size, 0);
}

#[test]
fn empty_listing_set_yields_empty_result() {
    let listings: Vec<Listing> = Vec::new();
    let out = find_cheapest_combination(&listings, 5);
    assert!(out.chosen.is_empty());
}

#[test]
fn search_space_bound_stops_enumeration() {
    // 500 listings of one unit each cannot reach 1000 units; sizes beyond
    // two are never opened because 500^3 exceeds the 10^8 bound, so the
    // run finishes quickly instead of walking an astronomic space.
    let listings: Vec<Listing> = (0..500).map(|i| listing(i, 1, 1, false)).collect();
    let out = find_cheapest_combination(&listings, 1000);
    assert!(out.chosen.is_empty());
    assert_eq!(out.explored_max_size, 2);
}

#[test]
fn best_size_pruning_stops_after_small_solution() {
    // A single listing already suffices, so exploration ends at size two.
    let listings: Vec<Listing> = (0..10).map(|i| listing(i, 10, 7, false)).collect();
    let out = find_cheapest_combination(&listings, 5);
    assert_eq!(out.chosen.len(), 1);
    assert_eq!(out.chosen[0].total_price, 7);
    assert_eq!(out.explored_max_size, 2);
}

#[test]
fn cost_tie_keeps_earliest_listing() {
    let listings = vec![listing(1, 5, 10, false), listing(2, 5, 10, false)];
    let out = find_cheapest_combination(&listings, 3);
    assert_eq!(out.chosen.len(), 1);
    assert_eq!(out.chosen[0].world_id, 1);
}

#[test]
fn filter_hq_keeps_only_high_quality() {
    let listings = vec![
        listing(1, 5, 50, true),
        listing(2, 3, 40, false),
        listing(3, 2, 20, true),
    ];
    let hq = filter_hq(&listings);
    assert_eq!(hq.len(), 2);
    assert_eq!(hq[0].world_id, 1);
    assert_eq!(hq[1].world_id, 3);
}

#[test]
fn combination_result_totals() {
    let listings = vec![listing(1, 5, 50, false), listing(2, 3, 40, false)];
    let r = CombinationResult::from_listings(listings);
    assert_eq!(r.total_quantity, 8);
    assert_eq!(r.total_cost, 90);
    assert_eq!(r.listings.len(), 2);
}

#[test]
fn empty_combination_result_totals_are_zero() {
    let r = CombinationResult::from_listings(Vec::new());
    assert_eq!(r.total_quantity, 0);
    assert_eq!(r.total_cost, 0);
    assert!(r.listings.is_empty());
}
