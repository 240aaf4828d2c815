use xivprofit::listing::{clone_listings, to_listings, Listing, ListingRow};

fn listing_row(world_id: Option<u64>, quantity: u64, total: u64) -> ListingRow {
    ListingRow {
        world_id,
        price_per_unit_raw: 0,
        quantity,
        hq: false,
        retainer_name: String::from("seller"),
        total,
    }
}

#[test]
fn response_wide_world_applies_to_every_row() {
    let rows = vec![listing_row(None, 5, 50), listing_row(Some(3), 2, 20)];
    let out = to_listings(42, Some(7), &rows).expect("world known for every row");
    assert_eq!(out.len(), 2);
    assert!(out.iter().all(|l| l.item_id == 42 && l.world_id == 7));
    assert_eq!(out[0].quantity, 5);
    assert_eq!(out[0].total_price, 50);
    assert_eq!(out[1].retainer_name, "seller");
}

#[test]
fn per_row_worlds_apply_when_response_names_none() {
    let rows = vec![listing_row(Some(3), 5, 50), listing_row(Some(4), 2, 20)];
    let out = to_listings(42, None, &rows).expect("world known for every row");
    assert_eq!(out[0].world_id, 3);
    assert_eq!(out[1].world_id, 4);
}

#[test]
fn missing_world_everywhere_is_rejected() {
    let rows = vec![listing_row(Some(3), 5, 50), listing_row(None, 2, 20)];
    assert!(to_listings(42, None, &rows).is_none());
}

#[test]
fn cloned_listings_are_equal() {
    let v = vec![Listing {
        item_id: 1,
        world_id: 2,
        price_per_unit_raw: 9,
        quantity: 3,
        total_price: 4,
        hq: true,
        retainer_name: String::from("seller"),
    }];
    let c = clone_listings(&v);
    assert_eq!(c.len(), 1);
    assert_eq!(c[0].item_id, v[0].item_id);
    assert_eq!(c[0].world_id, v[0].world_id);
    assert_eq!(c[0].price_per_unit_raw, v[0].price_per_unit_raw);
    assert_eq!(c[0].quantity, v[0].quantity);
    assert_eq!(c[0].total_price, v[0].total_price);
    assert_eq!(c[0].hq, v[0].hq);
    assert_eq!(c[0].retainer_name, v[0].retainer_name);
}
