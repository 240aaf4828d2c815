//! The data model: one sell order on the marketplace.

use vstd::prelude::*;

verus! {

/// One sell order for an item at a world/location.
///
/// Listings are read-only inputs to the search: once built they are never
/// mutated.  The search reads `quantity`, `total_price` and `hq` only;
/// `price_per_unit_raw` (the per-unit price exactly as the marketplace
/// transmitted it, in its raw bit representation) and `retainer_name` are
/// carried through for display.
pub struct Listing {
    pub item_id: u64,
    pub world_id: u64,
    pub price_per_unit_raw: u32,
    pub quantity: u64,
    pub total_price: u64,
    pub hq: bool,
    pub retainer_name: String,
}

impl Clone for Listing {
    fn clone(&self) -> (r: Self)
        ensures
            r == *self,
    {
        Listing {
            item_id: self.item_id,
            world_id: self.world_id,
            price_per_unit_raw: self.price_per_unit_raw,
            quantity: self.quantity,
            total_price: self.total_price,
            hq: self.hq,
            retainer_name: self.retainer_name.clone(),
        }
    }
}

/// An element-wise copy of a listing vector; the copy denotes the very
/// same sequence of listings.
pub fn clone_listings(v: &Vec<Listing>) -> (r: Vec<Listing>)
    ensures
        r@ == v@,
{
    let r = v.clone();
    proof {
        assert(forall|i: int| 0 <= i < v@.len() ==> cloned::<Listing>(v@[i], #[trigger] r@[i]));
        assert forall|i: int| 0 <= i < v@.len() implies #[trigger] r@[i] == v@[i] by {
            assert(cloned::<Listing>(v@[i], r@[i]));
        }
        assert(r@ =~= v@);
    }
    r
}

/// One listing as it appears in the marketplace's response, before the
/// world identifier has been resolved: a response either carries one world
/// for all its listings or one world per listing.
pub struct ListingRow {
    pub world_id: Option<u64>,
    pub price_per_unit_raw: u32,
    pub quantity: u64,
    pub hq: bool,
    pub retainer_name: String,
    pub total: u64,
}

/// The world a row belongs to: the response-wide world when the response
/// names one, the row's own world otherwise.
pub open spec fn row_world(default_world: Option<u64>, row: ListingRow) -> Option<u64> {
    match default_world {
        Some(w) => Some(w),
        None => row.world_id,
    }
}

/// `l` is the listing that `row` describes for item `item_id`.
pub open spec fn listing_matches_row(
    l: Listing,
    item_id: u64,
    default_world: Option<u64>,
    row: ListingRow,
) -> bool {
    &&& l.item_id == item_id
    &&& row_world(default_world, row) == Some(l.world_id)
    &&& l.price_per_unit_raw == row.price_per_unit_raw
    &&& l.quantity == row.quantity
    &&& l.total_price == row.total
    &&& l.hq == row.hq
    &&& l.retainer_name == row.retainer_name
}

/// Builds the listings of a marketplace response.  Returns `None` exactly
/// when some row has no world to take: the response names no world and the
/// row names none either.
pub fn to_listings(item_id: u64, default_world: Option<u64>, rows: &Vec<ListingRow>) -> (r: Option<
    Vec<Listing>,
>)
    ensures
        r.is_some() <==> (forall|i: int|
            0 <= i < rows@.len() ==> row_world(default_world, #[trigger] rows@[i]).is_some()),
        r matches Some(v) ==> {
            &&& v@.len() == rows@.len()
            &&& forall|i: int|
                0 <= i < rows@.len() ==> listing_matches_row(
                    #[trigger] v@[i],
                    item_id,
                    default_world,
                    rows@[i],
                )
        },
{
    let mut out: Vec<Listing> = Vec::new();
    let mut i: usize = 0;
    while i < rows.len()
        invariant
            0 <= i <= rows@.len(),
            out@.len() == i,
            forall|j: int|
                0 <= j < i ==> listing_matches_row(
                    #[trigger] out@[j],
                    item_id,
                    default_world,
                    rows@[j],
                ),
            forall|j: int| 0 <= j < i ==> row_world(default_world, #[trigger] rows@[j]).is_some(),
        decreases rows@.len() - i,
    {
        let row = &rows[i];
        let world_id: u64 = match default_world {
            Some(w) => w,
            None => match row.world_id {
                Some(w) => w,
                None => {
                    return None;
                },
            },
        };
        out.push(
            Listing {
                item_id,
                world_id,
                price_per_unit_raw: row.price_per_unit_raw,
                quantity: row.quantity,
                total_price: row.total,
                hq: row.hq,
                retainer_name: row.retainer_name.clone(),
            },
        );
        i = i + 1;
    }
    Some(out)
}

} // verus!
