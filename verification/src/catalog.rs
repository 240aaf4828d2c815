//! Static game reference data: items, recipes, and the cleanup of the
//! bulk dataset they are read from.
//!
//! The bulk dataset arrives as tabular text whose first three lines are
//! column indexes, column names and column types; [`clean_csv`] splices it
//! so that the name line becomes the header and the other two vanish.
//! Downloading and decoding the table is the embedding program's job; the
//! row-to-recipe rules and the catalog assembly live here.

use vstd::prelude::*;

verus! {

/// One purchasable item: its display name and its numeric identifier.
pub struct Item {
    pub name: String,
    pub id: u64,
}

impl Clone for Item {
    fn clone(&self) -> (r: Self)
        ensures
            r == *self,
    {
        Item { name: self.name.clone(), id: self.id }
    }
}

impl Item {
    /// An item from its dataset fields.
    pub fn new(id: u64, name: String) -> (r: Item)
        ensures
            r.id == id,
            r.name == name,
    {
        Item { id, name }
    }
}

/// One crafting recipe: what it produces, how much, and the (item,
/// quantity) pairs it consumes.
pub struct Recipe {
    pub id: u64,
    pub result_item_id: u64,
    pub result_item_quantity: u64,
    pub ingredients: Vec<(u64, u64)>,
}

impl Clone for Recipe {
    fn clone(&self) -> (r: Self)
        ensures
            r.id == self.id,
            r.result_item_id == self.result_item_id,
            r.result_item_quantity == self.result_item_quantity,
            r.ingredients@ == self.ingredients@,
    {
        let mut ingredients: Vec<(u64, u64)> = Vec::new();
        let mut i: usize = 0;
        proof {
            assert(ingredients@ =~= self.ingredients@.take(0));
        }
        while i < self.ingredients.len()
            invariant
                i <= self.ingredients@.len(),
                ingredients@ == self.ingredients@.take(i as int),
            decreases self.ingredients@.len() - i,
        {
            ingredients.push(self.ingredients[i]);
            proof {
                assert(ingredients@ =~= self.ingredients@.take(i + 1));
            }
            i = i + 1;
        }
        proof {
            assert(self.ingredients@.take(self.ingredients@.len() as int) =~= self.ingredients@);
        }
        Recipe {
            id: self.id,
            result_item_id: self.result_item_id,
            result_item_quantity: self.result_item_quantity,
            ingredients,
        }
    }
}

/// One recipe row of the bulk dataset: signed fields as transmitted, with
/// eight fixed ingredient slots as (item, amount) pairs.
#[derive(Clone, Copy)]
pub struct RecipeRow {
    pub id: i64,
    pub result_item_id: i64,
    pub result_item_amount: i64,
    pub ingredient_slots: [(i64, i64); 8],
}

/// The dataset encodes identifiers and amounts as signed numbers but the
/// catalog uses none that are negative: a row is usable when every field
/// read from it is non-negative.
pub open spec fn row_in_range(row: RecipeRow) -> bool {
    &&& row.id >= 0
    &&& row.result_item_id >= 0
    &&& row.result_item_amount >= 0
    &&& forall|j: int|
        0 <= j < row.ingredient_slots@.len() ==> (#[trigger] row.ingredient_slots@[j]).0 >= 0
            && row.ingredient_slots@[j].1 >= 0
}

/// The ingredient pairs a row keeps: the slots with a positive amount, in
/// slot order.
pub open spec fn kept_ingredients(slots: Seq<(i64, i64)>) -> Seq<(u64, u64)> {
    slots.filter(|p: (i64, i64)| p.1 > 0).map_values(|p: (i64, i64)| (p.0 as u64, p.1 as u64))
}

impl Recipe {
    /// The recipe a dataset row describes: empty ingredient slots (amount
    /// zero) are dropped, the rest keep their slot order.
    pub fn from_row(row: &RecipeRow) -> (r: Recipe)
        requires
            row_in_range(*row),
        ensures
            r.id == row.id as u64,
            r.result_item_id == row.result_item_id as u64,
            r.result_item_quantity == row.result_item_amount as u64,
            r.ingredients@ == kept_ingredients(row.ingredient_slots@),
    {
        let mut ingredients: Vec<(u64, u64)> = Vec::new();
        let mut i: usize = 0;
        proof {
            reveal(Seq::filter);
            assert(row.ingredient_slots@.take(0) =~= Seq::<(i64, i64)>::empty());
            assert(ingredients@ =~= kept_ingredients(row.ingredient_slots@.take(0)));
        }
        while i < 8
            invariant
                i <= 8,
                row_in_range(*row),
                row.ingredient_slots@.len() == 8,
                ingredients@ == kept_ingredients(row.ingredient_slots@.take(i as int)),
            decreases 8 - i,
        {
            let (item_id, amount) = row.ingredient_slots[i];
            proof {
                reveal(Seq::filter);
                let pre = row.ingredient_slots@.take(i as int);
                let cur = row.ingredient_slots@.take(i + 1);
                assert(cur.drop_last() =~= pre);
                assert(cur.last() == row.ingredient_slots@[i as int]);
                if row.ingredient_slots@[i as int].1 > 0 {
                    assert(kept_ingredients(cur) =~= kept_ingredients(pre).push(
                        (
                            row.ingredient_slots@[i as int].0 as u64,
                            row.ingredient_slots@[i as int].1 as u64,
                        ),
                    ));
                } else {
                    assert(kept_ingredients(cur) =~= kept_ingredients(pre));
                }
            }
            if amount > 0 {
                ingredients.push((item_id as u64, amount as u64));
            }
            i = i + 1;
        }
        proof {
            assert(row.ingredient_slots@.take(8) =~= row.ingredient_slots@);
        }
        Recipe {
            id: row.id as u64,
            result_item_id: row.result_item_id as u64,
            result_item_quantity: row.result_item_amount as u64,
            ingredients,
        }
    }
}

/// The position of the first item with this identifier, or `-1` when none
/// has it.
pub open spec fn item_index_of(items: Seq<Item>, id: u64) -> int
    decreases items.len(),
{
    if items.len() == 0 {
        -1
    } else if items[0].id == id {
        0
    } else {
        let rest = item_index_of(items.drop_first(), id);
        if rest == -1 {
            -1
        } else {
            rest + 1
        }
    }
}

pub proof fn lemma_item_index_of(items: Seq<Item>, id: u64)
    ensures
        item_index_of(items, id) == -1 <==> (forall|j: int|
            0 <= j < items.len() ==> (#[trigger] items[j]).id != id),
        item_index_of(items, id) != -1 ==> {
            let ix = item_index_of(items, id);
            &&& 0 <= ix < items.len()
            &&& items[ix].id == id
            &&& forall|j: int| 0 <= j < ix ==> (#[trigger] items[j]).id != id
        },
    decreases items.len(),
{
    if items.len() > 0 {
        let rest = items.drop_first();
        lemma_item_index_of(rest, id);
        assert(forall|j: int| 0 <= j < rest.len() ==> rest[j] == items[j + 1]);
        if items[0].id != id {
            let rx = item_index_of(rest, id);
            if rx != -1 {
                assert(rest[rx] == items[rx + 1]);
                assert forall|j: int| 0 <= j < rx + 1 implies (#[trigger] items[j]).id != id by {
                    if j > 0 {
                        assert(rest[j - 1] == items[j]);
                        assert(rest[j - 1].id != id);
                    }
                }
            } else {
                assert forall|j: int|
                    0 <= j < items.len() implies (#[trigger] items[j]).id != id by {
                    if j > 0 {
                        assert(rest[j - 1] == items[j]);
                        assert(rest[j - 1].id != id);
                    }
                }
            }
            if forall|j: int| 0 <= j < items.len() ==> (#[trigger] items[j]).id != id {
                assert(forall|j: int| 0 <= j < rest.len() ==> (#[trigger] rest[j]).id != id) by {
                    assert(forall|j: int|
                        0 <= j < rest.len() ==> rest[j] == items[j + 1] && (#[trigger] rest[j]).id
                            == items[j + 1].id);
                }
            }
        }
    }
}

/// A usable row: it keeps at least one ingredient and its product is a
/// known item.
pub open spec fn row_keep(row: RecipeRow, items: Seq<Item>) -> bool {
    &&& kept_ingredients(row.ingredient_slots@).len() > 0
    &&& item_index_of(items, row.result_item_id as u64) != -1
}

/// `rec` is the recipe of `row`.
pub open spec fn recipe_matches_row(rec: Recipe, row: RecipeRow) -> bool {
    &&& rec.id == row.id as u64
    &&& rec.result_item_id == row.result_item_id as u64
    &&& rec.result_item_quantity == row.result_item_amount as u64
    &&& rec.ingredients@ == kept_ingredients(row.ingredient_slots@)
}

/// The loaded catalog: all items, the usable recipes, and for each kept
/// recipe the item it produces.
pub struct ItemData {
    pub items: Vec<Item>,
    pub recipes: Vec<Recipe>,
    pub craftable_items: Vec<Item>,
}

impl ItemData {
    /// Assembles the catalog from the parsed item list and recipe rows.
    /// A row without ingredients, or whose product is no known item, is
    /// dropped; each kept recipe contributes the first item carrying its
    /// product's identifier to the craftable list.
    pub fn build(items: Vec<Item>, rows: &Vec<RecipeRow>) -> (r: ItemData)
        requires
            forall|i: int| 0 <= i < rows@.len() ==> row_in_range(#[trigger] rows@[i]),
        ensures
            r.items == items,
            ({
                let kept = rows@.filter(|row: RecipeRow| row_keep(row, items@));
                &&& r.recipes@.len() == kept.len()
                &&& forall|j: int|
                    0 <= j < kept.len() ==> recipe_matches_row(#[trigger] r.recipes@[j], kept[j])
                &&& r.craftable_items@.len() == kept.len()
                &&& forall|j: int|
                    0 <= j < kept.len() ==> #[trigger] r.craftable_items@[j] == items@[item_index_of(
                        items@,
                        kept[j].result_item_id as u64,
                    )]
            }),
    {
        let mut recipes: Vec<Recipe> = Vec::new();
        let mut craftable: Vec<Item> = Vec::new();
        let mut i: usize = 0;
        proof {
            reveal(Seq::filter);
            assert(rows@.take(0) =~= Seq::<RecipeRow>::empty());
        }
        while i < rows.len()
            invariant
                i <= rows@.len(),
                forall|j: int| 0 <= j < rows@.len() ==> row_in_range(#[trigger] rows@[j]),
                ({
                    let kept = rows@.take(i as int).filter(|row: RecipeRow| row_keep(row, items@));
                    &&& recipes@.len() == kept.len()
                    &&& forall|j: int|
                        0 <= j < kept.len() ==> recipe_matches_row(#[trigger] recipes@[j], kept[j])
                    &&& craftable@.len() == kept.len()
                    &&& forall|j: int|
                        0 <= j < kept.len() ==> #[trigger] craftable@[j] == items@[item_index_of(
                            items@,
                            kept[j].result_item_id as u64,
                        )]
                }),
            decreases rows@.len() - i,
        {
            let row = &rows[i];
            let rec = Recipe::from_row(row);
            proof {
                reveal(Seq::filter);
                assert(rows@.take(i + 1).drop_last() =~= rows@.take(i as int));
                assert(rows@.take(i + 1).last() == rows@[i as int]);
            }
            if rec.ingredients.len() > 0 {
                match Self::find_item(&items, rec.result_item_id) {
                    Some(ix) => {
                        recipes.push(rec);
                        craftable.push(items[ix].clone());
                        proof {
                            let kept = rows@.take(i + 1).filter(
                                |row: RecipeRow| row_keep(row, items@),
                            );
                            assert(kept =~= rows@.take(i as int).filter(
                                |row: RecipeRow| row_keep(row, items@),
                            ).push(rows@[i as int]));
                        }
                    },
                    None => {
                        proof {
                            assert(!row_keep(rows@[i as int], items@));
                        }
                    },
                }
            } else {
                proof {
                    assert(!row_keep(rows@[i as int], items@));
                }
            }
            i = i + 1;
        }
        proof {
            assert(rows@.take(rows@.len() as int) =~= rows@);
        }
        ItemData { items, recipes, craftable_items: craftable }
    }

    fn find_item(items: &Vec<Item>, id: u64) -> (r: Option<usize>)
        ensures
            match r {
                Some(ix) => ix as int == item_index_of(items@, id) && ix < items@.len()
                    && items@[ix as int].id == id,
                None => item_index_of(items@, id) == -1,
            },
    {
        proof {
            lemma_item_index_of(items@, id);
        }
        let mut i: usize = 0;
        while i < items.len()
            invariant
                i <= items@.len(),
                forall|j: int| 0 <= j < i ==> (#[trigger] items@[j]).id != id,
            decreases items@.len() - i,
        {
            if items[i].id == id {
                proof {
                    lemma_item_index_of(items@, id);
                }
                return Some(i);
            }
            i = i + 1;
        }
        proof {
            lemma_item_index_of(items@, id);
        }
        None
    }

    /// Whether an item with this identifier exists in the catalog; the
    /// service answers combination queries only for known items.
    pub fn has_item(&self, id: u64) -> (r: bool)
        ensures
            r == exists|j: int| 0 <= j < self.items@.len() && (#[trigger] self.items@[j]).id == id,
    {
        proof {
            lemma_item_index_of(self.items@, id);
        }
        match Self::find_item(&self.items, id) {
            Some(_) => true,
            None => false,
        }
    }
}

/// The recipes producing one item, in their stored order.  The recipe
/// list is consumed; what is not kept is dropped.
pub fn recipes_for_item(recipes: Vec<Recipe>, item_id: u64) -> (out: Vec<Recipe>)
    ensures
        out@ == recipes@.filter(|r: Recipe| r.result_item_id == item_id),
{
    let ghost orig = recipes@;
    let mut rest = recipes;
    let mut out: Vec<Recipe> = Vec::new();
    let ghost mut i: int = 0;
    proof {
        reveal(Seq::filter);
        assert(orig.take(0) =~= Seq::<Recipe>::empty());
        assert(rest@ =~= orig.skip(0));
    }
    while rest.len() > 0
        invariant
            0 <= i <= orig.len(),
            rest@ == orig.skip(i),
            out@ == orig.take(i).filter(|r: Recipe| r.result_item_id == item_id),
        decreases rest@.len(),
    {
        let rec = rest.remove(0);
        proof {
            reveal(Seq::filter);
            assert(rec == orig[i]) by {
                assert(orig.skip(i)[0] == orig[i]);
            }
            assert(rest@ =~= orig.skip(i + 1));
            assert(orig.take(i + 1).drop_last() =~= orig.take(i));
            assert(orig.take(i + 1).last() == orig[i]);
        }
        if rec.result_item_id == item_id {
            out.push(rec);
        }
        proof {
            i = i + 1;
        }
    }
    proof {
        assert(orig.skip(i).len() == 0);
        assert(i == orig.len());
        assert(orig.take(orig.len() as int) =~= orig);
    }
    out
}

/// Index of the first line break at or beyond `from`, or `-1`.
pub open spec fn first_nl(s: Seq<u8>, from: int) -> int
    decreases s.len() - from,
{
    if from < 0 || from >= s.len() {
        -1
    } else if s[from] == 10u8 {
        from
    } else {
        first_nl(s, from + 1)
    }
}

pub proof fn lemma_first_nl(s: Seq<u8>, from: int)
    requires
        0 <= from <= s.len(),
    ensures
        first_nl(s, from) == -1 <==> (forall|j: int| from <= j < s.len() ==> s[j] != 10u8),
        first_nl(s, from) != -1 ==> {
            let ix = first_nl(s, from);
            &&& from <= ix < s.len()
            &&& s[ix] == 10u8
            &&& forall|j: int| from <= j < ix ==> s[j] != 10u8
        },
    decreases s.len() - from,
{
    if from < s.len() && s[from] != 10u8 {
        lemma_first_nl(s, from + 1);
    }
}

fn find_newline(data: &Vec<u8>, from: usize) -> (r: Option<usize>)
    requires
        from <= data@.len(),
    ensures
        match r {
            Some(ix) => ix as int == first_nl(data@, from as int) && from <= ix < data@.len()
                && data@[ix as int] == 10u8,
            None => first_nl(data@, from as int) == -1,
        },
{
    let mut i: usize = from;
    while i < data.len()
        invariant
            from <= i <= data@.len(),
            forall|j: int| from <= j < i ==> data@[j] != 10u8,
        decreases data@.len() - i,
    {
        if data[i] == 10u8 {
            proof {
                lemma_first_nl(data@, from as int);
            }
            return Some(i);
        }
        i = i + 1;
    }
    proof {
        lemma_first_nl(data@, from as int);
    }
    None
}

/// Splices the bulk dataset for the tabular reader: drops the first line
/// (column indexes), keeps the second (column names) as the header, drops
/// the third (column types), and keeps everything after it.  `None` when
/// the text has fewer than three line breaks, in which case it is not the
/// expected shape at all.
pub fn clean_csv(data: &Vec<u8>) -> (r: Option<Vec<u8>>)
    ensures
        r.is_some() <==> ({
            let i1 = first_nl(data@, 0);
            &&& i1 != -1
            &&& first_nl(data@, i1 + 1) != -1
            &&& first_nl(data@, first_nl(data@, i1 + 1) + 1) != -1
        }),
        r matches Some(out) ==> ({
            let i1 = first_nl(data@, 0);
            let i2 = first_nl(data@, i1 + 1);
            let i3 = first_nl(data@, i2 + 1);
            out@ == data@.subrange(i1 + 1, i2 + 1) + data@.subrange(i3 + 1, data@.len() as int)
        }),
{
    let n = data.len();
    let i1 = match find_newline(data, 0) {
        Some(ix) => ix,
        None => {
            return None;
        },
    };
    let i2 = match find_newline(data, i1 + 1) {
        Some(ix) => ix,
        None => {
            return None;
        },
    };
    let i3 = match find_newline(data, i2 + 1) {
        Some(ix) => ix,
        None => {
            return None;
        },
    };
    let mut out: Vec<u8> = Vec::new();
    let mut j: usize = i1 + 1;
    proof {
        assert(out@ =~= data@.subrange(i1 + 1, i1 + 1));
    }
    while j < i2 + 1
        invariant
            i1 + 1 <= j <= i2 + 1,
            n == data@.len(),
            i2 < n,
            out@ == data@.subrange(i1 + 1, j as int),
        decreases i2 + 1 - j,
    {
        out.push(data[j]);
        proof {
            assert(out@ =~= data@.subrange(i1 + 1, j + 1));
        }
        j = j + 1;
    }
    let mut j2: usize = i3 + 1;
    let ghost part1 = data@.subrange(i1 + 1, i2 + 1);
    proof {
        assert(out@ =~= part1 + data@.subrange(i3 + 1, i3 + 1));
    }
    while j2 < data.len()
        invariant
            i3 + 1 <= j2 <= data@.len(),
            i1 + 1 <= i2 + 1 <= data@.len(),
            part1 == data@.subrange(i1 + 1, i2 + 1),
            out@ == part1 + data@.subrange(i3 + 1, j2 as int),
        decreases data@.len() - j2,
    {
        out.push(data[j2]);
        proof {
            assert(out@ =~= part1 + data@.subrange(i3 + 1, j2 + 1));
        }
        j2 = j2 + 1;
    }
    Some(out)
}

} // verus!
