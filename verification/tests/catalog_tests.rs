use xivprofit::catalog::{clean_csv, recipes_for_item, Item, ItemData, Recipe, RecipeRow};

fn row(id: i64, result: i64, amount: i64, slots: [(i64, i64); 8]) -> RecipeRow {
    RecipeRow { id, result_item_id: result, result_item_amount: amount, ingredient_slots: slots }
}

const EMPTY_SLOTS: [(i64, i64); 8] =
    [(0, 0), (0, 0), (0, 0), (0, 0), (0, 0), (0, 0), (0, 0), (0, 0)];

#[test]
fn clean_csv_splices_header_and_body() {
    let data = b"key,0,1\nName,#\nstr,int\nBronze Ingot,5056\nIron Ingot,5057\n".to_vec();
    let out = clean_csv(&data).expect("well-shaped table");
    assert_eq!(out, b"Name,#\nBronze Ingot,5056\nIron Ingot,5057\n".to_vec());
}

#[test]
fn clean_csv_rejects_short_input() {
    assert!(clean_csv(&b"no line breaks at all".to_vec()).is_none());
    assert!(clean_csv(&b"one\n".to_vec()).is_none());
    assert!(clean_csv(&b"one\ntwo\n".to_vec()).is_none());
    assert!(clean_csv(&b"one\ntwo\nthree\n".to_vec()).is_some());
}

#[test]
fn recipe_from_row_keeps_filled_slots_in_order() {
    let mut slots = EMPTY_SLOTS;
    slots[0] = (11, 2);
    slots[2] = (13, 4);
    slots[3] = (14, 0); // an empty slot: amount zero is dropped
    let rec = Recipe::from_row(&row(7, 100, 1, slots));
    assert_eq!(rec.id, 7);
    assert_eq!(rec.result_item_id, 100);
    assert_eq!(rec.result_item_quantity, 1);
    assert_eq!(rec.ingredients, vec![(11, 2), (13, 4)]);
}

#[test]
fn build_keeps_usable_rows_and_their_products() {
    let items = vec![
        Item::new(10, String::from("Copper Ore")),
        Item::new(20, String::from("Copper Ingot")),
    ];
    let mut good = EMPTY_SLOTS;
    good[0] = (10, 3);
    let mut unknown_product = EMPTY_SLOTS;
    unknown_product[0] = (10, 1);
    let rows = vec![
        row(1, 20, 1, good),            // kept
        row(2, 99, 1, unknown_product), // product is no known item
        row(3, 20, 1, EMPTY_SLOTS),     // no ingredients
    ];
    let data = ItemData::build(items, &rows);
    assert_eq!(data.items.len(), 2);
    assert_eq!(data.recipes.len(), 1);
    assert_eq!(data.recipes[0].id, 1);
    assert_eq!(data.recipes[0].ingredients, vec![(10, 3)]);
    assert_eq!(data.craftable_items.len(), 1);
    assert_eq!(data.craftable_items[0].id, 20);
    assert_eq!(data.craftable_items[0].name, "Copper Ingot");
}

#[test]
fn has_item_checks_the_catalog() {
    let items = vec![Item::new(10, String::from("Copper Ore"))];
    let data = ItemData::build(items, &Vec::new());
    assert!(data.has_item(10));
    assert!(!data.has_item(11));
}

#[test]
fn recipes_for_item_filters_by_product() {
    let mut slots = EMPTY_SLOTS;
    slots[0] = (1, 1);
    let recipes = vec![
        Recipe::from_row(&row(1, 20, 1, slots)),
        Recipe::from_row(&row(2, 30, 1, slots)),
        Recipe::from_row(&row(3, 20, 2, slots)),
    ];
    let out = recipes_for_item(recipes, 20);
    assert_eq!(out.len(), 2);
    assert_eq!(out[0].id, 1);
    assert_eq!(out[1].id, 3);
}
