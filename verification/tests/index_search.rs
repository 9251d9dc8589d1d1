use inventory_core::controller::{ItemAction, ItemsState};
use inventory_core::group::{group_by_category, items_with_category, sort_items_by_name};
use inventory_core::index::Inventory;
use inventory_core::item::Item;
use inventory_core::search::{filter_items, select_first};

fn item(id: &str, name: &str, category: &str, stock: i64, desired: i64) -> Item {
    Item {
        id: id.to_string(),
        name: name.to_string(),
        category: category.to_string(),
        stock,
        desired_stock: desired,
        track_general: false,
        last_updated: "2024-01-01 00:00:00 UTC".to_string(),
    }
}

fn index_of(items: Vec<Item>) -> Inventory {
    let mut inv = Inventory::default();
    inv.make(items);
    inv
}

#[test]
fn build_maps_items_by_name_and_id() {
    let inv = index_of(vec![
        item("items:a", "Milk", "Dairy", 2, 3),
        item("items:b", "Bread", "Bakery", 1, 2),
    ]);
    assert_eq!(inv.get_id("Milk"), Some("items:a".to_string()));
    assert_eq!(inv.get_id("Bread"), Some("items:b".to_string()));
    assert_eq!(inv.get_id("Cheese"), None);
    assert_eq!(inv.get_item("items:b").unwrap().name, "Bread");
    assert!(inv.get_item("items:c").is_none());
    assert!(inv.contains_name("Milk"));
    assert!(!inv.contains_name("milk"));
}

#[test]
fn build_with_unique_names_pairs_maps_one_to_one() {
    // every id resolves through its item's name back to itself
    let inv = index_of(vec![
        item("items:a", "Milk", "Dairy", 2, 3),
        item("items:b", "Bread", "Bakery", 1, 2),
        item("items:c", "Eggs", "Dairy", 6, 12),
    ]);
    assert_eq!(inv.num_names(), 3);
    for id in ["items:a", "items:b", "items:c"] {
        let it = inv.get_item(id).unwrap();
        assert_eq!(inv.get_id(&it.name), Some(id.to_string()));
    }
}

#[test]
fn build_lets_a_later_duplicate_name_win() {
    let inv = index_of(vec![
        item("items:a", "Milk", "Dairy", 2, 3),
        item("items:b", "Milk", "Dairy", 5, 3),
    ]);
    assert_eq!(inv.num_names(), 1);
    assert_eq!(inv.get_id("Milk"), Some("items:b".to_string()));
}

#[test]
fn entries_come_back_in_lexicographic_name_order() {
    let inv = index_of(vec![
        item("items:c", "Cereal", "Pantry", 1, 1),
        item("items:a", "Apples", "Produce", 4, 2),
        item("items:b", "Bread", "Bakery", 1, 2),
    ]);
    let names: Vec<String> = (0..inv.num_names()).map(|i| inv.name_at(i).0).collect();
    assert_eq!(names, vec!["Apples", "Bread", "Cereal"]);
}

#[test]
fn replace_twice_equals_replace_once() {
    let items = vec![
        item("items:a", "Milk", "Dairy", 2, 3),
        item("items:b", "Bread", "Bakery", 1, 2),
    ];
    let mut once = ItemsState::default();
    once.reduce(ItemAction::Replace(items.clone()));
    let mut twice = ItemsState::default();
    twice.reduce(ItemAction::Replace(items.clone()));
    twice.reduce(ItemAction::Replace(items.clone()));
    assert_eq!(once.items, twice.items);
    assert_eq!(once.inventory.num_names(), twice.inventory.num_names());
    for i in 0..once.inventory.num_names() {
        assert_eq!(once.inventory.name_at(i), twice.inventory.name_at(i));
    }
}

#[test]
fn empty_query_returns_nothing() {
    let inv = index_of(vec![item("items:a", "Milk", "Dairy", 2, 3)]);
    assert!(filter_items(&inv, "").is_empty());
    assert!(filter_items(&inv, "   \t  ").is_empty());
}

#[test]
fn query_milk_c_matches_only_milk_chocolate() {
    let inv = index_of(vec![
        item("items:a", "Milk", "Dairy", 2, 3),
        item("items:b", "Milk Chocolate", "Snacks", 1, 2),
    ]);
    let r = filter_items(&inv, "milk c");
    assert_eq!(r, vec![("Milk Chocolate".to_string(), "items:b".to_string())]);
}

#[test]
fn every_result_contains_every_token_case_insensitively() {
    let inv = index_of(vec![
        item("items:a", "Dr Pepper Large 12oz Bottle", "Drinks", 3, 6),
        item("items:b", "Pepper Grinder", "Pantry", 1, 1),
        item("items:c", "Salt", "Pantry", 1, 1),
    ]);
    let r = filter_items(&inv, "PEP bot");
    assert_eq!(r.len(), 1);
    assert_eq!(r[0].0, "Dr Pepper Large 12oz Bottle");
}

#[test]
fn folding_is_the_full_unicode_mapping() {
    let inv = index_of(vec![item("items:a", "Épice Mix", "Pantry", 1, 1)]);
    let r = filter_items(&inv, "éPICE");
    assert_eq!(r.len(), 1);
    assert_eq!(r[0].0, "Épice Mix");
}

#[test]
fn results_cap_at_five_in_name_order() {
    let mut items = Vec::new();
    for (i, name) in ["Aa", "Ab", "Ac", "Ad", "Ae", "Af", "Ag"].iter().enumerate() {
        items.push(item(&format!("items:{i}"), name, "Pantry", 1, 1));
    }
    let r = filter_items(&index_of(items), "a");
    let names: Vec<String> = r.into_iter().map(|e| e.0).collect();
    assert_eq!(names, vec!["Aa", "Ab", "Ac", "Ad", "Ae"]);
}

#[test]
fn select_first_takes_the_first_result_and_tolerates_none() {
    let results = vec![
        ("Milk".to_string(), "items:a".to_string()),
        ("Milk Chocolate".to_string(), "items:b".to_string()),
    ];
    assert_eq!(select_first(&results), Some("items:a".to_string()));
    assert_eq!(select_first(&Vec::new()), None);
}

#[test]
fn grouping_orders_categories_and_keeps_snapshot_order_within() {
    let items = vec![
        item("items:a", "Milk", "Dairy", 2, 3),
        item("items:b", "Bread", "Bakery", 1, 2),
        item("items:c", "Cheese", "Dairy", 1, 1),
    ];
    let groups = group_by_category(&items);
    let names: Vec<String> = groups.iter().map(|g| g.0.clone()).collect();
    assert_eq!(names, vec!["Bakery", "Dairy"]);
    let dairy: Vec<String> = groups[1].1.iter().map(|i| i.name.clone()).collect();
    assert_eq!(dairy, vec!["Milk", "Cheese"]);
    let only_dairy = items_with_category(&items, "Dairy");
    assert_eq!(only_dairy.len(), 2);
    let sorted = sort_items_by_name(&only_dairy);
    let sorted_names: Vec<String> = sorted.iter().map(|i| i.name.clone()).collect();
    assert_eq!(sorted_names, vec!["Cheese", "Milk"]);
}

#[test]
fn append_keeps_index_until_next_replace() {
    let mut state = ItemsState::default();
    state.reduce(ItemAction::Replace(vec![item("items:a", "Milk", "Dairy", 2, 3)]));
    state.reduce(ItemAction::Add(item("items:b", "Bread", "Bakery", 1, 2)));
    assert_eq!(state.items.len(), 2);
    // the optimistic append leaves the derived index at the old snapshot
    assert_eq!(state.inventory.num_names(), 1);
    assert!(state.inventory.get_id("Bread").is_none());
}
