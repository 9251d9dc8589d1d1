use inventory_core::controller::{ApiCall, InventoryController, ItemsState};
use inventory_core::item::{AffectedRows, Item};
use inventory_core::notify::{error_message, success_message, MessageBox, MessageContainer,
    NoteAction};

fn item(id: &str, name: &str, category: &str, stock: i64, desired: i64) -> Item {
    Item {
        id: id.to_string(),
        name: name.to_string(),
        category: category.to_string(),
        stock,
        desired_stock: desired,
        track_general: false,
        last_updated: "2024-01-01 00:00:00 UTC".to_string(),
    }
}

fn fresh_controller() -> InventoryController {
    let state = ItemsState::default();
    let message = MessageBox::new(MessageContainer {
        name: String::new(),
        message: String::new(),
        additional_actions: None,
    });
    InventoryController::new(state, message)
}

fn loaded_controller(items: Vec<Item>) -> InventoryController {
    let mut c = fresh_controller();
    c.init_items(Ok(items));
    c
}

#[test]
fn message_box_shows_the_most_recent_notification() {
    let mut b = MessageBox::new(MessageContainer {
        name: String::new(),
        message: String::new(),
        additional_actions: None,
    });
    assert!(!b.box_open);
    b.show(success_message("first".to_string()));
    b.show(error_message("second".to_string()));
    assert!(b.box_open);
    assert_eq!(b.name, "Error");
    assert_eq!(b.message, "second");
}

#[test]
fn closing_hides_but_retains_the_content() {
    let mut b = MessageBox::new(MessageContainer {
        name: "Success".to_string(),
        message: "done".to_string(),
        additional_actions: None,
    });
    assert!(b.box_open);
    b.close();
    assert!(!b.box_open);
    assert_eq!(b.message, "done");
}

#[test]
fn invoking_an_action_hands_it_back_and_closes() {
    let mut b = MessageBox::new(MessageContainer {
        name: "Error contacting database".to_string(),
        message: "no link".to_string(),
        additional_actions: Some(vec![(NoteAction::RetryInit, "Retry".to_string())]),
    });
    assert_eq!(b.invoke(0), Some(NoteAction::RetryInit));
    assert!(!b.box_open);
    assert_eq!(b.invoke(1), None);
}

#[test]
fn successful_fetch_replaces_the_snapshot() {
    let mut c = fresh_controller();
    c.init_items(Ok(vec![item("items:a", "Milk", "Dairy", 2, 3)]));
    assert_eq!(c.state.items.len(), 1);
    assert_eq!(c.state.inventory.get_id("Milk"), Some("items:a".to_string()));
    assert!(!c.message.box_open);
}

#[test]
fn failed_fetch_raises_the_persistent_retry_notification() {
    let mut c = fresh_controller();
    c.init_items(Err("connection refused".to_string()));
    assert!(c.state.items.is_empty());
    assert!(c.message.box_open);
    assert_eq!(c.message.name, "Error contacting database");
    let actions = c.message.additional_actions.clone().unwrap();
    assert_eq!(actions.len(), 1);
    assert_eq!(actions[0].0, NoteAction::RetryInit);
    assert_eq!(actions[0].1, "Retry database connection");
    // the attached action closes the box and asks for the fetch again
    assert_eq!(c.message.invoke(0), Some(NoteAction::RetryInit));
}

#[test]
fn created_item_lands_in_the_store_and_the_note_names_it() {
    let mut c = loaded_controller(vec![]);
    let resync = c.new_item(Ok(item("items:x", "Eggs", "Dairy", 0, 0)));
    assert!(!resync);
    assert!(c.state.items.iter().any(|i| i.id == "items:x"));
    assert_eq!(c.message.name, "Success");
    assert!(c.message.message.contains("Eggs"));
}

#[test]
fn failed_create_reports_and_leaves_the_store() {
    let mut c = loaded_controller(vec![item("items:a", "Milk", "Dairy", 2, 3)]);
    let resync = c.new_item(Err("boom".to_string()));
    assert!(!resync);
    assert_eq!(c.state.items.len(), 1);
    assert_eq!(c.message.name, "Error");
    assert_eq!(c.message.message, "boom");
}

#[test]
fn change_item_resyncs_only_on_success() {
    let mut c = loaded_controller(vec![]);
    assert!(c.change_item(Ok(item("items:a", "Milk", "Dairy", 4, 3))));
    assert_eq!(c.message.name, "Success");
    assert_eq!(
        c.message.message,
        "Item Milk changed successfully. Should now look like:\ncategory: Dairy;\nstock: 4;\ndesired_stock: 3;"
    );
    assert!(!c.change_item(Err("offline".to_string())));
    assert_eq!(c.message.name, "Error");
}

#[test]
fn delete_and_restock_report_and_resync_on_success_only() {
    let mut c = loaded_controller(vec![]);
    assert!(c.delete_item(Ok(AffectedRows { rows_affected: 1 })));
    assert_eq!(c.message.message, "An item was successfully deleted");
    assert!(!c.delete_item(Err("gone".to_string())));
    assert!(c.restock_items(Ok(AffectedRows { rows_affected: 3 })));
    assert_eq!(c.message.message, "3 items were successfully restocked");
    assert!(!c.restock_items(Err("gone".to_string())));
}

#[test]
fn consume_does_not_clamp_and_does_not_resync_on_failure() {
    // the store knows stock 3; a consume of 5 goes through unchanged and
    // the controller leaves any clamping to the backend
    let mut c = loaded_controller(vec![item("items:a", "Milk", "Dairy", 3, 3)]);
    let resync = c.consume_items(Ok(AffectedRows { rows_affected: 1 }));
    assert!(resync);
    assert_eq!(c.message.message, "1 items were successfully consumed");
    assert_eq!(c.state.inventory.get_item("items:a").unwrap().stock, 3);
    let resync = c.consume_items(Err("offline".to_string()));
    assert!(!resync);
    assert_eq!(c.state.inventory.get_item("items:a").unwrap().stock, 3);
}

#[test]
fn change_items_reports_the_row_count() {
    let mut c = loaded_controller(vec![]);
    assert!(c.change_items(Ok(AffectedRows { rows_affected: 2 })));
    assert_eq!(c.message.message, "2 items were successfully changed");
}

#[test]
fn add_item_request_validates_before_any_call() {
    let mut c = loaded_controller(vec![item("items:a", "Milk", "Dairy", 2, 3)]);
    // a missing name is rejected with a message
    assert!(c.add_item_request("", "Dairy").is_none());
    assert!(c.message.box_open);
    assert_eq!(c.message.message, "A name is required for adding an item");
    // a missing category is rejected with a message
    assert!(c.add_item_request("Eggs", "").is_none());
    assert_eq!(c.message.message, "A category is required for adding an item");
    // a duplicate name is rejected with a message
    assert!(c.add_item_request("Milk", "Dairy").is_none());
    assert_eq!(c.message.message, "An item with that name already exists");
    // a fresh name goes through
    match c.add_item_request("Eggs", "Dairy") {
        Some(ApiCall::NewItem { name, category }) => {
            assert_eq!(name, "Eggs");
            assert_eq!(category, "Dairy");
        },
        other => panic!("unexpected request: {:?}", other.is_some()),
    }
}

#[test]
fn add_full_item_request_parses_counts_with_zero_fallback() {
    let mut c = loaded_controller(vec![]);
    match c.add_full_item_request("Eggs", "Dairy", "6", "oops", true) {
        Some(ApiCall::AddFullItem { stock, desired_stock, track_general, .. }) => {
            assert_eq!(stock, 6);
            assert_eq!(desired_stock, 0);
            assert!(track_general);
        },
        _ => panic!("expected a full-create call"),
    }
}

#[test]
fn change_item_request_merges_the_form_over_the_original() {
    let mut c = loaded_controller(vec![item("items:a", "Milk", "Dairy", 2, 3)]);
    match c.change_item_request("Whole Milk", "Dairy", "", "5", "items:a") {
        Some(ApiCall::ChangeItem { id, body }) => {
            assert_eq!(id, "items:a");
            assert_eq!(body.name, "Whole Milk");
            assert_eq!(body.stock, 2);
            assert_eq!(body.desired_stock, 5);
        },
        _ => panic!("expected a replace call"),
    }
    // the name field resolves when the id field does not
    assert!(c.change_item_request("Milk", "Dairy", "", "", "").is_some());
    // a form with neither a name nor an id is rejected with a message
    assert!(c.change_item_request("", "Dairy", "", "", "").is_none());
    assert_eq!(c.message.message, "A name or ID is required for changing an item");
    // unknown inputs are rejected with a message
    assert!(c.change_item_request("Cheese", "Dairy", "", "", "").is_none());
    assert_eq!(c.message.message, "Could not find an item with name Cheese");
}

#[test]
fn delete_item_request_resolves_by_id_or_name() {
    let mut c = loaded_controller(vec![item("items:a", "Milk", "Dairy", 2, 3)]);
    match c.delete_item_request("", "items:a") {
        Some(ApiCall::DeleteItem { id }) => assert_eq!(id, "items:a"),
        _ => panic!("expected a delete call"),
    }
    match c.delete_item_request("Milk", "") {
        Some(ApiCall::DeleteItem { id }) => assert_eq!(id, "items:a"),
        _ => panic!("expected a delete call"),
    }
    assert!(c.delete_item_request("Cheese", "").is_none());
    assert_eq!(c.message.message, "Could not find an item with name Cheese");
}
