//! The mutation controller: the pure decision core of every intent. Each
//! network operation is split into a request side — validation, and the
//! call to issue — and a response side that turns the call's outcome into
//! the next state: a notification, a store update, and whether to
//! resynchronize. The surrounding event loop performs the calls and feeds
//! the outcomes back in; everything here is synchronous and total.

use vstd::prelude::*;
use crate::index::{built_id_map, built_name_map, Inventory};
use crate::item::{AffectedRows, Item, ItemView, RestockItem};
use crate::notify::{error_message, shown_note, success_message, MessageBox, MessageContainer,
    NoteAction};
use crate::numfmt::{dec_digits, int_of_str, is_i64_literal, u64_to_string};

verus! {

/// A store update: replace the whole snapshot, or append one item.
pub enum ItemAction {
    Replace(Vec<Item>),
    Add(Item),
}

/// The item store and its derived index.
pub struct ItemsState {
    pub items: Vec<Item>,
    pub inventory: Inventory,
}

impl ItemsState {
    /// The index is well-formed.
    pub open spec fn wf(self) -> bool {
        self.inventory.wf()
    }

    /// The quiescent invariant: both derived maps are exactly the maps
    /// built from the current snapshot.
    pub open spec fn synced(self) -> bool {
        &&& self.inventory.name_map() == built_name_map(self.items.deep_view())
        &&& self.inventory.id_map() == built_id_map(self.items.deep_view())
    }

    /// Applies a store update. Replacing the snapshot rebuilds the whole
    /// index and restores the quiescent invariant; appending is the
    /// optimistic path after a create and leaves the index untouched
    /// until the next resynchronization.
    pub fn reduce(&mut self, action: ItemAction)
        ensures
            action matches ItemAction::Replace(items) ==> {
                &&& final(self).items == items
                &&& final(self).wf()
                &&& final(self).synced()
            },
            action matches ItemAction::Add(item) ==> {
                &&& final(self).items@ == old(self).items@.push(item)
                &&& final(self).inventory == old(self).inventory
            },
    {
        match action {
            ItemAction::Replace(items) => {
                let copy = clone_items(&items);
                proof {
                    assert(copy.deep_view() =~= items.deep_view());
                }
                self.inventory.make(copy);
                self.items = items;
            },
            ItemAction::Add(item) => {
                self.items.push(item);
            },
        }
    }
}

impl Default for ItemsState {
    /// The empty store with an empty index.
    fn default() -> (r: Self)
        ensures
            r.items@ == Seq::<Item>::empty(),
            r.wf(),
            r.synced(),
    {
        let r = ItemsState { items: Vec::new(), inventory: Inventory::default() };
        proof {
            assert(r.items.deep_view() =~= Seq::<ItemView>::empty());
            assert(built_name_map(r.items.deep_view()) =~= Map::<Seq<char>, Seq<char>>::empty());
            assert(built_id_map(r.items.deep_view()) =~= Map::<Seq<char>, ItemView>::empty());
        }
        r
    }
}

/// Clones a snapshot of the item list, element for element.
pub fn clone_items(items: &Vec<Item>) -> (r: Vec<Item>)
    ensures
        r@ == items@,
{
    let mut r: Vec<Item> = Vec::new();
    let mut i: usize = 0;
    while i < items.len()
        invariant
            i <= items.len(),
            r@ =~= items@.take(i as int),
        decreases items.len() - i,
    {
        r.push(items[i].clone());
        proof {
            assert(items@.take(i + 1).drop_last() =~= items@.take(i as int));
        }
        i = i + 1;
    }
    proof {
        assert(items@.take(items.len() as int) =~= items@);
    }
    r
}

/// A network call the controller asks the surrounding event loop to
/// perform. The loop performs it and feeds the outcome back into the
/// matching response handler.
pub enum ApiCall {
    FetchItems,
    NewItem { name: String, category: String },
    AddFullItem {
        name: String,
        category: String,
        stock: i64,
        desired_stock: i64,
        track_general: bool,
    },
    ChangeItem { id: String, body: Item },
    ChangeItems { items: Vec<Item> },
    DeleteItem { id: String },
    RestockItems { restock: Vec<RestockItem> },
    ConsumeItems { consume: Vec<RestockItem> },
}

/// The id an edit or delete form resolves to: the id input itself when
/// the index knows it, else the id the name input maps to.
pub open spec fn resolved_id(inv: Inventory, id_in: Seq<char>, name_in: Seq<char>) -> Option<
    Seq<char>,
> {
    if inv.id_map().contains_key(id_in) {
        Some(id_in)
    } else if inv.name_map().contains_key(name_in) {
        Some(inv.name_map()[name_in])
    } else {
        None
    }
}

/// The value a numeric form field contributes: its parsed value, or the
/// fallback when the field is empty or not a number.
pub open spec fn parsed_or(s: Seq<char>, fallback: int) -> int {
    if is_i64_literal(s) {
        int_of_str(s)
    } else {
        fallback
    }
}

/// The item an edit form produces: the form's name, category and counts
/// over the original item, keeping its tracking mode and timestamp.
/// Unparseable count fields fall back to the original values.
pub open spec fn merged_item(
    orig: ItemView,
    id: Seq<char>,
    name: Seq<char>,
    category: Seq<char>,
    stock_in: Seq<char>,
    desired_in: Seq<char>,
) -> ItemView {
    ItemView {
        id: id,
        name: name,
        category: category,
        stock: parsed_or(stock_in, orig.stock),
        desired_stock: parsed_or(desired_in, orig.desired_stock),
        track_general: orig.track_general,
        last_updated: orig.last_updated,
    }
}

/// The text of the notification shown when the initial fetch fails.
pub open spec fn init_failure_text() -> Seq<char> {
    "This web interface has successfully loaded, but can not make contact with the database.\nThere could be a number of reasons for this, but the most likely one is that the database failed to start or recently crashed.\nPlease ensure the database is running before pressing retry or reloading this page."@
}

/// The controller: the item store, its index, and the notification slot.
pub struct InventoryController {
    pub state: ItemsState,
    pub message: MessageBox,
}

impl InventoryController {
    /// A controller over the given store and notification slot.
    pub fn new(state: ItemsState, message: MessageBox) -> (r: InventoryController)
        ensures
            r.state == state,
            r.message == message,
    {
        InventoryController { state, message }
    }

    /// Handles the outcome of a fetch-all — the initial load and every
    /// resynchronization. Success replaces the snapshot wholesale and
    /// rebuilds the index; failure leaves the store untouched and raises
    /// a persistent notification whose attached action retries the fetch.
    pub fn init_items(&mut self, response: Result<Vec<Item>, String>)
        ensures
            response matches Ok(items) ==> {
                &&& final(self).state.items == items
                &&& final(self).state.wf()
                &&& final(self).state.synced()
                &&& final(self).message == old(self).message
            },
            response matches Err(e) ==> {
                &&& final(self).state == old(self).state
                &&& final(self).message@.box_open
                &&& final(self).message@.name == "Error contacting database"@
                &&& final(self).message@.message == init_failure_text()
                &&& final(self).message@.additional_actions == Some(
                    seq![(NoteAction::RetryInit, "Retry database connection"@)],
                )
            },
    {
        match response {
            Ok(items) => {
                self.state.reduce(ItemAction::Replace(items));
            },
            Err(_) => {
                let mut actions: Vec<(NoteAction, String)> = Vec::new();
                actions.push((NoteAction::RetryInit, String::from_str(
                    "Retry database connection",
                )));
                proof {
                    assert(actions.deep_view() =~= seq![
                        (NoteAction::RetryInit, "Retry database connection"@),
                    ]);
                }
                self.message.show(
                    MessageContainer {
                        name: String::from_str("Error contacting database"),
                        message: String::from_str(
                            "This web interface has successfully loaded, but can not make contact with the database.\nThere could be a number of reasons for this, but the most likely one is that the database failed to start or recently crashed.\nPlease ensure the database is running before pressing retry or reloading this page.",
                        ),
                        additional_actions: Some(actions),
                    },
                );
            },
        }
    }

    /// Handles the outcome of a create. Success reports the new item by
    /// name and appends it optimistically — the server already returned
    /// it, so no resynchronization is needed; failure reports the error
    /// and changes nothing.
    pub fn new_item(&mut self, response: Result<Item, String>) -> (resync: bool)
        ensures
            !resync,
            response matches Ok(item) ==> {
                &&& final(self).state.items@ == old(self).state.items@.push(item)
                &&& final(self).state.inventory == old(self).state.inventory
                &&& final(self).message@ == shown_note(
                    "Success"@,
                    "Item "@ + item@.name + " added successfully"@,
                )
            },
            response matches Err(e) ==> {
                &&& final(self).state == old(self).state
                &&& final(self).message@ == shown_note("Error"@, e@)
            },
    {
        match response {
            Ok(item) => {
                let mut text = String::from_str("Item ");
                text.append(item.name.as_str());
                text.append(" added successfully");
                self.message.show(success_message(text));
                self.state.reduce(ItemAction::Add(item));
            },
            Err(e) => {
                self.message.show(error_message(e));
            },
        }
        false
    }

    /// Handles the outcome of a full create, as [`Self::new_item`] does.
    pub fn add_full_item(&mut self, response: Result<Item, String>) -> (resync: bool)
        ensures
            !resync,
            response matches Ok(item) ==> {
                &&& final(self).state.items@ == old(self).state.items@.push(item)
                &&& final(self).state.inventory == old(self).state.inventory
                &&& final(self).message@ == shown_note(
                    "Success"@,
                    "Full item "@ + item@.name + " added successfully"@,
                )
            },
            response matches Err(e) ==> {
                &&& final(self).state == old(self).state
                &&& final(self).message@ == shown_note("Error"@, e@)
            },
    {
        match response {
            Ok(item) => {
                let mut text = String::from_str("Full item ");
                text.append(item.name.as_str());
                text.append(" added successfully");
                self.message.show(success_message(text));
                self.state.reduce(ItemAction::Add(item));
            },
            Err(e) => {
                self.message.show(error_message(e));
            },
        }
        false
    }

    /// Handles the outcome of an edit. Success reports the item's new
    /// fields and asks for a resynchronization; failure reports the error
    /// and changes nothing.
    pub fn change_item(&mut self, response: Result<Item, String>) -> (resync: bool)
        ensures
            final(self).state == old(self).state,
            response matches Ok(item) ==> {
                &&& resync
                &&& final(self).message@ == shown_note(
                    "Success"@,
                    "Item "@ + item@.name
                        + " changed successfully. Should now look like:\ncategory: "@
                        + item@.category + ";\nstock: "@ + crate::numfmt::dec_int(item@.stock)
                        + ";\ndesired_stock: "@ + crate::numfmt::dec_int(item@.desired_stock)
                        + ";"@,
                )
            },
            response matches Err(e) ==> {
                &&& !resync
                &&& final(self).message@ == shown_note("Error"@, e@)
            },
    {
        match response {
            Ok(item) => {
                let mut text = String::from_str("Item ");
                text.append(item.name.as_str());
                text.append(" changed successfully. Should now look like:\ncategory: ");
                text.append(item.category.as_str());
                text.append(";\nstock: ");
                let stock = crate::numfmt::i64_to_string(item.stock);
                text.append(stock.as_str());
                text.append(";\ndesired_stock: ");
                let desired = crate::numfmt::i64_to_string(item.desired_stock);
                text.append(desired.as_str());
                text.append(";");
                self.message.show(success_message(text));
                true
            },
            Err(e) => {
                self.message.show(error_message(e));
                false
            },
        }
    }

    /// Handles the outcome of a delete: a fixed success summary and a
    /// resynchronization, or the error and no change.
    pub fn delete_item(&mut self, response: Result<AffectedRows, String>) -> (resync: bool)
        ensures
            final(self).state == old(self).state,
            response matches Ok(rows) ==> {
                &&& resync
                &&& final(self).message@ == shown_note(
                    "Success"@,
                    "An item was successfully deleted"@,
                )
            },
            response matches Err(e) ==> {
                &&& !resync
                &&& final(self).message@ == shown_note("Error"@, e@)
            },
    {
        match response {
            Ok(_) => {
                self.message.show(success_message(String::from_str(
                    "An item was successfully deleted",
                )));
                true
            },
            Err(e) => {
                self.message.show(error_message(e));
                false
            },
        }
    }

    /// Handles the outcome of a batch restock: the affected-row count in
    /// the summary and a resynchronization, or the error and no change.
    pub fn restock_items(&mut self, response: Result<AffectedRows, String>) -> (resync: bool)
        ensures
            final(self).state == old(self).state,
            response matches Ok(rows) ==> {
                &&& resync
                &&& final(self).message@ == shown_note(
                    "Success"@,
                    dec_digits(rows.rows_affected as nat) + " items were successfully restocked"@,
                )
            },
            response matches Err(e) ==> {
                &&& !resync
                &&& final(self).message@ == shown_note("Error"@, e@)
            },
    {
        match response {
            Ok(rows) => {
                let mut text = u64_to_string(rows.rows_affected);
                text.append(" items were successfully restocked");
                self.message.show(success_message(text));
                true
            },
            Err(e) => {
                self.message.show(error_message(e));
                false
            },
        }
    }

    /// Handles the outcome of a batch consume. Resynchronization is
    /// strictly conditional on success: a failed consume leaves the store
    /// at its last known state, so the failure cannot masquerade as a
    /// completed operation.
    pub fn consume_items(&mut self, response: Result<AffectedRows, String>) -> (resync: bool)
        ensures
            final(self).state == old(self).state,
            response matches Ok(rows) ==> {
                &&& resync
                &&& final(self).message@ == shown_note(
                    "Success"@,
                    dec_digits(rows.rows_affected as nat) + " items were successfully consumed"@,
                )
            },
            response matches Err(e) ==> {
                &&& !resync
                &&& final(self).message@ == shown_note("Error"@, e@)
            },
    {
        match response {
            Ok(rows) => {
                let mut text = u64_to_string(rows.rows_affected);
                text.append(" items were successfully consumed");
                self.message.show(success_message(text));
                true
            },
            Err(e) => {
                self.message.show(error_message(e));
                false
            },
        }
    }

    /// Handles the outcome of a bulk reconciliation, which sets stocks
    /// absolutely: the affected-row count in the summary and a
    /// resynchronization, or the error and no change.
    pub fn change_items(&mut self, response: Result<AffectedRows, String>) -> (resync: bool)
        ensures
            final(self).state == old(self).state,
            response matches Ok(rows) ==> {
                &&& resync
                &&& final(self).message@ == shown_note(
                    "Success"@,
                    dec_digits(rows.rows_affected as nat) + " items were successfully changed"@,
                )
            },
            response matches Err(e) ==> {
                &&& !resync
                &&& final(self).message@ == shown_note("Error"@, e@)
            },
    {
        match response {
            Ok(rows) => {
                let mut text = u64_to_string(rows.rows_affected);
                text.append(" items were successfully changed");
                self.message.show(success_message(text));
                true
            },
            Err(e) => {
                self.message.show(error_message(e));
                false
            },
        }
    }

    /// The add-item form decision: a missing name, a missing category or
    /// a name the index already knows is rejected with a failure
    /// notification and no state change, and otherwise the create call to
    /// issue is returned. The duplicate check runs against the currently
    /// loaded snapshot, so it is advisory, not authoritative.
    pub fn add_item_request(&mut self, name: &str, category: &str) -> (r: Option<ApiCall>)
        requires
            old(self).state.wf(),
        ensures
            final(self).state == old(self).state,
            name@.len() == 0 ==> r is None && final(self).message@ == shown_note(
                "Error"@,
                "A name is required for adding an item"@,
            ),
            name@.len() > 0 && category@.len() == 0 ==> r is None && final(self).message@
                == shown_note("Error"@, "A category is required for adding an item"@),
            name@.len() > 0 && category@.len() > 0 && old(
                self,
            ).state.inventory.name_map().contains_key(name@) ==> r is None && final(self).message@
                == shown_note("Error"@, "An item with that name already exists"@),
            name@.len() > 0 && category@.len() > 0 && !old(
                self,
            ).state.inventory.name_map().contains_key(name@) ==> final(self).message == old(
                self,
            ).message,
            name@.len() > 0 && category@.len() > 0 && !old(
                self,
            ).state.inventory.name_map().contains_key(name@) ==> (r matches Some(call)
                && call matches ApiCall::NewItem { name: n, category: c } && n@ == name@ && c@
                == category@),
    {
        if name.is_empty() {
            self.message.show(
                error_message(String::from_str("A name is required for adding an item")),
            );
            return None;
        }
        if category.is_empty() {
            self.message.show(
                error_message(String::from_str("A category is required for adding an item")),
            );
            return None;
        }
        if self.state.inventory.contains_name(name) {
            self.message.show(
                error_message(String::from_str("An item with that name already exists")),
            );
            return None;
        }
        Some(ApiCall::NewItem { name: String::from_str(name), category: String::from_str(category) })
    }

    /// The full-create form decision: the same validation and rejection
    /// notifications as [`Self::add_item_request`], with the count fields
    /// parsed and falling back to zero when empty or not a number.
    pub fn add_full_item_request(
        &mut self,
        name: &str,
        category: &str,
        stock_input: &str,
        desired_input: &str,
        track_general: bool,
    ) -> (r: Option<ApiCall>)
        requires
            old(self).state.wf(),
        ensures
            final(self).state == old(self).state,
            name@.len() == 0 ==> r is None && final(self).message@ == shown_note(
                "Error"@,
                "A name is required for adding an item"@,
            ),
            name@.len() > 0 && category@.len() == 0 ==> r is None && final(self).message@
                == shown_note("Error"@, "A category is required for adding an item"@),
            name@.len() > 0 && category@.len() > 0 && old(
                self,
            ).state.inventory.name_map().contains_key(name@) ==> r is None && final(self).message@
                == shown_note("Error"@, "An item with that name already exists"@),
            name@.len() > 0 && category@.len() > 0 && !old(
                self,
            ).state.inventory.name_map().contains_key(name@) ==> final(self).message == old(
                self,
            ).message,
            name@.len() > 0 && category@.len() > 0 && !old(
                self,
            ).state.inventory.name_map().contains_key(name@) ==> (r matches Some(call)
                && call matches ApiCall::AddFullItem {
                    name: n,
                    category: c,
                    stock,
                    desired_stock,
                    track_general: tg,
                } && n@ == name@ && c@ == category@ && stock as int == parsed_or(stock_input@, 0)
                && desired_stock as int == parsed_or(desired_input@, 0) && tg == track_general),
    {
        if name.is_empty() {
            self.message.show(
                error_message(String::from_str("A name is required for adding an item")),
            );
            return None;
        }
        if category.is_empty() {
            self.message.show(
                error_message(String::from_str("A category is required for adding an item")),
            );
            return None;
        }
        if self.state.inventory.contains_name(name) {
            self.message.show(
                error_message(String::from_str("An item with that name already exists")),
            );
            return None;
        }
        let stock = match crate::numfmt::parse_i64(stock_input) {
            Some(v) => v,
            None => 0,
        };
        let desired_stock = match crate::numfmt::parse_i64(desired_input) {
            Some(v) => v,
            None => 0,
        };
        Some(
            ApiCall::AddFullItem {
                name: String::from_str(name),
                category: String::from_str(category),
                stock,
                desired_stock,
                track_general,
            },
        )
    }
}

/// The item an edit form addresses, with its resolved id: the target is
/// found when the resolved id is a key of the id map.
pub open spec fn edit_target(inv: Inventory, id_in: Seq<char>, name_in: Seq<char>) -> Option<
    (Seq<char>, ItemView),
> {
    match resolved_id(inv, id_in, name_in) {
        Some(rid) => if inv.id_map().contains_key(rid) {
            Some((rid, inv.id_map()[rid]))
        } else {
            None
        },
        None => None,
    }
}

impl InventoryController {
    /// The edit form decision: a form with neither a name nor an id, a
    /// missing category, or inputs that resolve to no item of the index,
    /// is rejected with a failure notification and no state change;
    /// otherwise the replace call to issue is returned, its body the
    /// form's fields merged over the addressed item.
    pub fn change_item_request(
        &mut self,
        name: &str,
        category: &str,
        stock_input: &str,
        desired_input: &str,
        id_input: &str,
    ) -> (r: Option<ApiCall>)
        requires
            old(self).state.wf(),
        ensures
            final(self).state == old(self).state,
            name@.len() == 0 && id_input@.len() == 0 ==> r is None && final(self).message@
                == shown_note("Error"@, "A name or ID is required for changing an item"@),
            (name@.len() > 0 || id_input@.len() > 0) && category@.len() == 0 ==> r is None
                && final(self).message@ == shown_note(
                "Error"@,
                "A category is required for all items"@,
            ),
            (name@.len() > 0 || id_input@.len() > 0) && category@.len() > 0 && edit_target(
                old(self).state.inventory,
                id_input@,
                name@,
            ) is None ==> r is None && final(self).message@ == shown_note(
                "Error"@,
                "Could not find an item with name "@ + name@,
            ),
            (name@.len() > 0 || id_input@.len() > 0) && category@.len() > 0 ==> (edit_target(
                old(self).state.inventory,
                id_input@,
                name@,
            ) matches Some(target) ==> final(self).message == old(self).message && (
            r matches Some(call) && call matches ApiCall::ChangeItem { id, body } && id@ == target.0
                && body@ == merged_item(
                target.1,
                target.0,
                name@,
                category@,
                stock_input@,
                desired_input@,
            ))),
    {
        if name.is_empty() && id_input.is_empty() {
            self.message.show(
                error_message(String::from_str("A name or ID is required for changing an item")),
            );
            return None;
        }
        if category.is_empty() {
            self.message.show(
                error_message(String::from_str("A category is required for all items")),
            );
            return None;
        }
        let resolved = resolve_item_id(&self.state.inventory, id_input, name);
        let found = match resolved {
            Some(rid) => {
                match self.state.inventory.get_item(rid.as_str()) {
                    Some(orig) => Some((rid, orig)),
                    None => None,
                }
            },
            None => None,
        };
        match found {
            Some((rid, orig)) => {
                let stock = match crate::numfmt::parse_i64(stock_input) {
                    Some(v) => v,
                    None => orig.stock,
                };
                let desired_stock = match crate::numfmt::parse_i64(desired_input) {
                    Some(v) => v,
                    None => orig.desired_stock,
                };
                let body = Item {
                    id: rid.clone(),
                    name: String::from_str(name),
                    category: String::from_str(category),
                    stock,
                    desired_stock,
                    track_general: orig.track_general,
                    last_updated: orig.last_updated,
                };
                Some(ApiCall::ChangeItem { id: rid, body })
            },
            None => {
                let mut text = String::from_str("Could not find an item with name ");
                text.append(name);
                self.message.show(error_message(text));
                None
            },
        }
    }

    /// The delete form decision: inputs that resolve to no item are
    /// rejected with a failure notification; otherwise the delete call to
    /// issue is returned.
    pub fn delete_item_request(&mut self, name: &str, id_input: &str) -> (r: Option<ApiCall>)
        requires
            old(self).state.wf(),
        ensures
            final(self).state == old(self).state,
            resolved_id(old(self).state.inventory, id_input@, name@) matches Some(rid)
                ==> final(self).message == old(self).message && (r matches Some(call)
                && call matches ApiCall::DeleteItem { id } && id@ == rid),
            resolved_id(old(self).state.inventory, id_input@, name@) is None ==> r is None
                && final(self).message@ == shown_note(
                "Error"@,
                "Could not find an item with name "@ + name@,
            ),
    {
        match resolve_item_id(&self.state.inventory, id_input, name) {
            Some(rid) => Some(ApiCall::DeleteItem { id: rid }),
            None => {
                let mut text = String::from_str("Could not find an item with name ");
                text.append(name);
                self.message.show(error_message(text));
                None
            },
        }
    }
}

/// Resolves the item an edit or delete form addresses: the id field when
/// the index knows it, else the id the name field maps to.
pub fn resolve_item_id(inv: &Inventory, id_input: &str, name_input: &str) -> (r: Option<String>)
    requires
        inv.wf(),
    ensures
        match r {
            Some(id) => resolved_id(*inv, id_input@, name_input@) == Some(id@),
            None => resolved_id(*inv, id_input@, name_input@) is None,
        },
{
    match inv.get_item(id_input) {
        Some(_) => Some(String::from_str(id_input)),
        None => inv.get_id(name_input),
    }
}

} // verus!
