//! The data model: inventory items as the server hands them out, batch
//! stock adjustments, affected-row counts, and the exact texts the client
//! sends over the wire or writes into the activity log.

use vstd::prelude::*;
use crate::numfmt::{dec_int, i64_to_string};

verus! {

/// An inventory item as the backend returns it. The identifier is
/// server-assigned and opaque; `last_updated` is an advisory timestamp text
/// that the client carries along unchanged.
#[derive(Debug, PartialEq, Eq)]
pub struct Item {
    pub id: String,
    pub name: String,
    pub category: String,
    pub stock: i64,
    pub desired_stock: i64,
    pub track_general: bool,
    pub last_updated: String,
}

/// The mathematical image of an [`Item`]: every text field as a character
/// sequence, the counts as integers.
pub ghost struct ItemView {
    pub id: Seq<char>,
    pub name: Seq<char>,
    pub category: Seq<char>,
    pub stock: int,
    pub desired_stock: int,
    pub track_general: bool,
    pub last_updated: Seq<char>,
}

impl View for Item {
    type V = ItemView;

    open spec fn view(&self) -> ItemView {
        ItemView {
            id: self.id@,
            name: self.name@,
            category: self.category@,
            stock: self.stock as int,
            desired_stock: self.desired_stock as int,
            track_general: self.track_general,
            last_updated: self.last_updated@,
        }
    }
}

impl DeepView for Item {
    type V = ItemView;

    open spec fn deep_view(&self) -> ItemView {
        self.view()
    }
}

impl Clone for Item {
    /// Clones the item, field by field.
    fn clone(&self) -> (r: Self)
        ensures
            r == *self,
    {
        Item {
            id: self.id.clone(),
            name: self.name.clone(),
            category: self.category.clone(),
            stock: self.stock,
            desired_stock: self.desired_stock,
            track_general: self.track_general,
            last_updated: self.last_updated.clone(),
        }
    }
}

/// One entry of a batch stock adjustment: an item id and a signed count.
#[derive(Debug, PartialEq, Eq)]
pub struct RestockItem {
    pub id: String,
    pub count: i64,
}

impl Clone for RestockItem {
    /// Clones the entry, field by field.
    fn clone(&self) -> (r: Self)
        ensures
            r == *self,
    {
        RestockItem { id: self.id.clone(), count: self.count }
    }
}

/// The mathematical image of a [`RestockItem`].
pub ghost struct RestockItemView {
    pub id: Seq<char>,
    pub count: int,
}

impl View for RestockItem {
    type V = RestockItemView;

    open spec fn view(&self) -> RestockItemView {
        RestockItemView { id: self.id@, count: self.count as int }
    }
}

impl DeepView for RestockItem {
    type V = RestockItemView;

    open spec fn deep_view(&self) -> RestockItemView {
        self.view()
    }
}

/// The row count a mutating backend call reports.
#[derive(Debug, Clone, Copy, PartialEq, Eq, Structural)]
pub struct AffectedRows {
    pub rows_affected: u64,
}

/// The stock categories the backend knows.
#[derive(Debug, Clone, Copy, PartialEq, Eq, Structural)]
pub enum Categories {
    Can,
    Box,
    Bag,
    Frozen,
    Refridgerated,
    Other,
}

impl Categories {
    /// The display name of the category.
    pub fn label(&self) -> (r: String)
        ensures
            r@ == match *self {
                Categories::Can => "Can"@,
                Categories::Box => "Box"@,
                Categories::Bag => "Bag"@,
                Categories::Frozen => "Frozen"@,
                Categories::Refridgerated => "Refridgerated"@,
                Categories::Other => "Other"@,
            },
    {
        match *self {
            Categories::Can => String::from_str("Can"),
            Categories::Box => String::from_str("Box"),
            Categories::Bag => String::from_str("Bag"),
            Categories::Frozen => String::from_str("Frozen"),
            Categories::Refridgerated => String::from_str("Refridgerated"),
            Categories::Other => String::from_str("Other"),
        }
    }
}

/// `true` or `false`, as JSON spells a boolean.
pub open spec fn bool_text(b: bool) -> Seq<char> {
    if b {
        "true"@
    } else {
        "false"@
    }
}

/// The JSON body the client sends when replacing an item, whitespace
/// included.
pub open spec fn json_of_item(v: ItemView) -> Seq<char> {
    "{\n            \"id\": \""@ + v.id + "\",\n            \"name\": \""@ + v.name
        + "\",\n            \"category\": \""@ + v.category + "\",\n            \"stock\": "@
        + dec_int(v.stock) + ",\n            \"desired_stock\": "@ + dec_int(v.desired_stock)
        + ",\n            \"track_general\": "@ + bool_text(v.track_general)
        + ",\n            \"last_updated\": \""@ + v.last_updated + "\"\n        }"@
}

impl Item {
    /// Renders the item as the JSON body of a replace request.
    pub fn to_json(&self) -> (r: String)
        ensures
            r@ == json_of_item(self@),
    {
        let mut s = String::from_str("{\n            \"id\": \"");
        s.append(self.id.as_str());
        s.append("\",\n            \"name\": \"");
        s.append(self.name.as_str());
        s.append("\",\n            \"category\": \"");
        s.append(self.category.as_str());
        s.append("\",\n            \"stock\": ");
        let stock = i64_to_string(self.stock);
        s.append(stock.as_str());
        s.append(",\n            \"desired_stock\": ");
        let desired = i64_to_string(self.desired_stock);
        s.append(desired.as_str());
        s.append(",\n            \"track_general\": ");
        if self.track_general {
            s.append("true");
        } else {
            s.append("false");
        }
        s.append(",\n            \"last_updated\": \"");
        s.append(self.last_updated.as_str());
        s.append("\"\n        }");
        proof {
            assert(s@ =~= json_of_item(self@));
        }
        s
    }
}

/// The piece of a batch-adjustment body that one entry contributes.
pub open spec fn json_of_restock_item(v: RestockItemView) -> Seq<char> {
    "{\"id\": \""@ + v.id + "\",\"count\": "@ + dec_int(v.count) + "}"@
}

/// The comma-separated pieces of a nonempty batch, in order.
pub open spec fn restock_list_inner(items: Seq<RestockItemView>) -> Seq<char>
    decreases items.len(),
{
    if items.len() <= 1 {
        if items.len() == 0 {
            Seq::empty()
        } else {
            json_of_restock_item(items.last())
        }
    } else {
        restock_list_inner(items.drop_last()) + ","@ + json_of_restock_item(items.last())
    }
}

/// The JSON body of a batch stock adjustment. An empty batch renders as a
/// lone `]`: the encoder closes the list after unconditionally removing a
/// trailing comma, and with no entries the opening bracket is what goes.
pub open spec fn json_of_restock_list(items: Seq<RestockItemView>) -> Seq<char> {
    if items.len() == 0 {
        "]"@
    } else {
        "["@ + restock_list_inner(items) + "]"@
    }
}

impl RestockItem {
    /// Renders the entry as it appears in the activity log: the item id,
    /// a colon, and the signed count.
    pub fn log_text(&self) -> (r: String)
        ensures
            r@ == self.id@ + ": "@ + dec_int(self.count as int),
    {
        let mut s = String::new();
        s.append(self.id.as_str());
        s.append(": ");
        let count = i64_to_string(self.count);
        s.append(count.as_str());
        proof {
            assert(s@ =~= self.id@ + ": "@ + dec_int(self.count as int));
        }
        s
    }
}

/// Renders a batch stock adjustment as the JSON body of a restock or
/// consume request.
pub fn restock_items_to_json(items: &Vec<RestockItem>) -> (r: String)
    ensures
        r@ == json_of_restock_list(items.deep_view()),
{
    if items.len() == 0 {
        return String::from_str("]");
    }
    let mut s = String::from_str("[");
    let mut i: usize = 0;
    while i < items.len()
        invariant
            0 < items.len(),
            i <= items.len(),
            i == 0 ==> s@ == "["@,
            i > 0 ==> s@ =~= "["@ + restock_list_inner(items.deep_view().take(i as int)),
        decreases items.len() - i,
    {
        if i > 0 {
            s.append(",");
        }
        s.append("{\"id\": \"");
        s.append(items[i].id.as_str());
        s.append("\",\"count\": ");
        let count = i64_to_string(items[i].count);
        s.append(count.as_str());
        s.append("}");
        proof {
            let dv = items.deep_view();
            assert(dv.take(i + 1).drop_last() =~= dv.take(i as int));
            assert(dv.take(i + 1).last() == dv[i as int]);
            assert(s@ =~= "["@ + restock_list_inner(dv.take(i + 1)));
        }
        i = i + 1;
    }
    s.append("]");
    proof {
        assert(items.deep_view().take(items.len() as int) =~= items.deep_view());
        assert(s@ =~= json_of_restock_list(items.deep_view()));
    }
    s
}

/// The text a sequence of already-rendered entries contributes to a log
/// message: each prefixed by a literal backslash-n backslash-t marker.
pub open spec fn log_lines(parts: Seq<Seq<char>>) -> Seq<char>
    decreases parts.len(),
{
    if parts.len() == 0 {
        Seq::empty()
    } else {
        log_lines(parts.drop_last()) + "\\n\\t"@ + parts.last()
    }
}

/// Joins rendered entries into one log message, each prefixed by the
/// backslash-n backslash-t marker the log format uses.
pub fn log_vec(input: &Vec<String>) -> (r: String)
    ensures
        r@ == log_lines(input.deep_view()),
{
    let mut s = String::new();
    let mut i: usize = 0;
    while i < input.len()
        invariant
            i <= input.len(),
            s@ =~= log_lines(input.deep_view().take(i as int)),
        decreases input.len() - i,
    {
        s.append("\\n\\t");
        s.append(input[i].as_str());
        proof {
            let dv = input.deep_view();
            assert(dv.take(i + 1).drop_last() =~= dv.take(i as int));
            assert(dv.take(i + 1).last() == dv[i as int]);
            assert(s@ =~= log_lines(dv.take(i + 1)));
        }
        i = i + 1;
    }
    proof {
        assert(input.deep_view().take(input.len() as int) =~= input.deep_view());
    }
    s
}

/// The text one item contributes to a bulk-reconciliation log message:
/// its id, stock and desired stock.
pub open spec fn reinventory_line(v: ItemView) -> Seq<char> {
    "\\n\\t"@ + v.id + ": "@ + dec_int(v.stock) + ":"@ + dec_int(v.desired_stock)
}

/// The full text of a bulk-reconciliation log message.
pub open spec fn reinventory_lines(items: Seq<ItemView>) -> Seq<char>
    decreases items.len(),
{
    if items.len() == 0 {
        Seq::empty()
    } else {
        reinventory_lines(items.drop_last()) + reinventory_line(items.last())
    }
}

/// Renders the log message recording a bulk reconciliation: one marker-led
/// entry per item with its id, stock and desired stock.
pub fn log_reinventory(input: &Vec<Item>) -> (r: String)
    ensures
        r@ == reinventory_lines(input.deep_view()),
{
    let mut s = String::new();
    let mut i: usize = 0;
    while i < input.len()
        invariant
            i <= input.len(),
            s@ =~= reinventory_lines(input.deep_view().take(i as int)),
        decreases input.len() - i,
    {
        s.append("\\n\\t");
        s.append(input[i].id.as_str());
        s.append(": ");
        let stock = i64_to_string(input[i].stock);
        s.append(stock.as_str());
        s.append(":");
        let desired = i64_to_string(input[i].desired_stock);
        s.append(desired.as_str());
        proof {
            let dv = input.deep_view();
            assert(dv.take(i + 1).drop_last() =~= dv.take(i as int));
            assert(dv.take(i + 1).last() == dv[i as int]);
            assert(s@ =~= reinventory_lines(dv.take(i + 1)));
        }
        i = i + 1;
    }
    proof {
        assert(input.deep_view().take(input.len() as int) =~= input.deep_view());
    }
    s
}

} // verus!
