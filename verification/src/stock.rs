//! Stock rules: the tri-state level of coarsely tracked items, the deltas
//! a tri-state choice maps to, the clamping of consume requests, and the
//! batch lists the restock, consume and reconciliation forms produce.

use vstd::prelude::*;
use crate::controller::parsed_or;
use crate::index::Inventory;
use crate::item::{Item, ItemView, RestockItem, RestockItemView};
use crate::numfmt::parse_i64;

verus! {

/// The coarse stock level of a track-general item.
#[derive(Debug, Clone, Copy, PartialEq, Eq, Structural)]
pub enum StockLevel {
    Good,
    Low,
    Out,
}

/// The stock count a level stands for. The policy is fixed here once: two
/// or more units are Good, exactly one is Low, none (or a negative count)
/// is Out.
pub open spec fn level_floor(level: StockLevel) -> int {
    match level {
        StockLevel::Good => 2,
        StockLevel::Low => 1,
        StockLevel::Out => 0,
    }
}

/// The tri-state level a stock count displays as.
pub open spec fn spec_level_of(stock: int) -> StockLevel {
    if stock >= 2 {
        StockLevel::Good
    } else if stock == 1 {
        StockLevel::Low
    } else {
        StockLevel::Out
    }
}

/// Maps a stock count to its tri-state level.
pub fn level_of_stock(stock: i64) -> (r: StockLevel)
    ensures
        r == spec_level_of(stock as int),
{
    if stock >= 2 {
        StockLevel::Good
    } else if stock == 1 {
        StockLevel::Low
    } else {
        StockLevel::Out
    }
}

/// How many units to add so that a track-general item reaches the chosen
/// level: the distance from the current count (a negative count counts as
/// none) up to the level's floor, never negative.
pub open spec fn spec_restock_delta(stock: int, target: StockLevel) -> int {
    let base = if stock < 0 {
        0
    } else {
        stock
    };
    if base >= level_floor(target) {
        0
    } else {
        level_floor(target) - base
    }
}

/// The units a tri-state restock choice adds.
pub fn restock_delta(stock: i64, target: StockLevel) -> (r: i64)
    ensures
        r as int == spec_restock_delta(stock as int, target),
{
    let base: i64 = if stock < 0 {
        0
    } else {
        stock
    };
    let floor: i64 = match target {
        StockLevel::Good => 2,
        StockLevel::Low => 1,
        StockLevel::Out => 0,
    };
    if base >= floor {
        0
    } else {
        floor - base
    }
}

/// How many units to take so that a track-general item drops to the
/// chosen level: the distance from the current count down to the level's
/// floor, never negative.
pub open spec fn spec_consume_delta(stock: int, target: StockLevel) -> int {
    if stock <= level_floor(target) {
        0
    } else {
        stock - level_floor(target)
    }
}

/// The units a tri-state consume choice takes.
pub fn consume_delta(stock: i64, target: StockLevel) -> (r: i64)
    ensures
        r as int == spec_consume_delta(stock as int, target),
{
    let floor: i64 = match target {
        StockLevel::Good => 2,
        StockLevel::Low => 1,
        StockLevel::Out => 0,
    };
    if stock <= floor {
        0
    } else {
        stock - floor
    }
}

/// Clamps a requested consumption to the available stock. The mutation
/// controller itself never clamps; this is the helper its callers apply
/// before submitting.
pub fn clamp_consume(stock: i64, requested: i64) -> (r: i64)
    ensures
        r == if requested > stock {
            stock
        } else {
            requested
        },
{
    if stock < requested {
        stock
    } else {
        requested
    }
}

/// The count a quantity form field denotes: one when the field is empty
/// or not a number, else its value.
pub fn parse_count(input: &str) -> (r: i64)
    ensures
        r as int == parsed_or(input@, 1),
{
    if input.is_empty() {
        proof {
            assert(!crate::numfmt::is_i64_literal(input@));
        }
        return 1;
    }
    match parse_i64(input) {
        Some(v) => v,
        None => 1,
    }
}

/// The entries of a restock batch: the requested counts, zeros dropped.
pub open spec fn restock_batch(s: Seq<RestockItemView>) -> Seq<RestockItemView>
    decreases s.len(),
{
    if s.len() == 0 {
        Seq::empty()
    } else if s[0].count != 0 {
        seq![s[0]] + restock_batch(s.drop_first())
    } else {
        restock_batch(s.drop_first())
    }
}

/// Builds the batch a restock form submits: the requested entries in
/// order, those with a zero count dropped.
pub fn build_restock_batch(entries: &Vec<RestockItem>) -> (r: Vec<RestockItem>)
    ensures
        r.deep_view() == restock_batch(entries.deep_view()),
{
    let ghost dv = entries.deep_view();
    let mut r: Vec<RestockItem> = Vec::new();
    let mut i: usize = 0;
    proof {
        assert(r.deep_view() =~= Seq::<RestockItemView>::empty());
        assert(dv.skip(0) =~= dv);
    }
    while i < entries.len()
        invariant
            i <= entries.len(),
            dv == entries.deep_view(),
            dv.len() == entries.len(),
            r.deep_view() + restock_batch(dv.skip(i as int)) =~= restock_batch(dv),
        decreases entries.len() - i,
    {
        proof {
            assert(dv.skip(i as int)[0] == dv[i as int]);
            assert(dv.skip(i as int).drop_first() =~= dv.skip(i + 1));
        }
        if entries[i].count != 0 {
            let ghost prev = r.deep_view();
            r.push(entries[i].clone());
            proof {
                assert(r.deep_view() =~= prev.push(dv[i as int]));
                assert(prev.push(dv[i as int]) + restock_batch(dv.skip(i + 1)) =~= prev + (seq![
                    dv[i as int],
                ] + restock_batch(dv.skip(i + 1))));
            }
        }
        i = i + 1;
    }
    proof {
        assert(restock_batch(dv.skip(dv.len() as int)) =~= Seq::<RestockItemView>::empty());
        assert(r.deep_view() =~= restock_batch(dv));
    }
    r
}

/// One line of a consume form: the item, how much the user asked to take,
/// and the stock on hand to clamp against.
#[derive(Debug, PartialEq, Eq)]
pub struct ConsumeEntry {
    pub id: String,
    pub requested: i64,
    pub stock: i64,
}

/// The mathematical image of a [`ConsumeEntry`].
pub ghost struct ConsumeEntryView {
    pub id: Seq<char>,
    pub requested: int,
    pub stock: int,
}

impl View for ConsumeEntry {
    type V = ConsumeEntryView;

    open spec fn view(&self) -> ConsumeEntryView {
        ConsumeEntryView {
            id: self.id@,
            requested: self.requested as int,
            stock: self.stock as int,
        }
    }
}

impl DeepView for ConsumeEntry {
    type V = ConsumeEntryView;

    open spec fn deep_view(&self) -> ConsumeEntryView {
        self.view()
    }
}

/// The entries of a consume batch: zero requests dropped, the rest
/// clamped to the stock on hand.
pub open spec fn consume_batch(s: Seq<ConsumeEntryView>) -> Seq<RestockItemView>
    decreases s.len(),
{
    if s.len() == 0 {
        Seq::empty()
    } else if s[0].requested != 0 {
        seq![
            RestockItemView {
                id: s[0].id,
                count: if s[0].requested > s[0].stock {
                    s[0].stock
                } else {
                    s[0].requested
                },
            },
        ] + consume_batch(s.drop_first())
    } else {
        consume_batch(s.drop_first())
    }
}

/// Builds the batch a consume form submits: zero requests are dropped,
/// and every other request is clamped to the stock on hand before it is
/// sent — the caller clamps, the controller does not.
pub fn build_consume_batch(entries: &Vec<ConsumeEntry>) -> (r: Vec<RestockItem>)
    ensures
        r.deep_view() == consume_batch(entries.deep_view()),
{
    let ghost dv = entries.deep_view();
    let mut r: Vec<RestockItem> = Vec::new();
    let mut i: usize = 0;
    proof {
        assert(r.deep_view() =~= Seq::<RestockItemView>::empty());
        assert(dv.skip(0) =~= dv);
    }
    while i < entries.len()
        invariant
            i <= entries.len(),
            dv == entries.deep_view(),
            dv.len() == entries.len(),
            r.deep_view() + consume_batch(dv.skip(i as int)) =~= consume_batch(dv),
        decreases entries.len() - i,
    {
        proof {
            assert(dv.skip(i as int)[0] == dv[i as int]);
            assert(dv.skip(i as int).drop_first() =~= dv.skip(i + 1));
        }
        if entries[i].requested != 0 {
            let count = clamp_consume(entries[i].stock, entries[i].requested);
            let ghost prev = r.deep_view();
            r.push(RestockItem { id: entries[i].id.clone(), count });
            proof {
                let e = RestockItemView {
                    id: dv[i as int].id,
                    count: if dv[i as int].requested > dv[i as int].stock {
                        dv[i as int].stock
                    } else {
                        dv[i as int].requested
                    },
                };
                assert(r.deep_view() =~= prev.push(e));
                assert(prev.push(e) + consume_batch(dv.skip(i + 1)) =~= prev + (seq![e]
                    + consume_batch(dv.skip(i + 1))));
            }
        }
        i = i + 1;
    }
    proof {
        assert(consume_batch(dv.skip(dv.len() as int)) =~= Seq::<RestockItemView>::empty());
        assert(r.deep_view() =~= consume_batch(dv));
    }
    r
}

/// An item belongs on the shopping list when a desired stock is set and
/// the stock on hand is below it.
pub open spec fn spec_needs_restock(item: ItemView) -> bool {
    item.desired_stock != 0 && item.stock < item.desired_stock
}

/// Whether an item belongs on the shopping list.
pub fn needs_restock(item: &Item) -> (r: bool)
    ensures
        r == spec_needs_restock(item@),
{
    item.desired_stock != 0 && item.stock < item.desired_stock
}

/// How an item's row is highlighted: below the desired stock it is
/// critical, exactly at it it is low, otherwise (or with no desired
/// stock set) it is unmarked.
#[derive(Debug, Clone, Copy, PartialEq, Eq, Structural)]
pub enum StockFlag {
    Plain,
    LowStock,
    Critical,
}

/// The highlight an item's counts call for.
pub fn stock_flag(item: &Item) -> (r: StockFlag)
    ensures
        r == if item@.desired_stock == 0 {
            StockFlag::Plain
        } else if item@.stock < item@.desired_stock {
            StockFlag::Critical
        } else if item@.stock == item@.desired_stock {
            StockFlag::LowStock
        } else {
            StockFlag::Plain
        },
{
    if item.desired_stock == 0 {
        StockFlag::Plain
    } else if item.stock < item.desired_stock {
        StockFlag::Critical
    } else if item.stock == item.desired_stock {
        StockFlag::LowStock
    } else {
        StockFlag::Plain
    }
}

/// One line of the bulk-reconciliation form: the item id and the raw
/// stock and desired-stock fields.
#[derive(Debug, PartialEq, Eq)]
pub struct ReinventoryEntry {
    pub id: String,
    pub stock_input: String,
    pub desired_input: String,
}

/// The mathematical image of a [`ReinventoryEntry`].
pub ghost struct ReinventoryEntryView {
    pub id: Seq<char>,
    pub stock_input: Seq<char>,
    pub desired_input: Seq<char>,
}

impl View for ReinventoryEntry {
    type V = ReinventoryEntryView;

    open spec fn view(&self) -> ReinventoryEntryView {
        ReinventoryEntryView {
            id: self.id@,
            stock_input: self.stock_input@,
            desired_input: self.desired_input@,
        }
    }
}

impl DeepView for ReinventoryEntry {
    type V = ReinventoryEntryView;

    open spec fn deep_view(&self) -> ReinventoryEntryView {
        self.view()
    }
}

/// The item one reconciliation line produces, when it changes anything:
/// the indexed item with the parsed counts set absolutely. A line with
/// both fields empty, an id the index no longer knows (a stale
/// reference), or values equal to the current ones produces nothing.
pub open spec fn reinventory_change(
    id_map: Map<Seq<char>, ItemView>,
    e: ReinventoryEntryView,
) -> Option<ItemView> {
    if e.stock_input.len() == 0 && e.desired_input.len() == 0 {
        None
    } else if !id_map.contains_key(e.id) {
        None
    } else {
        let orig = id_map[e.id];
        let stock = parsed_or(e.stock_input, orig.stock);
        let desired = parsed_or(e.desired_input, orig.desired_stock);
        if stock == orig.stock && desired == orig.desired_stock {
            None
        } else {
            Some(ItemView { stock: stock, desired_stock: desired, ..orig })
        }
    }
}

/// The items a sequence of reconciliation lines produces.
pub open spec fn reinventory_batch(
    id_map: Map<Seq<char>, ItemView>,
    s: Seq<ReinventoryEntryView>,
) -> Seq<ItemView>
    decreases s.len(),
{
    if s.len() == 0 {
        Seq::empty()
    } else {
        match reinventory_change(id_map, s[0]) {
            Some(item) => seq![item] + reinventory_batch(id_map, s.drop_first()),
            None => reinventory_batch(id_map, s.drop_first()),
        }
    }
}

/// Builds the batch a bulk reconciliation submits: one item per line that
/// actually changes a count, with the parsed values set absolutely over
/// the indexed item. Lines with empty fields, stale ids or unchanged
/// values are skipped.
pub fn reinventory_changes(inv: &Inventory, entries: &Vec<ReinventoryEntry>) -> (r: Vec<Item>)
    requires
        inv.wf(),
    ensures
        r.deep_view() == reinventory_batch(inv.id_map(), entries.deep_view()),
{
    let ghost dv = entries.deep_view();
    let ghost m = inv.id_map();
    let mut r: Vec<Item> = Vec::new();
    let mut i: usize = 0;
    proof {
        assert(r.deep_view() =~= Seq::<ItemView>::empty());
        assert(dv.skip(0) =~= dv);
    }
    while i < entries.len()
        invariant
            i <= entries.len(),
            inv.wf(),
            m == inv.id_map(),
            dv == entries.deep_view(),
            dv.len() == entries.len(),
            r.deep_view() + reinventory_batch(m, dv.skip(i as int)) =~= reinventory_batch(m, dv),
        decreases entries.len() - i,
    {
        proof {
            assert(dv.skip(i as int)[0] == dv[i as int]);
            assert(dv.skip(i as int).drop_first() =~= dv.skip(i + 1));
        }
        if !(entries[i].stock_input.as_str().is_empty() && entries[i].desired_input.as_str().is_empty()) {
            match inv.get_item(entries[i].id.as_str()) {
                Some(orig) => {
                    let stock = match parse_i64(entries[i].stock_input.as_str()) {
                        Some(v) => v,
                        None => orig.stock,
                    };
                    let desired = match parse_i64(entries[i].desired_input.as_str()) {
                        Some(v) => v,
                        None => orig.desired_stock,
                    };
                    if !(stock == orig.stock && desired == orig.desired_stock) {
                        let ghost prev = r.deep_view();
                        let ghost e = reinventory_change(m, dv[i as int])->0;
                        let changed = Item {
                            stock,
                            desired_stock: desired,
                            ..orig
                        };
                        r.push(changed);
                        proof {
                            assert(r.deep_view() =~= prev.push(e));
                            assert(prev.push(e) + reinventory_batch(m, dv.skip(i + 1)) =~= prev + (
                            seq![e] + reinventory_batch(m, dv.skip(i + 1))));
                        }
                    }
                },
                None => {
                },
            }
        }
        i = i + 1;
    }
    proof {
        assert(reinventory_batch(m, dv.skip(dv.len() as int)) =~= Seq::<ItemView>::empty());
        assert(r.deep_view() =~= reinventory_batch(m, dv));
    }
    r
}

} // verus!
