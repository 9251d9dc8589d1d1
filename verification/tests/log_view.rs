use inventory_core::date::{day_number, Date};
use inventory_core::index::Inventory;
use inventory_core::item::Item;
use inventory_core::logs::{load_logs, parse_line, parse_log, reconstruct_logs, rewrite_message,
    LogLevel};
use inventory_core::stock::{build_consume_batch, build_restock_batch, clamp_consume,
    consume_delta, level_of_stock, needs_restock, parse_count, reinventory_changes,
    restock_delta, stock_flag, ConsumeEntry, ReinventoryEntry, StockFlag, StockLevel};

fn item(id: &str, name: &str, stock: i64, desired: i64) -> Item {
    Item {
        id: id.to_string(),
        name: name.to_string(),
        category: "Pantry".to_string(),
        stock,
        desired_stock: desired,
        track_general: false,
        last_updated: "2024-01-01 00:00:00 UTC".to_string(),
    }
}

fn index_of(items: Vec<Item>) -> Inventory {
    let mut inv = Inventory::default();
    inv.make(items);
    inv
}

const ID_A: &str = "items:aaaaaaaaaaaaaaaaaaaa";
const ID_B: &str = "items:bbbbbbbbbbbbbbbbbbbb";

#[test]
fn day_numbers_follow_the_calendar() {
    assert_eq!(day_number(&Date { year: 1970, month: 1, day: 1 }), 0);
    assert_eq!(day_number(&Date { year: 1970, month: 1, day: 2 }), 1);
    assert_eq!(day_number(&Date { year: 1969, month: 12, day: 31 }), -1);
    assert_eq!(day_number(&Date { year: 2000, month: 3, day: 1 }), 11017);
    // the leap day exists in 2024
    assert_eq!(
        day_number(&Date { year: 2024, month: 3, day: 1 })
            - day_number(&Date { year: 2024, month: 2, day: 28 }),
        2
    );
}

#[test]
fn a_well_formed_line_parses_exactly() {
    let line = "{\"date\": \"2024-03-05 14:30:05 +01:00\", \"level\": \"INFO\", \"label\": \"Created new item:\", \"message\": \"fresh\"},";
    let rec = parse_line(line).expect("line should parse");
    assert_eq!(rec.stamp.date, Date { year: 2024, month: 3, day: 5 });
    assert_eq!(rec.stamp.hour, 14);
    assert_eq!(rec.stamp.minute, 30);
    assert_eq!(rec.stamp.second, 5);
    assert_eq!(rec.stamp.offset_min, 60);
    assert_eq!(rec.level, LogLevel::Info);
    assert_eq!(rec.label, "Created new item:");
    assert_eq!(rec.message, "fresh");
}

#[test]
fn escapes_in_bodies_decode_as_usual() {
    let line = "{\"date\": \"2024-03-05 08:00:00 -05:30\", \"level\": \"WARN\", \"label\": \"Deleted: \", \"message\": \"a \\\"quoted\\\" name\\n\\tsecond line\"},";
    let rec = parse_line(line).expect("line should parse");
    assert_eq!(rec.stamp.offset_min, -330);
    assert_eq!(rec.level, LogLevel::Warn);
    assert_eq!(rec.message, "a \"quoted\" name\n\tsecond line");
}

#[test]
fn malformed_lines_are_skipped_not_fatal() {
    assert!(parse_line("not json at all").is_none());
    assert!(parse_line("{\"date\": \"2024-13-05 14:30:05 +01:00\", \"level\": \"INFO\", \"label\": \"x\", \"message\": \"y\"},").is_none());
    let blob = format!(
        "{}\n{}\n{}\n",
        "{\"date\": \"2024-03-05 10:00:00 +00:00\", \"level\": \"INFO\", \"label\": \"ok\", \"message\": \"one\"},",
        "garbage line",
        "{\"date\": \"2024-03-05 11:00:00 +00:00\", \"level\": \"INFO\", \"label\": \"ok\", \"message\": \"two\"},"
    );
    let recs = parse_log(&blob);
    assert_eq!(recs.len(), 2);
    assert_eq!(recs[0].message, "one");
    assert_eq!(recs[1].message, "two");
}

#[test]
fn known_ids_become_current_names() {
    let inv = index_of(vec![item(ID_A, "Milk", 2, 3)]);
    let msg = format!("\n\t{}: 2", ID_A);
    assert_eq!(rewrite_message(&msg, &inv), "\n\tMilk: 2");
}

#[test]
fn a_stale_id_becomes_a_placeholder_and_the_line_survives() {
    let inv = index_of(vec![item(ID_A, "Milk", 2, 3)]);
    let msg = format!("\n\t{}: 2\n\t{}: 5", ID_B, ID_A);
    assert_eq!(
        rewrite_message(&msg, &inv),
        "\n\titem_id:bbbbbbbbbbbbbbbbbbbb: 2\n\tMilk: 5"
    );
}

#[test]
fn reconstruction_buckets_today_and_yesterday_most_recent_first() {
    let inv = index_of(vec![item(ID_A, "Milk", 2, 3)]);
    let blob = format!(
        "{}\n{}\n{}\n{}\n",
        format!("{{\"date\": \"2024-03-05 08:00:00 +00:00\", \"level\": \"INFO\", \"label\": \"Restocked:\", \"message\": \"\\n\\t{ID_A}: 2\"}},"),
        "{\"date\": \"2024-03-05 12:00:00 +00:00\", \"level\": \"INFO\", \"label\": \"Created new item:\", \"message\": \"noon\"},",
        "{\"date\": \"2024-03-04 09:00:00 +00:00\", \"level\": \"WARN\", \"label\": \"Deleted: \", \"message\": \"old\"},",
        "{\"date\": \"2024-03-01 09:00:00 +00:00\", \"level\": \"INFO\", \"label\": \"ok\", \"message\": \"ancient\"},"
    );
    let today = Date { year: 2024, month: 3, day: 5 };
    let (current, yesterday) = reconstruct_logs(&blob, &inv, today);
    assert_eq!(current.len(), 2);
    assert_eq!(current[0].message, "noon");
    assert_eq!(current[1].message, "\n\tMilk: 2");
    assert_eq!(yesterday.len(), 1);
    assert_eq!(yesterday[0].message, "old");
}

#[test]
fn load_logs_uses_a_real_calendar_date() {
    let inv = index_of(vec![]);
    let (today, current, yesterday) = load_logs("", &inv);
    assert!((1..=12).contains(&today.month));
    assert!((1..=31).contains(&today.day));
    assert!(current.is_empty() && yesterday.is_empty());
}

#[test]
fn tri_state_policy_is_two_one_none() {
    assert_eq!(level_of_stock(5), StockLevel::Good);
    assert_eq!(level_of_stock(2), StockLevel::Good);
    assert_eq!(level_of_stock(1), StockLevel::Low);
    assert_eq!(level_of_stock(0), StockLevel::Out);
    assert_eq!(level_of_stock(-1), StockLevel::Out);
    assert_eq!(restock_delta(0, StockLevel::Good), 2);
    assert_eq!(restock_delta(1, StockLevel::Good), 1);
    assert_eq!(restock_delta(0, StockLevel::Low), 1);
    assert_eq!(restock_delta(3, StockLevel::Good), 0);
    assert_eq!(consume_delta(2, StockLevel::Out), 2);
    assert_eq!(consume_delta(1, StockLevel::Out), 1);
    assert_eq!(consume_delta(2, StockLevel::Low), 1);
    assert_eq!(consume_delta(0, StockLevel::Low), 0);
}

#[test]
fn consume_requests_clamp_at_the_callers_side() {
    assert_eq!(clamp_consume(3, 5), 3);
    assert_eq!(clamp_consume(5, 3), 3);
    let entries = vec![
        ConsumeEntry { id: ID_A.to_string(), requested: 5, stock: 3 },
        ConsumeEntry { id: ID_B.to_string(), requested: 0, stock: 9 },
    ];
    let batch = build_consume_batch(&entries);
    assert_eq!(batch.len(), 1);
    assert_eq!(batch[0].id, ID_A);
    assert_eq!(batch[0].count, 3);
}

#[test]
fn restock_batches_drop_zero_counts() {
    let entries = vec![
        inventory_core::item::RestockItem { id: ID_A.to_string(), count: 2 },
        inventory_core::item::RestockItem { id: ID_B.to_string(), count: 0 },
    ];
    let batch = build_restock_batch(&entries);
    assert_eq!(batch.len(), 1);
    assert_eq!(batch[0].id, ID_A);
}

#[test]
fn quantity_fields_default_to_one() {
    assert_eq!(parse_count(""), 1);
    assert_eq!(parse_count("4"), 4);
    assert_eq!(parse_count("four"), 1);
}

#[test]
fn reinventory_lists_only_real_changes() {
    let inv = index_of(vec![item(ID_A, "Milk", 2, 3), item(ID_B, "Bread", 1, 1)]);
    let entries = vec![
        // unchanged values produce nothing
        ReinventoryEntry {
            id: ID_A.to_string(),
            stock_input: "2".to_string(),
            desired_input: "".to_string(),
        },
        // a changed stock produces an absolute update
        ReinventoryEntry {
            id: ID_B.to_string(),
            stock_input: "7".to_string(),
            desired_input: "2".to_string(),
        },
        // a stale id is skipped
        ReinventoryEntry {
            id: "items:cccccccccccccccccccc".to_string(),
            stock_input: "9".to_string(),
            desired_input: "".to_string(),
        },
    ];
    let changes = reinventory_changes(&inv, &entries);
    assert_eq!(changes.len(), 1);
    assert_eq!(changes[0].id, ID_B);
    assert_eq!(changes[0].stock, 7);
    assert_eq!(changes[0].desired_stock, 2);
    assert_eq!(changes[0].name, "Bread");
}

#[test]
fn shopping_list_rule_and_row_flags() {
    assert!(needs_restock(&item(ID_A, "Milk", 2, 3)));
    assert!(!needs_restock(&item(ID_A, "Milk", 3, 3)));
    assert!(!needs_restock(&item(ID_A, "Milk", 0, 0)));
    assert_eq!(stock_flag(&item(ID_A, "Milk", 2, 3)), StockFlag::Critical);
    assert_eq!(stock_flag(&item(ID_A, "Milk", 3, 3)), StockFlag::LowStock);
    assert_eq!(stock_flag(&item(ID_A, "Milk", 4, 3)), StockFlag::Plain);
    assert_eq!(stock_flag(&item(ID_A, "Milk", 0, 0)), StockFlag::Plain);
}
