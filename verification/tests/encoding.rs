use inventory_core::item::{log_reinventory, log_vec, restock_items_to_json, Categories, Item,
    RestockItem};
use inventory_core::numfmt::{i64_to_string, parse_i64, u64_to_string};

#[test]
fn unsigned_rendering_is_plain_decimal() {
    assert_eq!(u64_to_string(0), "0");
    assert_eq!(u64_to_string(7), "7");
    assert_eq!(u64_to_string(1234567890), "1234567890");
    assert_eq!(u64_to_string(u64::MAX), "18446744073709551615");
}

#[test]
fn signed_rendering_handles_the_extremes() {
    assert_eq!(i64_to_string(0), "0");
    assert_eq!(i64_to_string(-5), "-5");
    assert_eq!(i64_to_string(i64::MAX), "9223372036854775807");
    assert_eq!(i64_to_string(i64::MIN), "-9223372036854775808");
}

#[test]
fn parse_accepts_what_the_standard_parser_accepts() {
    assert_eq!(parse_i64("0"), Some(0));
    assert_eq!(parse_i64("42"), Some(42));
    assert_eq!(parse_i64("+42"), Some(42));
    assert_eq!(parse_i64("-42"), Some(-42));
    assert_eq!(parse_i64("9223372036854775807"), Some(i64::MAX));
    assert_eq!(parse_i64("-9223372036854775808"), Some(i64::MIN));
}

#[test]
fn parse_rejects_what_the_standard_parser_rejects() {
    assert_eq!(parse_i64(""), None);
    assert_eq!(parse_i64("-"), None);
    assert_eq!(parse_i64("+"), None);
    assert_eq!(parse_i64("12a"), None);
    assert_eq!(parse_i64(" 12"), None);
    assert_eq!(parse_i64("9223372036854775808"), None);
    assert_eq!(parse_i64("-9223372036854775809"), None);
    assert_eq!(parse_i64("99999999999999999999999"), None);
}

#[test]
fn item_renders_as_the_replace_request_body() {
    let item = Item {
        id: "items:a".to_string(),
        name: "Milk".to_string(),
        category: "Dairy".to_string(),
        stock: 2,
        desired_stock: -1,
        track_general: true,
        last_updated: "2024-03-05 10:00:00 UTC".to_string(),
    };
    let expected = "{\n            \"id\": \"items:a\",\n            \"name\": \"Milk\",\n            \"category\": \"Dairy\",\n            \"stock\": 2,\n            \"desired_stock\": -1,\n            \"track_general\": true,\n            \"last_updated\": \"2024-03-05 10:00:00 UTC\"\n        }";
    assert_eq!(item.to_json(), expected);
}

#[test]
fn restock_batch_renders_as_the_adjustment_body() {
    let items = vec![
        RestockItem { id: "items:a".to_string(), count: 2 },
        RestockItem { id: "items:b".to_string(), count: -1 },
    ];
    assert_eq!(
        restock_items_to_json(&items),
        "[{\"id\": \"items:a\",\"count\": 2},{\"id\": \"items:b\",\"count\": -1}]"
    );
    assert_eq!(
        restock_items_to_json(&vec![RestockItem { id: "items:a".to_string(), count: 3 }]),
        "[{\"id\": \"items:a\",\"count\": 3}]"
    );
    // with no entries the encoder's comma-trim consumes the opening bracket
    assert_eq!(restock_items_to_json(&Vec::new()), "]");
}

#[test]
fn log_vec_prefixes_each_entry_with_the_marker() {
    let entry = RestockItem { id: "items:a".to_string(), count: 2 };
    let parts = vec![entry.log_text(), "items:b: -1".to_string()];
    assert_eq!(log_vec(&parts), "\\n\\titems:a: 2\\n\\titems:b: -1");
    assert_eq!(log_vec(&Vec::new()), "");
}

#[test]
fn log_reinventory_lists_id_stock_and_desired() {
    let items = vec![
        Item {
            id: "items:a".to_string(),
            name: "Milk".to_string(),
            category: "Dairy".to_string(),
            stock: 3,
            desired_stock: 4,
            track_general: false,
            last_updated: String::new(),
        },
    ];
    assert_eq!(log_reinventory(&items), "\\n\\titems:a: 3:4");
}

#[test]
fn category_labels_match_their_names() {
    assert_eq!(Categories::Can.label(), "Can");
    assert_eq!(Categories::Box.label(), "Box");
    assert_eq!(Categories::Bag.label(), "Bag");
    assert_eq!(Categories::Frozen.label(), "Frozen");
    assert_eq!(Categories::Refridgerated.label(), "Refridgerated");
    assert_eq!(Categories::Other.label(), "Other");
}
