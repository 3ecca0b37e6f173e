//! Tests of the fixed-point number parser and the wire protocol:
//! decoding real JSON frames through serde_json and framing the
//! subscription request.

use lobview::book::FIXED_SCALE;
use lobview::fixed::{parse_fixed, parse_fixed_or_zero};
use lobview::snapshot::snapshot_from_json;
use lobview::wire::{contains_depth_marker, parse_depth_update, parse_snapshot, subscribe_frame};

#[test]
fn parses_integers_and_fractions_exactly() {
    assert_eq!(parse_fixed("50000"), Some(50000 * FIXED_SCALE));
    assert_eq!(parse_fixed("1.0"), Some(FIXED_SCALE));
    assert_eq!(parse_fixed("0.5"), Some(FIXED_SCALE / 2));
    assert_eq!(parse_fixed("0.00000001"), Some(1));
    assert_eq!(parse_fixed("1.00000000"), Some(FIXED_SCALE));
    assert_eq!(parse_fixed("0"), Some(0));
    assert_eq!(parse_fixed("007"), Some(7 * FIXED_SCALE));
    assert_eq!(parse_fixed(".5"), Some(FIXED_SCALE / 2));
    assert_eq!(parse_fixed("5."), Some(5 * FIXED_SCALE));
    assert_eq!(parse_fixed("12345.6789"), Some(1_234_567_890_000));
}

#[test]
fn rejects_malformed_numbers() {
    assert_eq!(parse_fixed(""), None);
    assert_eq!(parse_fixed("."), None);
    assert_eq!(parse_fixed("1.2.3"), None);
    assert_eq!(parse_fixed("abc"), None);
    assert_eq!(parse_fixed("1e5"), None);
    assert_eq!(parse_fixed("-1"), None);
    assert_eq!(parse_fixed("+1"), None);
    assert_eq!(parse_fixed(" 1"), None);
    // More than eight fractional digits cannot be carried exactly.
    assert_eq!(parse_fixed("0.123456789"), None);
    // Too large for a scaled u64.
    assert_eq!(parse_fixed("999999999999999999999"), None);
}

#[test]
fn malformed_numbers_fall_back_to_zero() {
    assert_eq!(parse_fixed_or_zero("oops"), 0);
    assert_eq!(parse_fixed_or_zero("2"), 2 * FIXED_SCALE);
}

#[test]
fn subscribe_frame_is_the_exact_json_text() {
    assert_eq!(
        subscribe_frame("btcusdt", 1),
        "{\"method\":\"SUBSCRIBE\",\"params\":[\"btcusdt@depth@100ms\"],\"id\":1}"
    );
    assert_eq!(
        subscribe_frame("ethusdt", 907),
        "{\"method\":\"SUBSCRIBE\",\"params\":[\"ethusdt@depth@100ms\"],\"id\":907}"
    );
}

#[test]
fn marker_scan_finds_depth_updates_only() {
    assert!(contains_depth_marker("{\"e\":\"depthUpdate\",\"E\":1}"));
    assert!(contains_depth_marker("xx{\"e\":\"depthUpdate\"}"));
    assert!(!contains_depth_marker("{\"result\":null,\"id\":1}"));
    assert!(!contains_depth_marker(""));
    assert!(!contains_depth_marker("{\"e\":\"trade\"}"));
}

#[test]
fn depth_update_frame_decodes_through_serde_json() {
    let text = "{\"e\":\"depthUpdate\",\"E\":1700000000000,\"s\":\"BTCUSDT\",\
                \"U\":101,\"u\":102,\"b\":[[\"50000\",\"1.5\"]],\"a\":[[\"50010\",\"0\"]]}";
    let update = parse_depth_update(text).expect("a well-formed frame decodes");
    assert_eq!(update.symbol, "BTCUSDT");
    assert_eq!(update.first_update_id, 101);
    assert_eq!(update.final_update_id, 102);
    assert_eq!(update.bids.len(), 1);
    assert_eq!(update.bids[0].price, "50000");
    assert_eq!(update.bids[0].quantity, "1.5");
    assert_eq!(update.asks.len(), 1);
    assert_eq!(update.asks[0].quantity, "0");
}

#[test]
fn frames_without_marker_or_fields_are_dropped() {
    // No marker: dropped before parsing.
    assert!(parse_depth_update("{\"result\":null,\"id\":1}").is_none());
    // Marker present but not valid JSON.
    assert!(parse_depth_update("\"e\":\"depthUpdate\" oops").is_none());
    // Marker present but a required field is missing.
    assert!(parse_depth_update("{\"e\":\"depthUpdate\",\"E\":1,\"s\":\"X\",\"U\":1,\"u\":2,\"b\":[]}").is_none());
    // A level entry of the wrong shape fails the whole frame.
    assert!(parse_depth_update(
        "{\"e\":\"depthUpdate\",\"E\":1,\"s\":\"X\",\"U\":1,\"u\":2,\"b\":[[\"1\"]],\"a\":[]}"
    )
    .is_none());
    // A numeric cursor of the wrong type fails the frame.
    assert!(parse_depth_update(
        "{\"e\":\"depthUpdate\",\"E\":1,\"s\":\"X\",\"U\":\"1\",\"u\":2,\"b\":[],\"a\":[]}"
    )
    .is_none());
}

#[test]
fn snapshot_body_decodes_through_serde_json() {
    let body = "{\"lastUpdateId\":100,\"bids\":[[\"50000\",\"1.0\"]],\"asks\":[[\"50010\",\"2.0\"]]}";
    let resp = parse_snapshot(body).expect("a well-formed body decodes");
    assert_eq!(resp.last_update_id, 100);
    assert_eq!(resp.bids.len(), 1);
    assert_eq!(resp.bids[0].price, "50000");
    assert_eq!(resp.asks[0].quantity, "2.0");

    assert!(parse_snapshot("not json").is_none());
    assert!(parse_snapshot("{\"bids\":[],\"asks\":[]}").is_none());
}

#[test]
fn snapshot_from_json_builds_a_sorted_book() {
    let body = "{\"lastUpdateId\":100,\"bids\":[[\"49990\",\"1\"],[\"50000\",\"2\"]],\
                \"asks\":[[\"50020\",\"1\"],[\"50010\",\"2\"]]}";
    let book = snapshot_from_json("btcusdt", body).expect("body decodes");
    assert_eq!(book.symbol, "btcusdt");
    assert_eq!(book.last_update_id, 100);
    assert_eq!(book.bids[0].price, 50000 * FIXED_SCALE);
    assert_eq!(book.bids[1].price, 49990 * FIXED_SCALE);
    assert_eq!(book.asks[0].price, 50010 * FIXED_SCALE);
    assert_eq!(book.asks[1].price, 50020 * FIXED_SCALE);
    assert!(snapshot_from_json("btcusdt", "garbage").is_none());
}
