//! Tests of the reconciliation algorithm on concrete books.

use lobview::book::{OrderBook, OrderBookLevel, OrderBookUpdateType, FIXED_SCALE};
use lobview::reconcile::{apply, update_levels, DepthUpdate, RawLevel};
use lobview::snapshot::build_book;

fn raw(price: &str, quantity: &str) -> RawLevel {
    RawLevel { price: price.to_string(), quantity: quantity.to_string() }
}

fn fp(units: u64) -> u64 {
    units * FIXED_SCALE
}

fn snapshot_a() -> OrderBook {
    // {lastUpdateId: 100, bids: [[50000, "1.0"]], asks: [[50010, "2.0"]]}
    let bids = vec![raw("50000", "1.0")];
    let asks = vec![raw("50010", "2.0")];
    build_book("btcusdt".to_string(), 100, &bids, &asks, 7)
}

fn assert_descending(levels: &[OrderBookLevel]) {
    for w in levels.windows(2) {
        assert!(w[0].price > w[1].price);
    }
}

fn assert_ascending(levels: &[OrderBookLevel]) {
    for w in levels.windows(2) {
        assert!(w[0].price < w[1].price);
    }
}

fn assert_positive(levels: &[OrderBookLevel]) {
    for l in levels {
        assert!(l.quantity > 0);
    }
}

#[test]
fn snapshot_installs_sorted_sides() {
    let bids = vec![raw("49990", "1"), raw("50000", "2"), raw("49995", "3")];
    let asks = vec![raw("50020", "1"), raw("50010", "2"), raw("50015", "0")];
    let book = build_book("btcusdt".to_string(), 42, &bids, &asks, 0);
    assert_eq!(book.last_update_id, 42);
    assert_eq!(book.update_type, OrderBookUpdateType::Snapshot);
    // Bids strictly descending, zero-quantity ask filtered out, asks ascending.
    assert_eq!(
        book.bids,
        vec![
            OrderBookLevel { price: fp(50000), quantity: fp(2) },
            OrderBookLevel { price: fp(49995), quantity: fp(3) },
            OrderBookLevel { price: fp(49990), quantity: fp(1) },
        ]
    );
    assert_eq!(
        book.asks,
        vec![
            OrderBookLevel { price: fp(50010), quantity: fp(2) },
            OrderBookLevel { price: fp(50020), quantity: fp(1) },
        ]
    );
    assert_descending(&book.bids);
    assert_ascending(&book.asks);
    assert_positive(&book.bids);
    assert_positive(&book.asks);
}

#[test]
fn snapshot_filters_malformed_quantities() {
    // A malformed quantity parses to 0 and the level is dropped; a
    // malformed price parses to 0 and the level stays at price 0.
    let bids = vec![raw("50000", "oops"), raw("49990", "1")];
    let asks: Vec<RawLevel> = Vec::new();
    let book = build_book("btcusdt".to_string(), 1, &bids, &asks, 0);
    assert_eq!(book.bids, vec![OrderBookLevel { price: fp(49990), quantity: fp(1) }]);
    assert!(book.asks.is_empty());
}

#[test]
fn scenario_a_zero_quantity_removes_level() {
    let mut book = snapshot_a();
    let delta = DepthUpdate {
        symbol: "BTCUSDT".to_string(),
        first_update_id: 95,
        final_update_id: 101,
        bids: vec![raw("50000", "0")],
        asks: vec![],
    };
    let applied = apply(&mut book, &delta, 8);
    assert!(applied);
    assert!(book.bids.is_empty());
    assert_eq!(book.last_update_id, 101);
    assert_eq!(book.update_type, OrderBookUpdateType::Delta);
    assert_eq!(book.timestamp, 8);
    // The ask side was untouched.
    assert_eq!(book.asks, vec![OrderBookLevel { price: fp(50010), quantity: fp(2) }]);
}

#[test]
fn scenario_b_stale_delta_rejected() {
    let mut book = snapshot_a();
    let delta = DepthUpdate {
        symbol: "BTCUSDT".to_string(),
        first_update_id: 95,
        final_update_id: 99,
        bids: vec![raw("50000", "0")],
        asks: vec![],
    };
    let applied = apply(&mut book, &delta, 8);
    assert!(!applied);
    assert_eq!(book.last_update_id, 100);
    assert_eq!(book.update_type, OrderBookUpdateType::Snapshot);
    assert_eq!(book.timestamp, 7);
    assert_eq!(book.bids, vec![OrderBookLevel { price: fp(50000), quantity: fp(1) }]);
    assert_eq!(book.asks, vec![OrderBookLevel { price: fp(50010), quantity: fp(2) }]);
}

#[test]
fn scenario_c_new_level_inserted_in_order() {
    let mut book = snapshot_a();
    let delta = DepthUpdate {
        symbol: "BTCUSDT".to_string(),
        first_update_id: 101,
        final_update_id: 102,
        bids: vec![raw("49990", "0.5")],
        asks: vec![],
    };
    assert!(apply(&mut book, &delta, 9));
    assert_eq!(
        book.bids,
        vec![
            OrderBookLevel { price: fp(50000), quantity: fp(1) },
            OrderBookLevel { price: fp(49990), quantity: FIXED_SCALE / 2 },
        ]
    );
    assert_eq!(book.last_update_id, 102);
}

#[test]
fn replay_of_same_delta_is_noop() {
    let mut book = snapshot_a();
    let delta = DepthUpdate {
        symbol: "BTCUSDT".to_string(),
        first_update_id: 100,
        final_update_id: 101,
        bids: vec![raw("49995", "4")],
        asks: vec![],
    };
    assert!(apply(&mut book, &delta, 1));
    let bids_after_first = book.bids.clone();
    let id_after_first = book.last_update_id;
    let ts_after_first = book.timestamp;
    // The identical delta a second time: rejected, nothing moves.
    assert!(!apply(&mut book, &delta, 2));
    assert_eq!(book.bids, bids_after_first);
    assert_eq!(book.last_update_id, id_after_first);
    assert_eq!(book.timestamp, ts_after_first);
}

#[test]
fn cursor_is_monotonic_under_out_of_order_delivery() {
    let mut book = snapshot_a();
    let mut cursor_history = vec![book.last_update_id];
    for (final_id, qty) in [(105u64, "1"), (103, "9"), (103, "9"), (110, "2")] {
        let delta = DepthUpdate {
            symbol: "BTCUSDT".to_string(),
            first_update_id: 0,
            final_update_id: final_id,
            bids: vec![raw("50000", qty)],
            asks: vec![],
        };
        apply(&mut book, &delta, 0);
        cursor_history.push(book.last_update_id);
    }
    assert_eq!(cursor_history, vec![100, 105, 105, 105, 110]);
    for w in cursor_history.windows(2) {
        assert!(w[0] <= w[1]);
    }
    // The cursor ends at the maximum final id ever accepted.
    assert_eq!(book.last_update_id, 110);
    // The out-of-order quantity was never applied.
    assert_eq!(book.bids, vec![OrderBookLevel { price: fp(50000), quantity: fp(2) }]);
}

#[test]
fn zero_quantity_on_absent_price_is_noop() {
    let mut levels = vec![
        OrderBookLevel { price: fp(50000), quantity: fp(1) },
        OrderBookLevel { price: fp(49990), quantity: fp(2) },
    ];
    let before = levels.clone();
    update_levels(&mut levels, &vec![raw("49995", "0")], true);
    assert_eq!(levels, before);
}

#[test]
fn zero_quantity_on_present_price_removes_it() {
    let mut levels = vec![
        OrderBookLevel { price: fp(50000), quantity: fp(1) },
        OrderBookLevel { price: fp(49990), quantity: fp(2) },
    ];
    update_levels(&mut levels, &vec![raw("49990", "0")], true);
    assert_eq!(levels, vec![OrderBookLevel { price: fp(50000), quantity: fp(1) }]);
}

#[test]
fn batch_order_does_not_matter_for_final_sides() {
    // The same three changes in two different orders leave the same side,
    // strictly sorted either way.
    let base = vec![
        OrderBookLevel { price: fp(50000), quantity: fp(1) },
        OrderBookLevel { price: fp(49990), quantity: fp(2) },
    ];
    let mut one = base.clone();
    update_levels(
        &mut one,
        &vec![raw("49995", "3"), raw("50000", "0"), raw("50005", "4")],
        true,
    );
    let mut two = base.clone();
    update_levels(
        &mut two,
        &vec![raw("50005", "4"), raw("49995", "3"), raw("50000", "0")],
        true,
    );
    assert_eq!(one, two);
    assert_descending(&one);
    assert_eq!(
        one,
        vec![
            OrderBookLevel { price: fp(50005), quantity: fp(4) },
            OrderBookLevel { price: fp(49995), quantity: fp(3) },
            OrderBookLevel { price: fp(49990), quantity: fp(2) },
        ]
    );
}

#[test]
fn last_pair_for_a_price_wins_within_a_batch() {
    let mut levels: Vec<OrderBookLevel> = Vec::new();
    update_levels(&mut levels, &vec![raw("50000", "1"), raw("50000", "5")], true);
    assert_eq!(levels, vec![OrderBookLevel { price: fp(50000), quantity: fp(5) }]);
    update_levels(&mut levels, &vec![raw("50000", "3"), raw("50000", "0")], true);
    assert!(levels.is_empty());
}

#[test]
fn sides_stay_sorted_and_unique_across_deltas() {
    let mut book = snapshot_a();
    let deltas = [
        (101u64, vec![raw("49990", "1"), raw("50005", "2")], vec![raw("50012", "1")]),
        (102, vec![raw("50000", "0"), raw("49980", "4")], vec![raw("50010", "0")]),
        (103, vec![raw("50005", "1.5")], vec![raw("50011", "2"), raw("50013", "1")]),
    ];
    for (final_id, bids, asks) in deltas {
        let delta = DepthUpdate {
            symbol: "BTCUSDT".to_string(),
            first_update_id: 0,
            final_update_id: final_id,
            bids,
            asks,
        };
        assert!(apply(&mut book, &delta, 0));
        assert_descending(&book.bids);
        assert_ascending(&book.asks);
        assert_positive(&book.bids);
        assert_positive(&book.asks);
        for w in book.bids.windows(2) {
            assert_ne!(w[0].price, w[1].price);
        }
    }
    assert_eq!(book.last_update_id, 103);
}
