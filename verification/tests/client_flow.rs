//! Tests of the client core: subscription, the session state machine,
//! the store, and fan-out through a real broadcast channel.

use lobview::book::{OrderBookEvent, OrderBookUpdateType, FIXED_SCALE};
use lobview::client::{ClientCore, ConnPhase, WsAction, WsEvent};
use lobview::errors::BinanceError;
use lobview::snapshot::snapshot_from_json;

const SNAPSHOT_BODY: &str =
    "{\"lastUpdateId\":100,\"bids\":[[\"50000\",\"1.0\"]],\"asks\":[[\"50010\",\"2.0\"]]}";

const DELTA_FRAME: &str = "{\"e\":\"depthUpdate\",\"E\":1700000000000,\"s\":\"BTCUSDT\",\
     \"U\":101,\"u\":102,\"b\":[[\"50000\",\"2.5\"]],\"a\":[]}";

fn subscribe_checked(core: &mut ClientCore, symbol: &str) -> String {
    match core.prepare_subscribe(symbol) {
        Ok(lower) => lower,
        Err(e) => panic!("subscribe failed: {}", e.message()),
    }
}

fn subscribed_core() -> ClientCore {
    let mut core = ClientCore::new();
    let lower = subscribe_checked(&mut core, "BTCUSDT");
    let book = snapshot_from_json(&lower, SNAPSHOT_BODY).expect("snapshot decodes");
    core.install_snapshot(book);
    core.begin_connect();
    core.connection_opened();
    core
}

#[test]
fn empty_symbol_is_rejected_before_any_network_work() {
    let mut core = ClientCore::new();
    let r = core.prepare_subscribe("");
    assert!(matches!(r, Err(BinanceError::InvalidSymbol(_))));
    // Nothing was registered.
    assert!(matches!(core.stream_check(""), Err(BinanceError::NoOrderBookStream(_))));
}

#[test]
fn subscribe_lowercases_and_registers_the_symbol() {
    let mut core = ClientCore::new();
    let lower = subscribe_checked(&mut core, "BTCUSDT");
    assert_eq!(lower, "btcusdt");
    assert!(core.stream_check("btcusdt").is_ok());
    assert!(matches!(
        core.stream_check("ethusdt"),
        Err(BinanceError::NoOrderBookStream(_))
    ));
}

#[test]
fn get_orderbook_returns_an_owned_copy_under_the_exact_key() {
    let core = subscribed_core();
    let book = core.get_orderbook("btcusdt").expect("stored under the lowercase key");
    assert_eq!(book.symbol, "btcusdt");
    assert_eq!(book.last_update_id, 100);
    // The store is keyed by the lowercase symbol only.
    assert!(core.get_orderbook("BTCUSDT").is_none());
    assert!(core.get_orderbook("ethusdt").is_none());
}

#[test]
fn session_subscribes_each_symbol_once_at_the_wire() {
    let mut core = subscribed_core();
    let first = core.on_ws_event(WsEvent::NewSymbol("btcusdt".to_string()));
    match first {
        WsAction::SendText(frame) => assert_eq!(
            frame,
            "{\"method\":\"SUBSCRIBE\",\"params\":[\"btcusdt@depth@100ms\"],\"id\":1}"
        ),
        _ => panic!("expected a subscribe frame"),
    }
    // The repeat is a no-op at the wire level.
    let second = core.on_ws_event(WsEvent::NewSymbol("btcusdt".to_string()));
    assert!(matches!(second, WsAction::DoNothing));
    // The already-sent set is case-normalized: another casing of the
    // same symbol is the same wire subscription.
    let third = core.on_ws_event(WsEvent::NewSymbol("BTCUSDT".to_string()));
    assert!(matches!(third, WsAction::DoNothing));
}

#[test]
fn depth_frame_updates_the_book_and_publishes_a_delta() {
    let mut core = subscribed_core();
    let action = core.on_ws_event(WsEvent::Text(DELTA_FRAME.to_string()));
    let ev = match action {
        WsAction::Publish(ev) => ev,
        _ => panic!("an accepted update is published"),
    };
    assert_eq!(ev.event_type, OrderBookUpdateType::Delta);
    assert_eq!(ev.orderbook.symbol, "btcusdt");
    assert_eq!(ev.orderbook.last_update_id, 102);
    assert_eq!(ev.orderbook.bids.len(), 1);
    assert_eq!(ev.orderbook.bids[0].quantity, FIXED_SCALE * 5 / 2);
    // The stored book moved with it.
    let book = core.get_orderbook("btcusdt").unwrap();
    assert_eq!(book.last_update_id, 102);
    assert_eq!(book.bids[0].quantity, FIXED_SCALE * 5 / 2);
    assert_eq!(book.update_type, OrderBookUpdateType::Delta);
}

#[test]
fn stale_frame_and_foreign_frames_publish_nothing() {
    let mut core = subscribed_core();
    // A stale cursor: rejected, the book is untouched.
    let stale = "{\"e\":\"depthUpdate\",\"E\":1,\"s\":\"BTCUSDT\",\"U\":90,\"u\":99,\
                 \"b\":[[\"50000\",\"9\"]],\"a\":[]}";
    assert!(matches!(core.on_ws_event(WsEvent::Text(stale.to_string())), WsAction::DoNothing));
    assert_eq!(core.get_orderbook("btcusdt").unwrap().last_update_id, 100);
    assert_eq!(core.get_orderbook("btcusdt").unwrap().bids[0].quantity, FIXED_SCALE);
    // A control frame: not a depth update.
    assert!(matches!(
        core.on_ws_event(WsEvent::Text("{\"result\":null,\"id\":1}".to_string())),
        WsAction::DoNothing
    ));
    // A frame that carries the marker but fails to decode is dropped
    // whole, the store untouched.
    let broken = "{\"e\":\"depthUpdate\",\"E\":1,\"s\":\"BTCUSDT\",\"U\":90";
    assert!(matches!(core.on_ws_event(WsEvent::Text(broken.to_string())), WsAction::DoNothing));
    assert_eq!(core.get_orderbook("btcusdt").unwrap().last_update_id, 100);
    // A depth update for a symbol nobody subscribed: no book, no event.
    let foreign = "{\"e\":\"depthUpdate\",\"E\":1,\"s\":\"ETHUSDT\",\"U\":1,\"u\":2,\
                   \"b\":[],\"a\":[]}";
    assert!(matches!(core.on_ws_event(WsEvent::Text(foreign.to_string())), WsAction::DoNothing));
}

#[test]
fn ping_is_answered_with_identical_payload() {
    let mut core = subscribed_core();
    let action = core.on_ws_event(WsEvent::Ping(vec![1, 2, 3]));
    match action {
        WsAction::SendPong(payload) => assert_eq!(payload, vec![1, 2, 3]),
        _ => panic!("a ping is answered with a pong"),
    }
}

#[test]
fn close_and_transport_error_terminate_the_session() {
    let mut core = subscribed_core();
    assert_eq!(core.current_phase(), ConnPhase::Open);
    assert!(matches!(core.on_ws_event(WsEvent::ConnectionClosed), WsAction::Shutdown));
    assert_eq!(core.current_phase(), ConnPhase::Terminated);

    let mut core2 = subscribed_core();
    assert!(matches!(
        core2.on_ws_event(WsEvent::TransportError("reset".to_string())),
        WsAction::Shutdown
    ));
    assert_eq!(core2.current_phase(), ConnPhase::Terminated);
}

#[test]
fn connection_phases_walk_disconnected_connecting_open() {
    let mut core = ClientCore::new();
    assert_eq!(core.current_phase(), ConnPhase::Disconnected);
    core.begin_connect();
    assert_eq!(core.current_phase(), ConnPhase::Connecting);
    core.connection_opened();
    assert_eq!(core.current_phase(), ConnPhase::Open);

    let mut failed = ClientCore::new();
    failed.begin_connect();
    failed.connection_failed();
    assert_eq!(failed.current_phase(), ConnPhase::Terminated);
}

#[test]
fn resubscribe_refreshes_the_snapshot() {
    let mut core = subscribed_core();
    core.on_ws_event(WsEvent::Text(DELTA_FRAME.to_string()));
    assert_eq!(core.get_orderbook("btcusdt").unwrap().last_update_id, 102);
    // A second subscribe call re-fetches and re-installs a snapshot
    // wholesale (here one with a later cursor).
    let lower = subscribe_checked(&mut core, "BTCUSDT");
    let body = "{\"lastUpdateId\":200,\"bids\":[[\"50001\",\"1\"]],\"asks\":[]}";
    let book = snapshot_from_json(&lower, body).unwrap();
    let ev = core.install_snapshot(book);
    assert_eq!(ev.event_type, OrderBookUpdateType::Snapshot);
    let stored = core.get_orderbook("btcusdt").unwrap();
    assert_eq!(stored.last_update_id, 200);
    assert_eq!(stored.bids[0].price, 50001 * FIXED_SCALE);
    assert!(stored.asks.is_empty());
}

#[test]
fn error_messages_name_their_cause() {
    assert_eq!(
        BinanceError::InvalidSymbol("".to_string()).message(),
        "Invalid symbol: "
    );
    assert_eq!(
        BinanceError::NoOrderBookStream("xrpusdt".to_string()).message(),
        "No orderbook stream for symbol: xrpusdt"
    );
    assert_eq!(BinanceError::ChannelError.message(), "Channel error");
    assert_eq!(
        BinanceError::WebSocketError("reset".to_string()).message(),
        "WebSocket error: reset"
    );
    assert_eq!(
        BinanceError::HttpError("404".to_string()).message(),
        "HTTP request error: 404"
    );
    assert_eq!(
        BinanceError::UrlParseError("bad".to_string()).message(),
        "URL parse error: bad"
    );
    assert_eq!(
        BinanceError::SerdeError("eof".to_string()).message(),
        "JSON serialization error: eof"
    );
}

#[test]
fn fanout_subscribers_observe_the_same_event_kinds_in_order() {
    // Mirror the process plumbing: one bounded broadcast channel per
    // symbol, every published event cloned to each subscriber. Both
    // subscribers see the same ordered kinds: Snapshot, then Deltas.
    let mut core = ClientCore::new();
    let lower = subscribe_checked(&mut core, "BTCUSDT");
    let (tx, rx1) = tokio::sync::broadcast::channel::<OrderBookEvent>(100);
    let mut rx1 = rx1;
    let mut rx2 = tx.subscribe();

    let book = snapshot_from_json(&lower, SNAPSHOT_BODY).unwrap();
    let snapshot_ev = core.install_snapshot(book);
    tx.send(snapshot_ev).unwrap();

    core.begin_connect();
    core.connection_opened();
    for (u, qty) in [(101u64, "2.0"), (102, "3.0")] {
        let frame = format!(
            "{{\"e\":\"depthUpdate\",\"E\":1,\"s\":\"BTCUSDT\",\"U\":{},\"u\":{},\
             \"b\":[[\"50000\",\"{}\"]],\"a\":[]}}",
            u, u, qty
        );
        if let WsAction::Publish(ev) = core.on_ws_event(WsEvent::Text(frame)) {
            tx.send(ev).unwrap();
        }
    }

    let mut kinds1 = Vec::new();
    while let Ok(ev) = rx1.try_recv() {
        kinds1.push(ev.event_type);
    }
    let mut kinds2 = Vec::new();
    while let Ok(ev) = rx2.try_recv() {
        kinds2.push(ev.event_type);
    }
    let expected = vec![
        OrderBookUpdateType::Snapshot,
        OrderBookUpdateType::Delta,
        OrderBookUpdateType::Delta,
    ];
    assert_eq!(kinds1, expected);
    assert_eq!(kinds2, expected);
}
