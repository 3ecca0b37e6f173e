//! Building a fresh order book from a point-in-time snapshot.
//!
//! The snapshot endpoint hands back a sequence cursor and two raw level
//! lists. Levels whose quantity parses to 0 (including malformed
//! numbers, which fall back to 0) are filtered out; the rest are placed
//! in strict price order, bids descending and asks ascending, so the
//! built book is well-formed whatever the input.

use vstd::prelude::*;

use crate::book::{book_wf, side_qty, side_wf, OrderBook, OrderBookLevel, OrderBookUpdateType};
use crate::reconcile::{apply_level, lemma_view_pairs, raw_pair, raw_pairs, view_pairs, RawLevel};
use crate::wire::snapshot_decode;

verus! {

/// The quantity a snapshot's raw pairs leave at `price`: the last
/// non-zero pair at that price wins, zero-quantity pairs are skipped
/// rather than applied, and untouched prices stay empty.
pub open spec fn snap_qty(pairs: Seq<(u64, u64)>, price: u64) -> u64
    decreases pairs.len(),
{
    if pairs.len() == 0 {
        0
    } else if pairs.last().0 == price && pairs.last().1 != 0 {
        pairs.last().1
    } else {
        snap_qty(pairs.drop_last(), price)
    }
}

/// Build one side of a snapshot book from its raw level list: parse,
/// filter out empty levels and sort in the side's direction.
fn build_side(raw: &Vec<RawLevel>, descending: bool) -> (out: Vec<OrderBookLevel>)
    ensures
        side_wf(out@, descending),
        forall|p: u64| #[trigger] side_qty(out@, p) == snap_qty(raw_pairs(raw@), p),
{
    let mut out: Vec<OrderBookLevel> = Vec::new();
    let mut i: usize = 0;
    while i < raw.len()
        invariant
            0 <= i <= raw.len(),
            side_wf(out@, descending),
            forall|p: u64|
                #[trigger] side_qty(out@, p) == snap_qty(raw_pairs(raw@).take(i as int), p),
        decreases raw.len() - i,
    {
        let price = crate::fixed::parse_fixed_or_zero(raw[i].price.as_str());
        let quantity = crate::fixed::parse_fixed_or_zero(raw[i].quantity.as_str());
        proof {
            let pairs = raw_pairs(raw@);
            assert(pairs[i as int] == raw_pair(raw@[i as int]));
            assert(pairs.take(i + 1).drop_last() =~= pairs.take(i as int));
            assert(pairs.take(i + 1).last() == pairs[i as int]);
        }
        if quantity != 0 {
            let next = apply_level(&out, price, quantity, descending);
            out = next;
        }
        i = i + 1;
    }
    proof {
        assert(raw_pairs(raw@).take(raw@.len() as int) =~= raw_pairs(raw@));
    }
    out
}

/// Build a complete, well-formed snapshot book for `symbol` from the
/// cursor and the raw level lists of a snapshot response, observed at
/// `now`.
pub fn build_book(
    symbol: String,
    last_update_id: u64,
    bids: &Vec<RawLevel>,
    asks: &Vec<RawLevel>,
    now: i64,
) -> (book: OrderBook)
    ensures
        book_wf(book),
        book.symbol@ == symbol@,
        book.last_update_id == last_update_id,
        book.update_type == OrderBookUpdateType::Snapshot,
        book.timestamp == now,
        forall|p: u64| #[trigger] side_qty(book.bids@, p) == snap_qty(raw_pairs(bids@), p),
        forall|p: u64| #[trigger] side_qty(book.asks@, p) == snap_qty(raw_pairs(asks@), p),
{
    let built_bids = build_side(bids, true);
    let built_asks = build_side(asks, false);
    OrderBook {
        symbol,
        last_update_id,
        bids: built_bids,
        asks: built_asks,
        update_type: OrderBookUpdateType::Snapshot,
        timestamp: now,
    }
}

/// Decode a snapshot response body and build the book for `symbol`
/// from it, stamped with the current time. A book comes out exactly
/// when the body decodes as a snapshot response, and it is the
/// well-formed snapshot book of the decoded cursor and levels,
/// filtered and sorted.
pub fn snapshot_from_json(symbol: &str, text: &str) -> (r: Option<OrderBook>)
    ensures
        r is Some <==> snapshot_decode(text@) is Some,
        r matches Some(book) ==> snapshot_decode(text@) matches Some(sv) && {
            &&& book_wf(book)
            &&& book.symbol@ == symbol@
            &&& book.last_update_id == sv.last_update_id
            &&& book.update_type == OrderBookUpdateType::Snapshot
            &&& forall|p: u64|
                #[trigger] side_qty(book.bids@, p) == snap_qty(view_pairs(sv.bids), p)
            &&& forall|p: u64|
                #[trigger] side_qty(book.asks@, p) == snap_qty(view_pairs(sv.asks), p)
        },
{
    let resp = match crate::wire::parse_snapshot(text) {
        Some(resp) => resp,
        None => {
            return None;
        },
    };
    let now = crate::clock::now_millis();
    let book = build_book(symbol.to_owned(), resp.last_update_id, &resp.bids, &resp.asks, now);
    proof {
        lemma_view_pairs(resp.bids@);
        lemma_view_pairs(resp.asks@);
    }
    Some(book)
}

} // verus!
