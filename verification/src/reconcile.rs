//! The reconciler: applies a batch of incremental level changes to an
//! order book, enforcing the sequence cursor and keeping both sides
//! strictly sorted and price-unique.
//!
//! An update whose final cursor is not beyond the book's cursor is
//! rejected outright, which makes replay under at-least-once delivery
//! idempotent and keeps `last_update_id` monotonic. A forward gap — a
//! first cursor beyond `last_update_id + 1` — is not detected and not
//! healed: stale data is rejected, missing data goes unnoticed. That is
//! a known limitation of this reconciliation scheme, kept as it is.

use vstd::prelude::*;

use crate::book::{
    book_wf, lemma_side_qty_absent, lemma_side_qty_nonzero_present, lemma_side_qty_push,
    lemma_side_qty_take_step, side_qty, side_wf, OrderBook, OrderBookLevel, OrderBookUpdateType,
};
use crate::fixed::{parse_fixed_or_zero, parse_fixed_spec_or_zero};

verus! {

/// One raw price/quantity pair as it stands in a message: two decimal
/// strings.
pub struct RawLevel {
    /// Decimal price string.
    pub price: String,
    /// Decimal quantity string; `"0"` means the level is removed.
    pub quantity: String,
}

impl View for RawLevel {
    type V = (Seq<char>, Seq<char>);

    open spec fn view(&self) -> (Seq<char>, Seq<char>) {
        (self.price@, self.quantity@)
    }
}

/// The raw pairs of a batch as character sequences, in message order.
pub open spec fn levels_view(raw: Seq<RawLevel>) -> Seq<(Seq<char>, Seq<char>)> {
    raw.map_values(|l: RawLevel| l@)
}

/// An incremental depth update for one symbol, as carried by a stream
/// frame.
pub struct DepthUpdate {
    /// Symbol the update belongs to, as sent by the exchange.
    pub symbol: String,
    /// First sequence cursor covered by this update.
    pub first_update_id: u64,
    /// Final sequence cursor covered by this update.
    pub final_update_id: u64,
    /// Bid-side changes.
    pub bids: Vec<RawLevel>,
    /// Ask-side changes.
    pub asks: Vec<RawLevel>,
}

/// The plain fields of a depth-update frame, at the specification
/// level: everything the reconciler's behaviour depends on.
pub struct DepthUpdateView {
    /// Symbol, as sent by the exchange.
    pub symbol: Seq<char>,
    /// First sequence cursor covered.
    pub first_update_id: u64,
    /// Final sequence cursor covered.
    pub final_update_id: u64,
    /// Bid-side changes, as (price, quantity) character sequences.
    pub bids: Seq<(Seq<char>, Seq<char>)>,
    /// Ask-side changes.
    pub asks: Seq<(Seq<char>, Seq<char>)>,
}

impl View for DepthUpdate {
    type V = DepthUpdateView;

    open spec fn view(&self) -> DepthUpdateView {
        DepthUpdateView {
            symbol: self.symbol@,
            first_update_id: self.first_update_id,
            final_update_id: self.final_update_id,
            bids: levels_view(self.bids@),
            asks: levels_view(self.asks@),
        }
    }
}

/// The fixed-point (price, quantity) a raw pair parses to, with the
/// fallback of 0 for malformed numbers.
pub open spec fn raw_pair(l: RawLevel) -> (u64, u64) {
    (parse_fixed_spec_or_zero(l.price@), parse_fixed_spec_or_zero(l.quantity@))
}

/// All pairs of a raw batch, in message order.
pub open spec fn raw_pairs(raw: Seq<RawLevel>) -> Seq<(u64, u64)> {
    raw.map_values(|l: RawLevel| raw_pair(l))
}

/// The same pairs computed from the character sequences alone.
pub open spec fn view_pairs(raw: Seq<(Seq<char>, Seq<char>)>) -> Seq<(u64, u64)> {
    raw.map_values(
        |p: (Seq<char>, Seq<char>)| (parse_fixed_spec_or_zero(p.0), parse_fixed_spec_or_zero(p.1)),
    )
}

/// Parsing a batch through its view gives the batch's own pairs.
pub proof fn lemma_view_pairs(raw: Seq<RawLevel>)
    ensures
        view_pairs(levels_view(raw)) == raw_pairs(raw),
{
    assert(view_pairs(levels_view(raw)) =~= raw_pairs(raw));
}

/// The quantity at `price` after the pairs are applied to `orig` in
/// order: the last pair at that price wins, a quantity of 0 means the
/// level is gone, and prices no pair touches keep their old quantity.
pub open spec fn pairs_qty(orig: Seq<OrderBookLevel>, pairs: Seq<(u64, u64)>, price: u64) -> u64
    decreases pairs.len(),
{
    if pairs.len() == 0 {
        side_qty(orig, price)
    } else if pairs.last().0 == price {
        pairs.last().1
    } else {
        pairs_qty(orig, pairs.drop_last(), price)
    }
}

/// `a` is ordered before `b` on a side running in the given direction.
pub open spec fn price_before(descending: bool, a: u64, b: u64) -> bool {
    if descending {
        a > b
    } else {
        a < b
    }
}

/// Apply one (price, quantity) change to a well-formed side: quantity 0
/// removes any level at that price, any other quantity replaces or
/// inserts the level at its sorted position.
pub(crate) fn apply_level(
    levels: &Vec<OrderBookLevel>,
    price: u64,
    quantity: u64,
    descending: bool,
) -> (out: Vec<OrderBookLevel>)
    requires
        side_wf(levels@, descending),
    ensures
        side_wf(out@, descending),
        forall|p: u64|
            #[trigger] side_qty(out@, p) == (if p == price {
                quantity
            } else {
                side_qty(levels@, p)
            }),
{
    let mut out: Vec<OrderBookLevel> = Vec::new();
    let mut inserted = false;
    let mut i: usize = 0;
    while i < levels.len()
        invariant
            0 <= i <= levels.len(),
            side_wf(levels@, descending),
            side_wf(out@, descending),
            forall|a: int, b: int|
                0 <= a < out.len() && i <= b < levels.len() ==> price_before(
                    descending,
                    #[trigger] out@[a].price,
                    #[trigger] levels@[b].price,
                ),
            !inserted && quantity != 0 ==> forall|a: int|
                0 <= a < out.len() ==> price_before(descending, #[trigger] out@[a].price, price),
            !inserted ==> forall|b: int| 0 <= b < i ==> #[trigger] levels@[b].price != price,
            inserted ==> forall|p: u64|
                #[trigger] side_qty(out@, p) == (if p == price {
                    quantity
                } else {
                    side_qty(levels@.take(i as int), p)
                }),
            !inserted ==> forall|p: u64|
                #[trigger] side_qty(out@, p) == side_qty(levels@.take(i as int), p),
        decreases levels.len() - i,
    {
        let l = levels[i];
        let ghost pre_take = levels@.take(i as int);
        proof {
            lemma_side_qty_take_step(levels@, i as int);
        }
        if l.price == price {
            proof {
                if inserted {
                    if quantity != 0 {
                        // A second level at this price cannot stand: everything
                        // in `out` is ordered strictly before the rest of the
                        // side, so `price` is not in `out` yet.
                        lemma_side_qty_nonzero_present(out@, price);
                        assert(false);
                    }
                } else {
                    lemma_side_qty_absent(pre_take, price);
                }
            }
            if quantity != 0 {
                let ghost out0 = out@;
                out.push(OrderBookLevel { price, quantity });
                proof {
                    lemma_side_qty_push(out0, OrderBookLevel { price, quantity });
                }
            }
            inserted = true;
        } else {
            if !inserted && quantity != 0 && (if descending {
                l.price < price
            } else {
                l.price > price
            }) {
                let ghost out0 = out@;
                out.push(OrderBookLevel { price, quantity });
                proof {
                    lemma_side_qty_push(out0, OrderBookLevel { price, quantity });
                }
                inserted = true;
            }
            let ghost out1 = out@;
            out.push(l);
            proof {
                lemma_side_qty_push(out1, l);
            }
        }
        i = i + 1;
    }
    proof {
        assert(levels@.take(i as int) =~= levels@);
        if !inserted {
            lemma_side_qty_absent(levels@, price);
        }
    }
    if !inserted && quantity != 0 {
        let ghost out2 = out@;
        out.push(OrderBookLevel { price, quantity });
        proof {
            lemma_side_qty_push(out2, OrderBookLevel { price, quantity });
        }
    }
    out
}

/// Apply a batch of raw level changes to one side of a book. Pairs are
/// applied in message order; the side stays strictly sorted and
/// price-unique whatever the order of the batch.
pub fn update_levels(levels: &mut Vec<OrderBookLevel>, updates: &Vec<RawLevel>, descending: bool)
    requires
        side_wf(old(levels)@, descending),
    ensures
        side_wf(final(levels)@, descending),
        forall|p: u64|
            #[trigger] side_qty(final(levels)@, p) == pairs_qty(
                old(levels)@,
                raw_pairs(updates@),
                p,
            ),
{
    let ghost orig = levels@;
    let mut u: usize = 0;
    while u < updates.len()
        invariant
            0 <= u <= updates.len(),
            side_wf(levels@, descending),
            forall|p: u64|
                #[trigger] side_qty(levels@, p) == pairs_qty(
                    orig,
                    raw_pairs(updates@).take(u as int),
                    p,
                ),
        decreases updates.len() - u,
    {
        let price = parse_fixed_or_zero(updates[u].price.as_str());
        let quantity = parse_fixed_or_zero(updates[u].quantity.as_str());
        let next = apply_level(levels, price, quantity, descending);
        proof {
            let pairs = raw_pairs(updates@);
            assert(pairs[u as int] == raw_pair(updates@[u as int]));
            assert(pairs.take(u + 1).drop_last() =~= pairs.take(u as int));
            assert(pairs.take(u + 1).last() == pairs[u as int]);
        }
        *levels = next;
        u = u + 1;
    }
    proof {
        assert(raw_pairs(updates@).take(updates@.len() as int) =~= raw_pairs(updates@));
    }
}

/// The sequence cursor after one update is seen: an update moves the
/// cursor to its final id exactly when it goes beyond the current one.
pub open spec fn step_id(id: u64, final_id: u64) -> u64 {
    if final_id > id {
        final_id
    } else {
        id
    }
}

/// Apply an incremental depth update to a book.
///
/// Returns true and mutates the book exactly when the update's final
/// cursor is beyond the book's; a stale or replayed update is rejected
/// and the book is left untouched. On acceptance both sides are merged
/// pair by pair, the cursor advances to the update's final id, the book
/// is marked as delta-updated and its timestamp is refreshed to `now`.
pub fn apply(book: &mut OrderBook, update: &DepthUpdate, now: i64) -> (applied: bool)
    requires
        book_wf(*old(book)),
    ensures
        book_wf(*final(book)),
        applied == (update.final_update_id > old(book).last_update_id),
        final(book).last_update_id == step_id(old(book).last_update_id, update.final_update_id),
        !applied ==> *final(book) == *old(book),
        applied ==> final(book).symbol == old(book).symbol,
        applied ==> final(book).update_type == OrderBookUpdateType::Delta,
        applied ==> final(book).timestamp == now,
        applied ==> forall|p: u64|
            #[trigger] side_qty(final(book).bids@, p) == pairs_qty(
                old(book).bids@,
                raw_pairs(update.bids@),
                p,
            ),
        applied ==> forall|p: u64|
            #[trigger] side_qty(final(book).asks@, p) == pairs_qty(
                old(book).asks@,
                raw_pairs(update.asks@),
                p,
            ),
{
    if update.final_update_id <= book.last_update_id {
        return false;
    }
    book.last_update_id = update.final_update_id;
    update_levels(&mut book.bids, &update.bids, true);
    update_levels(&mut book.asks, &update.asks, false);
    book.update_type = OrderBookUpdateType::Delta;
    book.timestamp = now;
    true
}

} // verus!
