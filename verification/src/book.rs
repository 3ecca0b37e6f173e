//! Data model of the order book: price levels, the book itself, and the
//! well-formedness conditions that every stored book satisfies.
//!
//! Prices and quantities are fixed-point integers: a value of
//! [`FIXED_SCALE`] stands for 1.0, so eight decimal places are carried
//! exactly. A level with quantity 0 denotes removal and is never stored.

use vstd::prelude::*;

verus! {

/// A fixed-point amount of `FIXED_SCALE` stands for 1.0: eight decimal
/// places are carried.
pub const FIXED_SCALE: u64 = 100_000_000;

/// One price level of an order book side.
#[derive(Clone, Copy, PartialEq, Eq, Structural, Debug)]
pub struct OrderBookLevel {
    /// Fixed-point price (scaled by `FIXED_SCALE`).
    pub price: u64,
    /// Fixed-point quantity (scaled by `FIXED_SCALE`); never 0 in a stored book.
    pub quantity: u64,
}

/// How the book last changed: installed whole from a snapshot, or mutated
/// by an incremental depth update.
#[derive(Clone, Copy, PartialEq, Eq, Structural, Debug, Default)]
pub enum OrderBookUpdateType {
    #[default]
    Snapshot,
    Delta,
}

/// A complete order book for one symbol.
#[derive(Debug)]
pub struct OrderBook {
    /// Lower-case symbol the book belongs to.
    pub symbol: String,
    /// Sequence cursor of the last accepted change; never decreases.
    pub last_update_id: u64,
    /// Buy levels, strictly descending by price.
    pub bids: Vec<OrderBookLevel>,
    /// Sell levels, strictly ascending by price.
    pub asks: Vec<OrderBookLevel>,
    /// Whether the current contents came from a snapshot or a delta.
    pub update_type: OrderBookUpdateType,
    /// When the book was last observed, in milliseconds since the epoch.
    pub timestamp: i64,
}

/// Prices strictly decrease along the side.
pub open spec fn side_sorted_desc(s: Seq<OrderBookLevel>) -> bool {
    forall|i: int, j: int| 0 <= i < j < s.len() ==> s[i].price > s[j].price
}

/// Prices strictly increase along the side.
pub open spec fn side_sorted_asc(s: Seq<OrderBookLevel>) -> bool {
    forall|i: int, j: int| 0 <= i < j < s.len() ==> s[i].price < s[j].price
}

/// No stored level has quantity 0: a 0 denotes removal.
pub open spec fn side_positive(s: Seq<OrderBookLevel>) -> bool {
    forall|i: int| 0 <= i < s.len() ==> s[i].quantity != 0
}

/// A well-formed side: strictly sorted in its direction (which also makes
/// prices unique) and free of empty levels.
pub open spec fn side_wf(s: Seq<OrderBookLevel>, descending: bool) -> bool {
    &&& if descending {
        side_sorted_desc(s)
    } else {
        side_sorted_asc(s)
    }
    &&& side_positive(s)
}

/// The quantity stored on a side at `price`, or 0 if the side holds no such
/// level. On a well-formed side prices are unique, so the match is unique.
pub open spec fn side_qty(s: Seq<OrderBookLevel>, price: u64) -> u64
    decreases s.len(),
{
    if s.len() == 0 {
        0
    } else if s.last().price == price {
        s.last().quantity
    } else {
        side_qty(s.drop_last(), price)
    }
}

/// A side with no level at `price` stores quantity 0 there.
pub proof fn lemma_side_qty_absent(s: Seq<OrderBookLevel>, price: u64)
    requires
        forall|i: int| 0 <= i < s.len() ==> #[trigger] s[i].price != price,
    ensures
        side_qty(s, price) == 0,
    decreases s.len(),
{
    if s.len() > 0 {
        lemma_side_qty_absent(s.drop_last(), price);
    }
}

/// A side storing a non-zero quantity at `price` holds a level there.
pub proof fn lemma_side_qty_nonzero_present(s: Seq<OrderBookLevel>, price: u64)
    requires
        side_qty(s, price) != 0,
    ensures
        exists|i: int| 0 <= i < s.len() && #[trigger] s[i].price == price,
    decreases s.len(),
{
    if s.len() > 0 {
        if s.last().price == price {
            assert(s[s.len() - 1].price == price);
        } else {
            lemma_side_qty_nonzero_present(s.drop_last(), price);
        }
    }
}

/// Appending a level sets its price's quantity and leaves every other
/// price as it was.
pub proof fn lemma_side_qty_push(s: Seq<OrderBookLevel>, l: OrderBookLevel)
    ensures
        forall|p: u64|
            #[trigger] side_qty(s.push(l), p) == (if p == l.price {
                l.quantity
            } else {
                side_qty(s, p)
            }),
{
    assert forall|p: u64|
        #[trigger] side_qty(s.push(l), p) == (if p == l.price {
            l.quantity
        } else {
            side_qty(s, p)
        }) by {
        assert(s.push(l).drop_last() =~= s);
        assert(s.push(l).last() == l);
    }
}

/// Extending a prefix by one element changes quantities only at that
/// element's price.
pub proof fn lemma_side_qty_take_step(s: Seq<OrderBookLevel>, i: int)
    requires
        0 <= i < s.len(),
    ensures
        forall|p: u64|
            #[trigger] side_qty(s.take(i + 1), p) == (if p == s[i].price {
                s[i].quantity
            } else {
                side_qty(s.take(i), p)
            }),
{
    assert(s.take(i + 1) =~= s.take(i).push(s[i]));
    lemma_side_qty_push(s.take(i), s[i]);
}

/// A well-formed book: bids strictly descending, asks strictly ascending,
/// no empty levels on either side.
pub open spec fn book_wf(b: OrderBook) -> bool {
    &&& side_wf(b.bids@, true)
    &&& side_wf(b.asks@, false)
}

/// The two books carry the same contents: equal symbol, cursor, sides,
/// kind and timestamp. This is equality of everything a reader can see.
pub open spec fn book_eq(a: OrderBook, b: OrderBook) -> bool {
    &&& a.symbol@ == b.symbol@
    &&& a.last_update_id == b.last_update_id
    &&& a.bids@ == b.bids@
    &&& a.asks@ == b.asks@
    &&& a.update_type == b.update_type
    &&& a.timestamp == b.timestamp
}

impl Clone for OrderBook {
    /// A deep copy with the same contents as the original, so a caller can
    /// read a snapshot of the book without holding a reference into the store.
    fn clone(&self) -> (res: Self)
        ensures
            book_eq(res, *self),
    {
        let res = OrderBook {
            symbol: self.symbol.clone(),
            last_update_id: self.last_update_id,
            bids: self.bids.clone(),
            asks: self.asks.clone(),
            update_type: self.update_type,
            timestamp: self.timestamp,
        };
        proof {
            assert(res.bids@ =~= self.bids@);
            assert(res.asks@ =~= self.asks@);
        }
        res
    }
}

/// An order-book change as published to consumers: always a full copy of
/// the current book, never a partial diff.
#[derive(Debug)]
pub struct OrderBookEvent {
    /// The complete book after the change.
    pub orderbook: OrderBook,
    /// Whether the change was a snapshot install or an accepted delta.
    pub event_type: OrderBookUpdateType,
}

impl Clone for OrderBookEvent {
    /// Fan-out hands each subscriber its own copy with the same
    /// contents.
    fn clone(&self) -> (res: Self)
        ensures
            book_eq(res.orderbook, self.orderbook),
            res.event_type == self.event_type,
    {
        OrderBookEvent { orderbook: self.orderbook.clone(), event_type: self.event_type }
    }
}

} // verus!
