//! The client core: the subscription registry, the order-book store and
//! the stream-session state machine as one synchronous, fully verified
//! object.
//!
//! The surrounding process owns the sockets and the fan-out channels,
//! wraps this core in its lock, and feeds every observation back in: a
//! caller's subscribe request, a fetched snapshot body, each frame the
//! session receives. Every decision — validation, normalization,
//! deduplication, sequence checking, merging, what to send and what to
//! publish — is made here under contract.

use vstd::prelude::*;

use crate::book::{book_eq, book_wf, side_qty, OrderBook, OrderBookEvent, OrderBookUpdateType};
use crate::clock::now_millis;
use crate::errors::BinanceError;
use crate::reconcile::{apply, lemma_view_pairs, pairs_qty, view_pairs};
use crate::wire::{
    frame_decode, has_depth_marker, lower_of, lowercase, parse_depth_update, subscribe_frame,
    subscribe_frame_spec,
};

verus! {

/// The life of the single stream session.
#[derive(Clone, Copy, PartialEq, Eq, Structural, Debug)]
pub enum ConnPhase {
    /// No session yet.
    Disconnected,
    /// The session is being established.
    Connecting,
    /// The session is live and the loop is running.
    Open,
    /// The session ended on an unrecoverable error or a peer close;
    /// there is no automatic reconnect.
    Terminated,
}

/// One observation the session loop can make while the session is open.
pub enum WsEvent {
    /// The registry handed over a symbol to subscribe on the wire.
    NewSymbol(String),
    /// A text frame arrived from the network.
    Text(String),
    /// A ping frame arrived with this payload.
    Ping(Vec<u8>),
    /// The peer closed the session.
    ConnectionClosed,
    /// The transport failed with this message.
    TransportError(String),
}

/// What the session loop is told to do in response.
pub enum WsAction {
    /// Nothing to do for this event.
    DoNothing,
    /// Send this text frame.
    SendText(String),
    /// Answer a ping with a pong of the identical payload.
    SendPong(Vec<u8>),
    /// Hand this event to the symbol's fan-out channel.
    Publish(OrderBookEvent),
    /// The session is over; leave the loop.
    Shutdown,
}

/// No two store entries share a key.
pub open spec fn keys_unique(books: Seq<(String, OrderBook)>) -> bool {
    forall|i: int, j: int| 0 <= i < j < books.len() ==> books[i].0@ != books[j].0@
}

/// A well-formed store: unique keys, every book well-formed and keyed
/// by its own symbol.
pub open spec fn books_wf(books: Seq<(String, OrderBook)>) -> bool {
    &&& keys_unique(books)
    &&& forall|i: int| 0 <= i < books.len() ==> book_wf(#[trigger] books[i].1)
    &&& forall|i: int| 0 <= i < books.len() ==> (#[trigger] books[i].0)@ == books[i].1.symbol@
}

/// The store holds a book under this key.
pub open spec fn has_key(books: Seq<(String, OrderBook)>, sym: Seq<char>) -> bool {
    exists|i: int| 0 <= i < books.len() && (#[trigger] books[i].0)@ == sym
}

/// The index of the entry under this key (unique on a well-formed
/// store).
pub open spec fn key_index(books: Seq<(String, OrderBook)>, sym: Seq<char>) -> int {
    choose|i: int| 0 <= i < books.len() && (#[trigger] books[i].0)@ == sym
}

/// The book stored under this key.
pub open spec fn book_at(books: Seq<(String, OrderBook)>, sym: Seq<char>) -> OrderBook {
    books[key_index(books, sym)].1
}

/// The list holds this name.
pub open spec fn name_in(names: Seq<String>, sym: Seq<char>) -> bool {
    exists|i: int| 0 <= i < names.len() && (#[trigger] names[i])@ == sym
}

/// No name stands in the list twice.
pub open spec fn names_unique(names: Seq<String>) -> bool {
    forall|i: int, j: int| 0 <= i < j < names.len() ==> names[i]@ != names[j]@
}

/// The store key a frame's update addresses: the lowercased decoded
/// symbol (empty where the frame does not decode).
pub open spec fn decoded_key(text: Seq<char>) -> Seq<char> {
    match frame_decode(text) {
        Some(u) => lower_of(u.symbol),
        None => Seq::empty(),
    }
}

/// The condition under which a text frame changes the store: it
/// carries the depth-update marker, its text decodes as a depth
/// update, the store holds a book under the update's lowercased
/// symbol, and the update's final cursor is beyond that book's.
pub open spec fn text_accepts(books: Seq<(String, OrderBook)>, text: Seq<char>) -> bool {
    &&& has_depth_marker(text)
    &&& frame_decode(text) matches Some(u) && {
        &&& has_key(books, lower_of(u.symbol))
        &&& u.final_update_id > book_at(books, lower_of(u.symbol)).last_update_id
    }
}

/// What an accepted frame does to the store: exactly the book under
/// the update's key is replaced by the reconciled book — the cursor
/// moved to the update's final id, both sides merged pair by pair,
/// marked as a delta — and every book under any other key is exactly
/// what it was.
pub open spec fn delta_applied(
    old_books: Seq<(String, OrderBook)>,
    new_books: Seq<(String, OrderBook)>,
    text: Seq<char>,
) -> bool {
    frame_decode(text) matches Some(u) && {
        let key = lower_of(u.symbol);
        &&& has_key(new_books, key)
        &&& book_wf(book_at(new_books, key))
        &&& book_at(new_books, key).symbol@ == key
        &&& book_at(new_books, key).last_update_id == u.final_update_id
        &&& book_at(new_books, key).update_type == OrderBookUpdateType::Delta
        &&& (forall|p: u64|
            #[trigger] side_qty(book_at(new_books, key).bids@, p) == pairs_qty(
                book_at(old_books, key).bids@,
                view_pairs(u.bids),
                p,
            ))
        &&& (forall|p: u64|
            #[trigger] side_qty(book_at(new_books, key).asks@, p) == pairs_qty(
                book_at(old_books, key).asks@,
                view_pairs(u.asks),
                p,
            ))
        &&& (forall|t: Seq<char>|
            t != key && has_key(old_books, t) ==> book_at(new_books, t) == book_at(old_books, t))
    }
}

/// On a store with unique keys, the entry at a matching index is the
/// entry `key_index` and `book_at` speak of.
pub proof fn lemma_key_index_of(books: Seq<(String, OrderBook)>, sym: Seq<char>, i: int)
    requires
        keys_unique(books),
        0 <= i < books.len(),
        books[i].0@ == sym,
    ensures
        key_index(books, sym) == i,
        book_at(books, sym) == books[i].1,
        has_key(books, sym),
{
    assert(has_key(books, sym));
    let j = key_index(books, sym);
    assert(0 <= j < books.len() && books[j].0@ == sym);
    if i != j {
        assert(false);
    }
}

/// Two stores whose keys agree index by index hold the same keys.
proof fn lemma_same_keys(a: Seq<(String, OrderBook)>, b: Seq<(String, OrderBook)>)
    requires
        a.len() == b.len(),
        forall|i: int| 0 <= i < a.len() ==> (#[trigger] a[i].0)@ == b[i].0@,
    ensures
        forall|t: Seq<char>| has_key(a, t) <==> has_key(b, t),
{
    assert forall|t: Seq<char>| has_key(a, t) <==> has_key(b, t) by {
        if has_key(a, t) {
            let i = choose|i: int| 0 <= i < a.len() && (#[trigger] a[i].0)@ == t;
            assert(b[i].0@ == t);
        }
        if has_key(b, t) {
            let i = choose|i: int| 0 <= i < b.len() && (#[trigger] b[i].0)@ == t;
            assert(a[i].0@ == t);
        }
    }
}

/// The synchronous heart of the client: the order-book store, the
/// per-symbol channel registry, the set of symbols already subscribed
/// on the wire, and the session phase.
pub struct ClientCore {
    books: Vec<(String, OrderBook)>,
    channels: Vec<String>,
    sent: Vec<String>,
    phase: ConnPhase,
}

impl ClientCore {
    /// The store's contents.
    pub closed spec fn books_seq(&self) -> Seq<(String, OrderBook)> {
        self.books@
    }

    /// The symbols that own a fan-out channel.
    pub closed spec fn channels_seq(&self) -> Seq<String> {
        self.channels@
    }

    /// The symbols already subscribed at the wire.
    pub closed spec fn sent_seq(&self) -> Seq<String> {
        self.sent@
    }

    /// The session phase.
    pub closed spec fn phase(&self) -> ConnPhase {
        self.phase
    }

    /// The core's invariant: a well-formed store and duplicate-free
    /// registries.
    pub open spec fn wf(&self) -> bool {
        &&& books_wf(self.books_seq())
        &&& names_unique(self.channels_seq())
        &&& names_unique(self.sent_seq())
    }

    /// A fresh core: empty store, no channels, nothing subscribed, no
    /// session yet.
    pub fn new() -> (c: ClientCore)
        ensures
            c.wf(),
            c.books_seq().len() == 0,
            c.channels_seq().len() == 0,
            c.sent_seq().len() == 0,
            c.phase() == ConnPhase::Disconnected,
    {
        ClientCore {
            books: Vec::new(),
            channels: Vec::new(),
            sent: Vec::new(),
            phase: ConnPhase::Disconnected,
        }
    }

    /// Read the session phase.
    pub fn current_phase(&self) -> (p: ConnPhase)
        ensures
            p == self.phase(),
    {
        self.phase
    }

    /// The session is being established.
    pub fn begin_connect(&mut self)
        requires
            old(self).phase() == ConnPhase::Disconnected,
        ensures
            final(self).phase() == ConnPhase::Connecting,
            final(self).books_seq() == old(self).books_seq(),
            final(self).channels_seq() == old(self).channels_seq(),
            final(self).sent_seq() == old(self).sent_seq(),
            final(self).wf() == old(self).wf(),
    {
        self.phase = ConnPhase::Connecting;
    }

    /// The session is live.
    pub fn connection_opened(&mut self)
        requires
            old(self).phase() == ConnPhase::Connecting,
        ensures
            final(self).phase() == ConnPhase::Open,
            final(self).books_seq() == old(self).books_seq(),
            final(self).channels_seq() == old(self).channels_seq(),
            final(self).sent_seq() == old(self).sent_seq(),
            final(self).wf() == old(self).wf(),
    {
        self.phase = ConnPhase::Open;
    }

    /// Establishing the session failed; the session is over for good.
    pub fn connection_failed(&mut self)
        requires
            old(self).phase() == ConnPhase::Connecting,
        ensures
            final(self).phase() == ConnPhase::Terminated,
            final(self).books_seq() == old(self).books_seq(),
            final(self).channels_seq() == old(self).channels_seq(),
            final(self).sent_seq() == old(self).sent_seq(),
            final(self).wf() == old(self).wf(),
    {
        self.phase = ConnPhase::Terminated;
    }

    /// Validate and normalize a subscribe request, and make sure the
    /// symbol owns a fan-out channel: an empty symbol is rejected
    /// before any network work; any other symbol is lowercased and
    /// registered. The caller then fetches the snapshot and hands it
    /// to [`Self::install_snapshot`].
    pub fn prepare_subscribe(&mut self, symbol: &str) -> (r: Result<String, BinanceError>)
        requires
            old(self).wf(),
        ensures
            final(self).wf(),
            r is Err <==> symbol@.len() == 0,
            r matches Err(e) ==> {
                &&& e matches BinanceError::InvalidSymbol(s) && s@ == symbol@
                &&& *final(self) == *old(self)
            },
            r matches Ok(lower) ==> {
                &&& lower@ == lower_of(symbol@)
                &&& final(self).books_seq() == old(self).books_seq()
                &&& final(self).sent_seq() == old(self).sent_seq()
                &&& final(self).phase() == old(self).phase()
                &&& name_in(final(self).channels_seq(), lower_of(symbol@))
                &&& forall|t: Seq<char>|
                    name_in(final(self).channels_seq(), t) <==> (name_in(
                        old(self).channels_seq(),
                        t,
                    ) || t == lower_of(symbol@))
            },
    {
        if symbol.is_empty() {
            return Err(BinanceError::InvalidSymbol(symbol.to_owned()));
        }
        let lower = lowercase(symbol);
        if !name_present(&self.channels, &lower) {
            let ghost names0 = self.channels@;
            self.channels.push(lower.clone());
            proof {
                assert forall|t: Seq<char>|
                    name_in(self.channels@, t) <==> (name_in(names0, t) || t
                        == lower_of(symbol@)) by {
                    if name_in(self.channels@, t) {
                        let i = choose|i: int|
                            0 <= i < self.channels@.len() && (#[trigger] self.channels@[i])@ == t;
                        if i < names0.len() {
                            assert(names0[i]@ == t);
                        }
                    }
                    if name_in(names0, t) {
                        let i = choose|i: int|
                            0 <= i < names0.len() && (#[trigger] names0[i])@ == t;
                        assert(self.channels@[i]@ == t);
                    }
                    if t == lower_of(symbol@) {
                        assert(self.channels@[names0.len() as int]@ == t);
                    }
                }
            }
        }
        Ok(lower)
    }

    /// Store a snapshot book under its symbol, replacing any earlier
    /// book wholesale, and hand back the snapshot event to publish.
    pub fn install_snapshot(&mut self, book: OrderBook) -> (ev: OrderBookEvent)
        requires
            old(self).wf(),
            book_wf(book),
        ensures
            final(self).wf(),
            final(self).channels_seq() == old(self).channels_seq(),
            final(self).sent_seq() == old(self).sent_seq(),
            final(self).phase() == old(self).phase(),
            forall|t: Seq<char>|
                has_key(final(self).books_seq(), t) <==> (has_key(old(self).books_seq(), t) || t
                    == book.symbol@),
            book_eq(book_at(final(self).books_seq(), book.symbol@), book),
            forall|t: Seq<char>|
                t != book.symbol@ && has_key(old(self).books_seq(), t) ==> book_at(
                    final(self).books_seq(),
                    t,
                ) == book_at(old(self).books_seq(), t),
            ev.event_type == OrderBookUpdateType::Snapshot,
            book_eq(ev.orderbook, book),
    {
        let ev_book = book.clone();
        let key = book.symbol.clone();
        let ghost books0 = self.books@;
        let found = find_key_index(&self.books, &key);
        match found {
            Some(i) => {
                self.books.set(i, (key, book));
                proof {
                    assert(self.books@ =~= books0.update(i as int, self.books@[i as int]));
                    lemma_same_keys(self.books@, books0);
                    lemma_key_index_of(self.books@, book.symbol@, i as int);
                    assert forall|t: Seq<char>|
                        t != book.symbol@ && has_key(books0, t) implies book_at(self.books@, t)
                        == book_at(books0, t) by {
                        let j = key_index(books0, t);
                        assert(books0[j].0@ == t);
                        assert(j != i);
                        lemma_key_index_of(self.books@, t, j);
                    }
                }
            },
            None => {
                self.books.push((key, book));
                proof {
                    lemma_key_index_of(self.books@, book.symbol@, books0.len() as int);
                    assert forall|t: Seq<char>|
                        has_key(self.books@, t) <==> (has_key(books0, t) || t
                            == book.symbol@) by {
                        if has_key(self.books@, t) {
                            let i = choose|i: int|
                                0 <= i < self.books@.len() && (#[trigger] self.books@[i].0)@ == t;
                            if i < books0.len() {
                                assert(books0[i].0@ == t);
                            }
                        }
                        if has_key(books0, t) {
                            let i = choose|i: int|
                                0 <= i < books0.len() && (#[trigger] books0[i].0)@ == t;
                            assert(self.books@[i].0@ == t);
                        }
                    }
                    assert forall|t: Seq<char>|
                        t != book.symbol@ && has_key(books0, t) implies book_at(self.books@, t)
                        == book_at(books0, t) by {
                        let j = key_index(books0, t);
                        assert(books0[j].0@ == t);
                        lemma_key_index_of(self.books@, t, j);
                    }
                }
            },
        }
        OrderBookEvent { orderbook: ev_book, event_type: OrderBookUpdateType::Snapshot }
    }

    /// A point read of the current book for a symbol, as an owned
    /// copy: the caller never holds a reference into the store.
    pub fn get_orderbook(&self, symbol: &str) -> (r: Option<OrderBook>)
        requires
            self.wf(),
        ensures
            r is Some <==> has_key(self.books_seq(), symbol@),
            r matches Some(b) ==> {
                &&& book_eq(b, book_at(self.books_seq(), symbol@))
                &&& book_wf(b)
            },
    {
        let key = symbol.to_owned();
        match find_key_index(&self.books, &key) {
            Some(i) => {
                proof {
                    lemma_key_index_of(self.books@, symbol@, i as int);
                }
                let b = self.books[i].1.clone();
                proof {
                    assert(book_wf(b)) by {
                        assert(book_wf(self.books@[i as int].1));
                    }
                }
                Some(b)
            },
            None => None,
        }
    }

    /// Whether a stream can be handed out for this symbol: a receiver
    /// exists exactly for the symbols whose channel was allocated by a
    /// subscribe call.
    pub fn stream_check(&self, symbol: &str) -> (r: Result<(), BinanceError>)
        ensures
            r is Ok <==> name_in(self.channels_seq(), symbol@),
            r matches Err(e) ==> e matches BinanceError::NoOrderBookStream(s) && s@ == symbol@,
    {
        let key = symbol.to_owned();
        if name_present(&self.channels, &key) {
            Ok(())
        } else {
            Err(BinanceError::NoOrderBookStream(key))
        }
    }

    /// A symbol reached the session loop: build and return the
    /// subscribe control frame, unless the symbol — case-normalized to
    /// lower case — was already subscribed on the wire, which makes
    /// the repeat a no-op.
    pub fn on_new_symbol(&mut self, symbol: String) -> (r: Option<String>)
        requires
            old(self).wf(),
        ensures
            final(self).wf(),
            final(self).books_seq() == old(self).books_seq(),
            final(self).channels_seq() == old(self).channels_seq(),
            final(self).phase() == old(self).phase(),
            r is None <==> name_in(old(self).sent_seq(), lower_of(symbol@)),
            r is None ==> final(self).sent_seq() == old(self).sent_seq(),
            r matches Some(frame) ==> {
                &&& frame@ == subscribe_frame_spec(lower_of(symbol@), 1)
                &&& forall|t: Seq<char>|
                    name_in(final(self).sent_seq(), t) <==> (name_in(old(self).sent_seq(), t) || t
                        == lower_of(symbol@))
            },
    {
        let lower = lowercase(symbol.as_str());
        if name_present(&self.sent, &lower) {
            return None;
        }
        let frame = subscribe_frame(lower.as_str(), 1);
        let ghost names0 = self.sent@;
        let ghost sym = lower@;
        self.sent.push(lower);
        proof {
            assert forall|t: Seq<char>|
                name_in(self.sent@, t) <==> (name_in(names0, t) || t == sym) by {
                if name_in(self.sent@, t) {
                    let i = choose|i: int|
                        0 <= i < self.sent@.len() && (#[trigger] self.sent@[i])@ == t;
                    if i < names0.len() {
                        assert(names0[i]@ == t);
                    }
                }
                if name_in(names0, t) {
                    let i = choose|i: int| 0 <= i < names0.len() && (#[trigger] names0[i])@ == t;
                    assert(self.sent@[i]@ == t);
                }
                if t == sym {
                    assert(self.sent@[names0.len() as int]@ == t);
                }
            }
        }
        Some(frame)
    }

    /// A text frame arrived: drop anything that is not a well-formed
    /// depth update for a symbol the store knows; otherwise run the
    /// reconciler on that symbol's book. An event comes out exactly
    /// when the frame decodes and its update is accepted; it then
    /// carries a full copy of the freshly stored book, and no book
    /// under any other key has moved. A dropped or rejected frame
    /// leaves the store exactly as it was. The set of stored symbols
    /// never changes here and no book's cursor ever goes backwards.
    pub fn on_text_frame(&mut self, text: &str) -> (r: Option<OrderBookEvent>)
        requires
            old(self).wf(),
        ensures
            final(self).wf(),
            final(self).channels_seq() == old(self).channels_seq(),
            final(self).sent_seq() == old(self).sent_seq(),
            final(self).phase() == old(self).phase(),
            forall|t: Seq<char>|
                has_key(final(self).books_seq(), t) <==> has_key(old(self).books_seq(), t),
            forall|t: Seq<char>|
                has_key(old(self).books_seq(), t) ==> {
                    &&& book_at(final(self).books_seq(), t).last_update_id >= book_at(
                        old(self).books_seq(),
                        t,
                    ).last_update_id
                    &&& book_at(final(self).books_seq(), t).symbol@ == book_at(
                        old(self).books_seq(),
                        t,
                    ).symbol@
                },
            r is Some <==> text_accepts(old(self).books_seq(), text@),
            r is None ==> final(self).books_seq() == old(self).books_seq(),
            r matches Some(ev) ==> {
                &&& delta_applied(old(self).books_seq(), final(self).books_seq(), text@)
                &&& ev.event_type == OrderBookUpdateType::Delta
                &&& ev.orderbook.symbol@ == decoded_key(text@)
                &&& book_wf(ev.orderbook)
                &&& book_eq(ev.orderbook, book_at(final(self).books_seq(), decoded_key(text@)))
            },
    {
        let update = match parse_depth_update(text) {
            Some(u) => u,
            None => {
                // Not a decodable depth-update frame: dropped whole.
                return None;
            },
        };
        proof {
            assert(frame_decode(text@) == Some(update@));
        }
        let lower = lowercase(update.symbol.as_str());
        proof {
            assert(update@.symbol == update.symbol@);
            assert(lower@ == decoded_key(text@));
        }
        let idx = match find_key_index(&self.books, &lower) {
            Some(i) => i,
            None => {
                // No book for this symbol yet: nothing to reconcile.
                return None;
            },
        };
        let ghost books0 = self.books@;
        let entry = self.books.remove(idx);
        let key = entry.0;
        let mut book = entry.1;
        let now = now_millis();
        let applied = apply(&mut book, &update, now);
        let ev_book = book.clone();
        proof {
            assert(books0.remove(idx as int).insert(idx as int, (key, book)) =~= books0.update(
                idx as int,
                (key, book),
            ));
        }
        self.books.insert(idx, (key, book));
        proof {
            assert(self.books@ =~= books0.update(idx as int, (key, book)));
            lemma_same_keys(self.books@, books0);
            lemma_key_index_of(self.books@, key@, idx as int);
            lemma_key_index_of(books0, key@, idx as int);
            assert forall|t: Seq<char>|
                t != key@ && has_key(books0, t) implies book_at(self.books@, t) == book_at(
                books0,
                t,
            ) by {
                let j = key_index(books0, t);
                assert(books0[j].0@ == t);
                assert(j != idx);
                lemma_key_index_of(self.books@, t, j);
            }
        }
        if !applied {
            proof {
                assert(self.books@ =~= books0);
                assert(!text_accepts(books0, text@));
            }
            return None;
        }
        proof {
            lemma_view_pairs(update.bids@);
            lemma_view_pairs(update.asks@);
            assert(book_wf(ev_book)) by {
                assert(book_wf(book));
            }
            assert(delta_applied(books0, self.books@, text@));
        }
        Some(OrderBookEvent { orderbook: ev_book, event_type: OrderBookUpdateType::Delta })
    }

    /// One step of the open session's cooperative loop: route an
    /// observation to the piece that handles it, and say what to do.
    /// A new symbol becomes a subscribe frame unless its lowercase
    /// form was already sent; a text frame runs through the
    /// reconciler, and an event is published exactly when the frame's
    /// update was accepted and its symbol owns a channel; a ping is
    /// answered with a pong of the identical payload; a close or a
    /// transport error terminates the session for good.
    pub fn on_ws_event(&mut self, event: WsEvent) -> (action: WsAction)
        requires
            old(self).wf(),
            old(self).phase() == ConnPhase::Open,
        ensures
            final(self).wf(),
            final(self).channels_seq() == old(self).channels_seq(),
            event matches WsEvent::Ping(p) ==> action == WsAction::SendPong(p) && *final(self)
                == *old(self),
            event is ConnectionClosed || event is TransportError ==> {
                &&& action is Shutdown
                &&& final(self).phase() == ConnPhase::Terminated
                &&& final(self).books_seq() == old(self).books_seq()
                &&& final(self).sent_seq() == old(self).sent_seq()
            },
            event matches WsEvent::NewSymbol(s) ==> {
                &&& final(self).phase() == ConnPhase::Open
                &&& final(self).books_seq() == old(self).books_seq()
                &&& (action is DoNothing <==> name_in(old(self).sent_seq(), lower_of(s@)))
                &&& (action is DoNothing ==> final(self).sent_seq() == old(self).sent_seq())
                &&& (action matches WsAction::SendText(frame) ==> {
                    &&& frame@ == subscribe_frame_spec(lower_of(s@), 1)
                    &&& forall|t: Seq<char>|
                        name_in(final(self).sent_seq(), t) <==> (name_in(old(self).sent_seq(), t)
                            || t == lower_of(s@))
                })
                &&& (action is DoNothing || action is SendText)
            },
            event matches WsEvent::Text(text) ==> {
                &&& final(self).phase() == ConnPhase::Open
                &&& final(self).sent_seq() == old(self).sent_seq()
                &&& forall|t: Seq<char>|
                    has_key(final(self).books_seq(), t) <==> has_key(old(self).books_seq(), t)
                &&& forall|t: Seq<char>|
                    has_key(old(self).books_seq(), t) ==> book_at(
                        final(self).books_seq(),
                        t,
                    ).last_update_id >= book_at(old(self).books_seq(), t).last_update_id
                &&& (!text_accepts(old(self).books_seq(), text@) ==> action is DoNothing
                    && final(self).books_seq() == old(self).books_seq())
                &&& (text_accepts(old(self).books_seq(), text@) ==> delta_applied(
                    old(self).books_seq(),
                    final(self).books_seq(),
                    text@,
                ))
                &&& (action is Publish <==> (text_accepts(old(self).books_seq(), text@)
                    && name_in(old(self).channels_seq(), decoded_key(text@))))
                &&& (action matches WsAction::Publish(ev) ==> {
                    &&& ev.event_type == OrderBookUpdateType::Delta
                    &&& ev.orderbook.symbol@ == decoded_key(text@)
                    &&& book_wf(ev.orderbook)
                    &&& book_eq(
                        ev.orderbook,
                        book_at(final(self).books_seq(), decoded_key(text@)),
                    )
                })
                &&& (action is DoNothing || action is Publish)
            },
    {
        match event {
            WsEvent::NewSymbol(symbol) => match self.on_new_symbol(symbol) {
                Some(frame) => WsAction::SendText(frame),
                None => WsAction::DoNothing,
            },
            WsEvent::Text(text) => match self.on_text_frame(text.as_str()) {
                Some(ev) => {
                    if name_present(&self.channels, &ev.orderbook.symbol) {
                        WsAction::Publish(ev)
                    } else {
                        // The exchange sent an update for a symbol whose
                        // channel was never allocated; there is nobody to
                        // tell.
                        WsAction::DoNothing
                    }
                },
                None => WsAction::DoNothing,
            },
            WsEvent::Ping(payload) => WsAction::SendPong(payload),
            WsEvent::ConnectionClosed => {
                self.phase = ConnPhase::Terminated;
                WsAction::Shutdown
            },
            WsEvent::TransportError(_) => {
                self.phase = ConnPhase::Terminated;
                WsAction::Shutdown
            },
        }
    }
}

/// Linear scan for a key in the store.
fn find_key_index(books: &Vec<(String, OrderBook)>, symbol: &String) -> (r: Option<usize>)
    ensures
        r matches Some(i) ==> 0 <= i < books@.len() && books@[i as int].0@ == symbol@,
        r is None ==> !has_key(books@, symbol@),
{
    let mut i: usize = 0;
    while i < books.len()
        invariant
            0 <= i <= books@.len(),
            forall|j: int| 0 <= j < i ==> (#[trigger] books@[j].0)@ != symbol@,
        decreases books@.len() - i,
    {
        if books[i].0 == *symbol {
            return Some(i);
        }
        i = i + 1;
    }
    None
}

/// Linear scan for a name in a registry list.
fn name_present(names: &Vec<String>, symbol: &String) -> (r: bool)
    ensures
        r == name_in(names@, symbol@),
{
    let mut i: usize = 0;
    while i < names.len()
        invariant
            0 <= i <= names@.len(),
            forall|j: int| 0 <= j < i ==> (#[trigger] names@[j])@ != symbol@,
        decreases names@.len() - i,
    {
        if names[i] == *symbol {
            return true;
        }
        i = i + 1;
    }
    false
}

} // verus!
