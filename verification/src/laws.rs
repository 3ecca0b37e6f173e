//! Laws of the reconciliation algorithm, stated once over the same spec
//! functions the executable contracts use, and proved for every input.

use vstd::prelude::*;

use crate::book::{lemma_side_qty_absent, side_qty, side_wf, OrderBookLevel};
use crate::reconcile::{pairs_qty, price_before, step_id};

verus! {

/// The sequence cursor after a whole delivery sequence of final ids has
/// been seen, starting from `start`: each id beyond the cursor advances
/// it, every other id is rejected.
pub open spec fn id_after(start: u64, final_ids: Seq<u64>) -> u64
    decreases final_ids.len(),
{
    if final_ids.len() == 0 {
        start
    } else {
        step_id(id_after(start, final_ids.drop_last()), final_ids.last())
    }
}

/// One more update moves the cursor by one `step_id` step: the spec the
/// reconciler's contract states for a single `apply` call, so a chain
/// of `apply` calls walks `id_after` along the delivery sequence.
pub proof fn lemma_cursor_step(start: u64, final_ids: Seq<u64>, final_id: u64)
    ensures
        id_after(start, final_ids.push(final_id)) == step_id(
            id_after(start, final_ids),
            final_id,
        ),
{
    assert(final_ids.push(final_id).drop_last() =~= final_ids);
}

/// The cursor never falls below where it started, whatever arrives and
/// in whatever order.
pub proof fn lemma_cursor_monotonic(start: u64, final_ids: Seq<u64>)
    ensures
        id_after(start, final_ids) >= start,
    decreases final_ids.len(),
{
    if final_ids.len() > 0 {
        lemma_cursor_monotonic(start, final_ids.drop_last());
    }
}

/// The cursor never decreases across any sequence of updates: after
/// seeing more of the sequence it is at least what it was earlier,
/// including under out-of-order delivery.
pub proof fn lemma_cursor_never_decreases(start: u64, final_ids: Seq<u64>, i: int, j: int)
    requires
        0 <= i <= j <= final_ids.len(),
    ensures
        id_after(start, final_ids.take(i)) <= id_after(start, final_ids.take(j)),
    decreases j - i,
{
    if i < j {
        lemma_cursor_never_decreases(start, final_ids, i, j - 1);
        assert(final_ids.take(j).drop_last() =~= final_ids.take(j - 1));
    }
}

/// Replay safety: once an update with some final id has been seen, the
/// very same update is rejected, and rejecting it leaves the cursor
/// where it was. Together with the reconciler's contract — a rejected
/// update leaves the whole book untouched — applying the same delta
/// twice is a no-op the second time.
pub proof fn lemma_replay_rejected(id: u64, final_id: u64)
    ensures
        !(final_id > step_id(id, final_id)),
        step_id(step_id(id, final_id), final_id) == step_id(id, final_id),
{
}

/// The cursor equals the maximum final id ever accepted (or the start
/// value when nothing was accepted): every accepted update's final id is
/// bounded by the cursor, and the cursor is the start or the final id of
/// some accepted update. An update at position `k` is accepted exactly
/// when its final id is beyond the cursor that the first `k` updates
/// left behind.
pub proof fn lemma_cursor_is_max_accepted(start: u64, final_ids: Seq<u64>)
    ensures
        forall|k: int|
            0 <= k < final_ids.len() && #[trigger] final_ids[k] > id_after(
                start,
                final_ids.take(k),
            ) ==> final_ids[k] <= id_after(start, final_ids),
        id_after(start, final_ids) == start || exists|k: int|
            0 <= k < final_ids.len() && #[trigger] final_ids[k] == id_after(start, final_ids)
                && final_ids[k] > id_after(start, final_ids.take(k)),
    decreases final_ids.len(),
{
    if final_ids.len() > 0 {
        let t = final_ids.drop_last();
        let f = final_ids.last();
        let m = final_ids.len() - 1;
        lemma_cursor_is_max_accepted(start, t);
        assert(final_ids.take(m) =~= t);
        assert forall|k: int| 0 <= k < t.len() implies final_ids.take(k) =~= t.take(k) by {
            assert(final_ids.take(k) =~= t.take(k));
        }
        lemma_cursor_never_decreases(start, final_ids, 0, m);
        assert(final_ids.take(0) =~= Seq::<u64>::empty());
        assert(final_ids.take(final_ids.len() as int) =~= final_ids);
        if f > id_after(start, t) {
            assert(final_ids[m] == id_after(start, final_ids) && final_ids[m] > id_after(
                start,
                final_ids.take(m),
            ));
        } else {
            if id_after(start, t) != start {
                let k0 = choose|k: int|
                    0 <= k < t.len() && #[trigger] t[k] == id_after(start, t) && t[k] > id_after(
                        start,
                        t.take(k),
                    );
                assert(final_ids[k0] == id_after(start, final_ids) && final_ids[k0] > id_after(
                    start,
                    final_ids.take(k0),
                ));
            }
        }
    }
}

/// On a well-formed side the level at index `i` is what `side_qty`
/// reports for its price.
pub proof fn lemma_side_qty_at(s: Seq<OrderBookLevel>, descending: bool, i: int)
    requires
        side_wf(s, descending),
        0 <= i < s.len(),
    ensures
        side_qty(s, s[i].price) == s[i].quantity,
    decreases s.len(),
{
    if i == s.len() - 1 {
    } else {
        assert(side_wf(s.drop_last(), descending));
        lemma_side_qty_at(s.drop_last(), descending, i);
    }
}

/// Dropping the first level of a well-formed side zeroes its price and
/// leaves every other price as it was.
pub proof fn lemma_side_qty_drop_first(s: Seq<OrderBookLevel>, descending: bool)
    requires
        side_wf(s, descending),
        s.len() > 0,
    ensures
        forall|p: u64|
            #[trigger] side_qty(s.drop_first(), p) == (if p == s[0].price {
                0u64
            } else {
                side_qty(s, p)
            }),
    decreases s.len(),
{
    let rest = s.drop_first();
    assert forall|p: u64|
        #[trigger] side_qty(rest, p) == (if p == s[0].price {
            0u64
        } else {
            side_qty(s, p)
        }) by {
        if p == s[0].price {
            assert forall|j: int| 0 <= j < rest.len() implies #[trigger] rest[j].price != p by {
                assert(rest[j] == s[j + 1]);
            }
            lemma_side_qty_absent(rest, p);
        } else {
            if s.len() == 1 {
                assert(rest =~= Seq::<OrderBookLevel>::empty());
                assert(side_qty(rest, p) == 0);
                assert(s.drop_last() =~= Seq::<OrderBookLevel>::empty());
                assert(side_qty(s.drop_last(), p) == 0);
                assert(side_qty(s, p) == side_qty(s.drop_last(), p));
            } else {
                assert(rest.last() == s.last());
                if s.last().price != p {
                    assert(side_wf(s.drop_last(), descending));
                    lemma_side_qty_drop_first(s.drop_last(), descending);
                    assert(s.drop_last()[0] == s[0]);
                    assert(rest.drop_last() =~= s.drop_last().drop_first());
                    assert(side_qty(rest, p) == side_qty(rest.drop_last(), p));
                    assert(side_qty(rest.drop_last(), p) == side_qty(s.drop_last().drop_first(), p));
                    assert(side_qty(s.drop_last().drop_first(), p) == side_qty(s.drop_last(), p));
                    assert(side_qty(s, p) == side_qty(s.drop_last(), p));
                }
            }
        }
    }
}

/// A well-formed side is pinned by its quantities: two sides running in
/// the same direction that agree on the quantity at every price are the
/// same sequence. This is why the contracts over `side_qty` determine
/// each side exactly.
pub proof fn lemma_side_canonical(a: Seq<OrderBookLevel>, b: Seq<OrderBookLevel>, descending: bool)
    requires
        side_wf(a, descending),
        side_wf(b, descending),
        forall|p: u64| #[trigger] side_qty(a, p) == side_qty(b, p),
    ensures
        a =~= b,
    decreases a.len(),
{
    if a.len() == 0 {
        if b.len() > 0 {
            lemma_side_qty_at(b, descending, 0);
            lemma_side_qty_absent(a, b[0].price);
        }
    } else if b.len() == 0 {
        lemma_side_qty_at(a, descending, 0);
        lemma_side_qty_absent(b, a[0].price);
    } else {
        lemma_side_qty_at(a, descending, 0);
        lemma_side_qty_at(b, descending, 0);
        if price_before(descending, a[0].price, b[0].price) {
            assert(forall|j: int| 0 <= j < b.len() ==> #[trigger] b[j].price != a[0].price);
            lemma_side_qty_absent(b, a[0].price);
            assert(false);
        }
        if price_before(descending, b[0].price, a[0].price) {
            assert(forall|j: int| 0 <= j < a.len() ==> #[trigger] a[j].price != b[0].price);
            lemma_side_qty_absent(a, b[0].price);
            assert(false);
        }
        assert(a[0].price == b[0].price);
        assert(a[0].quantity == b[0].quantity);
        lemma_side_qty_drop_first(a, descending);
        lemma_side_qty_drop_first(b, descending);
        assert(side_wf(a.drop_first(), descending));
        assert(side_wf(b.drop_first(), descending));
        lemma_side_canonical(a.drop_first(), b.drop_first(), descending);
        assert forall|i: int| 0 <= i < a.len() implies a[i] == b[i] by {
            if i > 0 {
                assert(a.drop_first()[i - 1] == b.drop_first()[i - 1]);
            }
        }
    }
}

/// A zero-quantity update at a price removes that level if present, and
/// is a no-op if absent: `after` is any well-formed side whose
/// quantities are those of `side` after the single pair `(price, 0)`,
/// as the reconciler's contract states them. The price is gone, every
/// other price is untouched, and if the side held no such level the
/// side is exactly what it was.
pub proof fn lemma_zero_quantity_removes(
    side: Seq<OrderBookLevel>,
    after: Seq<OrderBookLevel>,
    price: u64,
    descending: bool,
)
    requires
        side_wf(side, descending),
        side_wf(after, descending),
        forall|p: u64| #[trigger] side_qty(after, p) == pairs_qty(side, seq![(price, 0u64)], p),
    ensures
        side_qty(after, price) == 0,
        forall|p: u64| p != price ==> #[trigger] side_qty(after, p) == side_qty(side, p),
        side_qty(side, price) == 0 ==> after =~= side,
{
    let pair = seq![(price, 0u64)];
    assert(pair.last() == (price, 0u64));
    assert(pair.drop_last() =~= Seq::<(u64, u64)>::empty());
    assert forall|p: u64| p != price implies #[trigger] side_qty(after, p) == side_qty(
        side,
        p,
    ) by {
        assert(pairs_qty(side, Seq::<(u64, u64)>::empty(), p) == side_qty(side, p));
        assert(pairs_qty(side, pair, p) == pairs_qty(side, pair.drop_last(), p));
    }
    if side_qty(side, price) == 0 {
        assert forall|p: u64| #[trigger] side_qty(after, p) == side_qty(side, p) by {
            if p == price {
                assert(pairs_qty(side, pair, p) == 0);
            } else {
                assert(pairs_qty(side, Seq::<(u64, u64)>::empty(), p) == side_qty(side, p));
                assert(pairs_qty(side, pair, p) == pairs_qty(side, pair.drop_last(), p));
            }
        }
        lemma_side_canonical(after, side, descending);
    }
}

} // verus!
