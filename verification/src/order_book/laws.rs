use vstd::prelude::*;
use crate::order_book::model::{
    HalfState, qty_sum, within, execution, outcome, with_next, with_prev, with_initial, place, total_of,
};
use crate::order_book::proofs::{
    lemma_resting_slot_free, lemma_rest_wf, lemma_place, lemma_unlink_pool, lemma_live_position,
    lemma_take_level_conserve, lemma_take_side_props, lemma_fok_fills, lemma_take_side_total,
    lemma_total_of_insert, lemma_qty_sum_remove, lemma_qty_sum_nonneg,
};
use crate::order_book::types::{EngineNewOrder, MatchOutcome, OrderBookError, OrderNode, OrderType, PriceLevel};

verus! {

/// The total quantity a price level reports (and `depth` shows) is the sum
/// of the current quantities of the orders queued at that price.
pub proof fn law_level_total_is_queue_sum(st: HalfState, p: u32)
    requires
        st.wf(),
        st.levels.contains_key(p),
    ensures
        st.levels[p].total_quantity == qty_sum(st.lists[p], st.pool),
{
    assert(st.lists.contains_key(p));
    assert(st.level_wf(p));
}

/// Resting an order and then cancelling it gives every queue and every
/// queued order back as they were. A level the order opened stays, empty;
/// the order's id stays registered and its slot is free again.
pub proof fn law_cancel_undoes_rest(st: HalfState, order: OrderNode, is_bid: bool)
    requires
        st.wf(),
        st.fits(order),
        order.current_quantity > 0,
        order.next is None,
    ensures
        ({
            let s2 = st.rest(order);
            let s3 = s2.cancelled(order.order_id, is_bid);
            let p = order.market_limit;
            &&& s2.cancel_result(order.order_id, is_bid) is Ok
            &&& s3.lists == if st.appends_at(p) {
                st.lists
            } else {
                st.lists.insert(p, Seq::empty())
            }
            &&& s3.levels == if st.appends_at(p) {
                st.levels
            } else {
                st.levels.insert(p, PriceLevel { head: None, tail: None, order_count: 0, total_quantity: 0 })
            }
            &&& forall|y: usize| #[trigger] st.live(y) ==> s3.pool[y as int] == st.pool[y as int]
            &&& !s3.live(st.resting_slot())
            &&& s3.registry == st.registry.insert(order.order_id, st.resting_slot())
        }),
{
    let s2 = st.rest(order);
    let p = order.market_limit;
    let x = st.resting_slot();
    let recycled = st.free.len() > 0;
    let app = st.appends_at(p);
    lemma_resting_slot_free(st);
    lemma_rest_wf(st, order);
    let node = if app { with_prev(order, st.levels[p].tail) } else { order };
    lemma_place(st.pool, recycled, x, node);
    let l = st.lists[p];
    if app {
        assert(st.level_wf(p));
        assert(st.slot_ok(p, l.len() - 1));
    }
    assert(s2.registry[order.order_id] == x);
    assert(s2.live(x));
    assert(s2.node(x) == node);
    let l2 = s2.lists[p];
    assert(l2.last() == x);
    lemma_live_position(s2, x);
    let j = l2.index_of(x);
    assert(j == l2.len() - 1) by {
        if j != l2.len() - 1 {
            assert(l2[l2.len() - 1] == x);
        }
    }
    lemma_unlink_pool(s2, x);
    let s3 = s2.unlink(x);
    assert(s3 == s2.cancelled(order.order_id, is_bid));
    if app {
        assert(l2.remove(j) =~= l);
        let t = l.last();
        assert(st.node(t).next == None::<usize>);
        assert(with_next(with_next(st.node(t), Some(x)), None) == st.node(t));
        assert(s3.levels[p] == st.levels[p]);
        assert(s3.levels =~= st.levels);
        assert(s3.lists =~= st.lists);
        assert forall|y: usize| #[trigger] st.live(y) implies s3.pool[y as int] == st.pool[y as int] by {
            if y != t {
                assert(s2.pool[y as int] == st.pool[y as int]);
            }
        }
    } else {
        assert(l2.remove(j) =~= Seq::<usize>::empty());
        assert(s3.levels =~= st.levels.insert(p, PriceLevel { head: None, tail: None, order_count: 0, total_quantity: 0 }));
        assert(s3.lists =~= st.lists.insert(p, Seq::empty()));
        assert forall|y: usize| #[trigger] st.live(y) implies s3.pool[y as int] == st.pool[y as int] by {
            assert(s2.pool[y as int] == st.pool[y as int]);
        }
    }
}

/// Trading `fill` at one level takes the oldest orders first: the level
/// loses exactly the quantity traded, its queue keeps a suffix of the old
/// one, it is left empty whenever some quantity is left to fill, and no other
/// level changes.
pub proof fn law_trade_within_level(st: HalfState, p: u32, fill: int)
    requires
        st.wf(),
        st.levels.contains_key(p),
        fill >= 0,
    ensures
        ({
            let r = st.take_level(p, fill);
            let l = st.lists[p];
            &&& r.0.wf()
            &&& 0 <= r.1 <= fill
            &&& r.0.levels[p].total_quantity == st.levels[p].total_quantity - (fill - r.1)
            &&& (r.1 > 0 ==> r.0.levels[p].total_quantity == 0)
            &&& r.0.levels.remove(p) == st.levels.remove(p)
            &&& r.0.lists[p] == l.skip(l.len() - r.0.lists[p].len())
        }),
{
    lemma_take_level_conserve(st, p, fill);
}

/// An order that still has quantity left after trading against a side has
/// used up every level within its limit.
pub proof fn law_unfilled_order_exhausts_limit(st: HalfState, fill: int, limit: Option<u32>, highest: bool)
    requires
        st.wf(),
        fill >= 0,
    ensures
        st.take_side(fill, limit, highest).1 > 0 ==> forall|q: u32| #[trigger]
            st.take_side(fill, limit, highest).0.levels.contains_key(q) ==> !within(q, limit, highest),
{
    lemma_take_side_props(st, fill, limit, highest);
}

/// Price priority: every level an order uses up is better than every level
/// left on the side (higher on the bid side, lower on the ask side).
pub proof fn law_best_levels_go_first(st: HalfState, fill: int, limit: Option<u32>, highest: bool, q: u32, q2: u32)
    requires
        st.wf(),
        fill >= 0,
        st.levels.contains_key(q),
        !st.take_side(fill, limit, highest).0.levels.contains_key(q),
        st.take_side(fill, limit, highest).0.levels.contains_key(q2),
    ensures
        if highest { q > q2 } else { q < q2 },
{
    lemma_take_side_props(st, fill, limit, highest);
}

/// Trading against a side never touches the levels beyond the order's limit.
pub proof fn law_levels_beyond_limit_untouched(st: HalfState, fill: int, limit: Option<u32>, highest: bool, q: u32)
    requires
        st.wf(),
        fill >= 0,
        st.levels.contains_key(q),
        !within(q, limit, highest),
    ensures
        st.take_side(fill, limit, highest).0.levels.contains_key(q),
        st.take_side(fill, limit, highest).0.levels[q] == st.levels[q],
        st.take_side(fill, limit, highest).0.lists[q] == st.lists[q],
{
    lemma_take_side_props(st, fill, limit, highest);
}

/// A fill-or-kill order either trades nothing and changes nothing, or fills
/// its whole quantity.
pub proof fn law_fill_or_kill_all_or_nothing(opp: HalfState, own: HalfState, order: EngineNewOrder, limit: u32)
    requires
        opp.wf(),
        order.order_type == OrderType::FillOrKill(limit),
    ensures
        ({
            let e = execution(opp, own, order);
            let r = opp.take_side(order.initial_quantity as int, Some(limit), !order.is_buy_side);
            &&& e.1 == own
            &&& (e.0 == opp && (e.2 == Err::<crate::order_book::types::MatchOutcome, OrderBookError>(OrderBookError::QuantityUnderflow)
                || e.2 == Ok::<crate::order_book::types::MatchOutcome, OrderBookError>(outcome(None, 0, 0))))
                || (e.0 == r.0 && r.1 == 0)
        }),
{
    reveal(execution);
    let need = order.initial_quantity as int;
    let hi = !order.is_buy_side;
    if need == 0 {
        assert(opp.take_side(0, Some(limit), hi).1 == 0);
    } else {
        match crate::order_book::model::fok_scan(opp.levels, limit, hi, 0, need) {
            None => {},
            Some(a) => {
                if a >= need {
                    lemma_fok_fills(opp, limit, hi, 0, need);
                }
            },
        }
    }
}

/// Lowering the initial quantity of an order changes it in place: it keeps
/// its place in its queue and nothing else changes.
pub proof fn law_lower_quantity_keeps_place(st: HalfState, order_id: u64, q: u32)
    requires
        st.wf(),
        st.registry.contains_key(order_id),
        st.live(st.registry[order_id]),
        q <= st.node(st.registry[order_id]).initial_quantity,
    ensures
        ({
            let x = st.registry[order_id];
            let s2 = st.modified(order_id, None, Some(q));
            &&& s2.lists == st.lists
            &&& s2.levels == st.levels
            &&& s2.pool == st.pool.update(x as int, Some(with_initial(st.node(x), q)))
        }),
{
}

/// Quantity is conserved by trading: the quantity resting on the side an
/// order trades against goes down by exactly the quantity the order filled.
pub proof fn law_trade_removes_traded_quantity(st: HalfState, fill: int, limit: Option<u32>, highest: bool)
    requires
        st.wf(),
        fill >= 0,
    ensures
        ({
            let r = st.take_side(fill, limit, highest);
            total_of(r.0.levels) == total_of(st.levels) - (fill - r.1)
        }),
{
    lemma_take_side_total(st, fill, limit, highest);
}

/// Resting an order adds exactly its quantity to its side.
pub proof fn law_rest_adds_quantity(st: HalfState, order: OrderNode)
    requires
        st.wf(),
        st.fits(order),
    ensures
        total_of(st.rest(order).levels) == total_of(st.levels) + order.current_quantity,
{
    let p = order.market_limit;
    let s2 = st.rest(order);
    lemma_total_of_insert(st.levels, p, s2.levels[p]);
    assert(s2.levels =~= st.levels.insert(p, s2.levels[p]));
    if st.levels.contains_key(p) && !st.appends_at(p) {
        assert(st.level_wf(p));
        if st.levels[p].total_quantity != 0 {
            assert(st.lists[p].len() > 0);
        }
    }
}

/// Cancelling an order takes exactly its remaining quantity off its side;
/// a failed cancellation takes nothing.
pub proof fn law_cancel_removes_quantity(st: HalfState, order_id: u64, is_bid: bool)
    requires
        st.wf(),
    ensures
        total_of(st.cancelled(order_id, is_bid).levels) == total_of(st.levels) - (if st.cancel_result(
            order_id,
            is_bid,
        ) is Ok {
            st.node(st.registry[order_id]).current_quantity as int
        } else {
            0
        }),
{
    if st.cancel_result(order_id, is_bid) is Ok {
        let x = st.registry[order_id];
        lemma_live_position(st, x);
        let n = st.node(x);
        let p = n.market_limit;
        let l = st.lists[p];
        let j = l.index_of(x);
        lemma_qty_sum_remove(l, st.pool, j);
        lemma_qty_sum_nonneg(l.remove(j), st.pool);
        let s2 = st.unlink(x);
        lemma_total_of_insert(st.levels, p, s2.levels[p]);
        assert(s2.levels =~= st.levels.insert(p, s2.levels[p]));
    }
}

} // verus!
