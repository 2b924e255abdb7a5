use vstd::prelude::*;
use crate::order_book::model::{HalfState, total_of};
use crate::order_book::proofs::{lemma_unlink_pool, lemma_live_position, lemma_unlink_wf};
use crate::order_book::laws::law_cancel_removes_quantity;
use crate::order_book::types::{ModifyOutcome, OrderBookError};

verus! {

/// Cancelling succeeds exactly for a registered id whose slot holds an
/// order. Then that order, and only it, leaves the book: its slot is freed,
/// its remaining quantity leaves its side and every other order stays; a
/// failed cancellation changes nothing.
pub proof fn law_cancel_succeeds_on_live_orders(st: HalfState, order_id: u64, is_bid: bool)
    requires
        st.wf(),
    ensures
        (st.cancel_result(order_id, is_bid) is Ok) == (st.registry.contains_key(order_id) && st.live(
            st.registry[order_id],
        )),
        st.cancel_result(order_id, is_bid) is Err ==> st.cancelled(order_id, is_bid) == st,
        st.cancel_result(order_id, is_bid) is Ok ==> {
            let x = st.registry[order_id];
            let s2 = st.cancelled(order_id, is_bid);
            &&& !s2.live(x)
            &&& s2.free == st.free.push(x)
            &&& s2.registry == st.registry
            &&& total_of(s2.levels) == total_of(st.levels) - st.node(x).current_quantity
            &&& forall|y: usize| #[trigger] st.live(y) && y != x ==> s2.live(y)
            &&& s2.wf()
        },
{
    law_cancel_removes_quantity(st, order_id, is_bid);
    if st.cancel_result(order_id, is_bid) is Ok {
        let x = st.registry[order_id];
        lemma_live_position(st, x);
        lemma_unlink_pool(st, x);
        lemma_unlink_wf(st, x);
        let s2 = st.unlink(x);
        let l = st.lists[st.node(x).market_limit];
        let j = l.index_of(x);
        assert forall|y: usize| #[trigger] st.live(y) && y != x implies s2.live(y) by {
            if !(j > 0 && y == l[j - 1]) && !(j + 1 < l.len() && y == l[j + 1]) {
                assert(s2.pool[y as int] == st.pool[y as int]);
            }
        }
    }
}

/// What modifying an order answers matches what it does. An error or
/// "no potential modification" leaves the side unchanged; an in-place change
/// keeps every queue and every level and only sets the order's initial
/// quantity; an answer that asks for the order to be entered again has taken
/// the order, with its remaining quantity (which the answer reports), off the side.
pub proof fn law_modify_answer_matches_effect(
    st: HalfState,
    order_id: u64,
    new_price: Option<u32>,
    new_quantity: Option<u32>,
    is_bid: bool,
)
    requires
        st.wf(),
        st.modify_defined(order_id, new_price, new_quantity),
    ensures
        ({
            let r = st.modify_result(order_id, new_price, new_quantity, is_bid);
            let s2 = st.modified(order_id, new_price, new_quantity);
            let x = st.registry[order_id];
            let n = st.node(x);
            &&& (r is Err || r == Ok::<Option<ModifyOutcome>, OrderBookError>(None)) ==> s2 == st
            &&& r == Ok::<Option<ModifyOutcome>, OrderBookError>(Some(ModifyOutcome::Inplace)) ==> {
                &&& s2.lists == st.lists
                &&& s2.levels == st.levels
                &&& s2.live(x)
                &&& s2.node(x).initial_quantity == new_quantity->Some_0
                &&& s2.node(x).current_quantity == n.current_quantity
                &&& s2.node(x).market_limit == n.market_limit
            }
            &&& match r {
                Ok(Some(m)) => m is Inplace || {
                    &&& !s2.live(x)
                    &&& s2.wf()
                    &&& total_of(s2.levels) == total_of(st.levels) - n.current_quantity
                    &&& match m {
                        ModifyOutcome::Repriced { old_current_qty, .. } => old_current_qty == n.current_quantity,
                        ModifyOutcome::Requantized { old_current_qty, .. } => old_current_qty == n.current_quantity,
                        ModifyOutcome::Both { old_current_qty, .. } => old_current_qty == n.current_quantity,
                        ModifyOutcome::Inplace => true,
                    }
                },
                _ => true,
            }
        }),
{
    if st.registry.contains_key(order_id) && st.live(st.registry[order_id]) {
        law_cancel_succeeds_on_live_orders(st, order_id, true);
    }
}

} // verus!
