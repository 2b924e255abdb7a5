use vstd::prelude::*;
use crate::order_book::model::{HalfState, execution, executable, outcome, total_of, quantity_within, resting_node};
use crate::order_book::proofs::{
    lemma_take_side_props, lemma_fok_fills, lemma_take_side_total, lemma_fok_scan_reaches,
    lemma_gtc_execution, lemma_rest_places, lemma_fok_execution,
};
use crate::order_book::types::{EngineNewOrder, MatchOutcome, OrderBookError, OrderType};

verus! {

/// A fill-or-kill order whose limit admits levels holding at least its
/// quantity (their sum staying within `u32`) trades: its whole quantity
/// leaves the opposite side, its own side is untouched, and it answers how
/// many orders and levels it used.
#[verifier::rlimit(60)]
pub proof fn law_fill_or_kill_fills_when_quantity_is_there(opp: HalfState, own: HalfState, order: EngineNewOrder, limit: u32)
    requires
        opp.wf(),
        order.order_type == OrderType::FillOrKill(limit),
        quantity_within(opp.levels, limit, !order.is_buy_side) >= order.initial_quantity,
        quantity_within(opp.levels, limit, !order.is_buy_side) <= u32::MAX,
    ensures
        ({
            let e = execution(opp, own, order);
            let r = opp.take_side(order.initial_quantity as int, Some(limit), !order.is_buy_side);
            &&& e.1 == own
            &&& e.0 == r.0
            &&& r.1 == 0
            &&& total_of(e.0.levels) == total_of(opp.levels) - order.initial_quantity
            &&& e.2 == Ok::<MatchOutcome, OrderBookError>(outcome(None, r.2, r.3))
        }),
{
    let need = order.initial_quantity as int;
    let hi = !order.is_buy_side;
    let r = opp.take_side(need, Some(limit), hi);
    lemma_fok_scan_reaches(opp.levels, limit, hi, 0, need);
    lemma_fok_execution(opp, own, order, limit);
    if need > 0 {
        lemma_fok_fills(opp, limit, hi, 0, need);
    }
    lemma_take_side_total(opp, need, Some(limit), hi);
}

/// A good-till-cancel order either fills completely, or rests its
/// remainder and reports the slot it rests in: that slot then holds the
/// order, with its id, at its price, with the quantity it did not trade, and
/// the registry maps the id to it.
#[verifier::rlimit(60)]
pub proof fn law_good_till_cancel_reports_its_slot(opp: HalfState, own: HalfState, order: EngineNewOrder, price: u32)
    requires
        opp.wf(),
        own.wf(),
        order.order_type is GoodTillCancel,
        order.price == Some(price),
        executable(opp, own, order),
    ensures
        ({
            let e = execution(opp, own, order);
            let traded = total_of(opp.levels) - total_of(e.0.levels);
            &&& e.2 is Ok
            &&& 0 <= traded <= order.initial_quantity
            &&& match e.2->Ok_0.order_index {
                None => traded == order.initial_quantity && e.1 == own,
                Some(i) => exists|x: usize|
                    {
                        &&& #[trigger] e.1.live(x)
                        &&& x as u32 == i
                        &&& e.1.node(x).order_id == order.engine_order_id
                        &&& e.1.node(x).market_limit == price
                        &&& e.1.node(x).current_quantity == order.initial_quantity - traded
                        &&& e.1.registry[order.engine_order_id] == x
                    },
            }
        }),
{
    let need = order.initial_quantity as int;
    let hi = !order.is_buy_side;
    lemma_take_side_total(opp, need, Some(price), hi);
    lemma_take_side_props(opp, need, Some(price), hi);
    lemma_gtc_execution(opp, own, order, price);
    let r = opp.take_side(need, Some(price), hi);
    if r.1 > 0 {
        let node = resting_node(order, r.1 as u32);
        lemma_rest_places(own, node);
        let x = own.resting_slot();
        let e1 = own.rest(node);
        let e = execution(opp, own, order);
        assert(e.1 == e1);
        assert(e.2->Ok_0.order_index == Some(x as u32));
        assert(r.1 as u32 == r.1);
        assert(e1.node(x).current_quantity == order.initial_quantity - (total_of(opp.levels) - total_of(e.0.levels)));
        assert(e.1.live(x) && x as u32 == x as u32 && e.1.node(x).order_id == order.engine_order_id
            && e.1.node(x).market_limit == price
            && e.1.registry[order.engine_order_id] == x);
    }
}

} // verus!
