use order_book::order_book::types::{
    CancelOutcome, EngineNewOrder, ModifyOutcome, OrderBookError, OrderNode, OrderRegistry, OrderType,
};
use order_book::{EngineCancelOrder, EngineModifyOrder, MatchingEngine, OrderBook};

fn gtc(id: u64, price: u32, qty: u32, buy: bool) -> EngineNewOrder {
    EngineNewOrder {
        engine_order_id: id,
        price: Some(price),
        initial_quantity: qty,
        current_quantity: qty,
        is_buy_side: buy,
        security_id: 1,
        order_type: OrderType::GoodTillCancel,
    }
}

fn typed(id: u64, qty: u32, buy: bool, order_type: OrderType) -> EngineNewOrder {
    EngineNewOrder {
        engine_order_id: id,
        price: None,
        initial_quantity: qty,
        current_quantity: qty,
        is_buy_side: buy,
        security_id: 1,
        order_type,
    }
}

fn levels(v: &[order_book::order_book::types::PriceLevelDepth]) -> Vec<(u32, u32)> {
    v.iter().map(|d| (d.price_level, d.quantity)).collect()
}

fn node(id: u64, price: u32, qty: u32) -> OrderNode {
    OrderNode { order_id: id, initial_quantity: qty, current_quantity: qty, market_limit: price, next: None, prev: None }
}

#[test]
fn unknown_security_has_no_depth() {
    let engine = MatchingEngine::new();
    assert!(engine.depth(7, None).is_none());
}

#[test]
fn good_till_cancel_rests_without_opposite_side() {
    let mut engine = MatchingEngine::new();
    let r = engine.match_order(gtc(1, 100, 10, true)).unwrap();
    assert_eq!(r.order_index, Some(0));
    assert_eq!(r.orders_touched, 0);
    assert_eq!(r.levels_consumed, 0);
    let d = engine.depth(1, None).unwrap();
    assert_eq!(levels(&d.bid_depth), vec![(100, 10)]);
    assert!(d.ask_depth.is_empty());
}

#[test]
fn sell_market_takes_highest_bid_first() {
    let mut engine = MatchingEngine::new();
    engine.match_order(gtc(1, 100, 5, true)).unwrap();
    engine.match_order(gtc(2, 101, 5, true)).unwrap();
    let r = engine.match_order(typed(3, 7, false, OrderType::Market)).unwrap();
    assert_eq!(r.order_index, None);
    assert_eq!(r.orders_touched, 2);
    assert_eq!(r.levels_consumed, 1);
    let d = engine.depth(1, None).unwrap();
    assert_eq!(levels(&d.bid_depth), vec![(100, 3)]);
}

#[test]
fn buy_market_takes_lowest_ask_first() {
    let mut engine = MatchingEngine::new();
    engine.match_order(gtc(1, 105, 4, false)).unwrap();
    engine.match_order(gtc(2, 103, 4, false)).unwrap();
    let r = engine.match_order(typed(3, 4, true, OrderType::Market)).unwrap();
    assert_eq!(r.orders_touched, 1);
    assert_eq!(r.levels_consumed, 1);
    let d = engine.depth(1, None).unwrap();
    assert_eq!(levels(&d.ask_depth), vec![(105, 4)]);
}

#[test]
fn oldest_order_at_a_level_trades_first() {
    let mut book = OrderBook::new();
    let a = book.create_buy_order(node(1, 100, 5)).unwrap();
    let b = book.create_buy_order(node(2, 100, 5)).unwrap();
    assert_eq!((a, b), (0, 1));
    let order = typed(3, 6, false, OrderType::Market);
    let r = book.match_order(&order).unwrap();
    assert_eq!(r.orders_touched, 2);
    assert!(book.bid.order_pool[0].is_none());
    assert_eq!(book.bid.order_pool[1].unwrap().current_quantity, 4);
    assert_eq!(book.bid.free_list, vec![0]);
    let level = book.bid.price_map.get(&100).unwrap();
    assert_eq!(level.head, Some(1));
    assert_eq!(level.total_quantity, 4);
}

#[test]
fn immediate_or_cancel_stops_at_its_limit() {
    let mut engine = MatchingEngine::new();
    engine.match_order(gtc(1, 100, 5, false)).unwrap();
    engine.match_order(gtc(2, 102, 5, false)).unwrap();
    let r = engine.match_order(typed(3, 8, true, OrderType::ImmediateOrCancel(101))).unwrap();
    assert_eq!(r.orders_touched, 1);
    assert_eq!(r.levels_consumed, 1);
    let d = engine.depth(1, None).unwrap();
    assert_eq!(levels(&d.ask_depth), vec![(102, 5)]);
    assert!(d.bid_depth.is_empty());
}

#[test]
fn good_till_cancel_rests_its_remainder() {
    let mut engine = MatchingEngine::new();
    engine.match_order(gtc(1, 100, 5, false)).unwrap();
    let r = engine.match_order(gtc(2, 101, 8, true)).unwrap();
    assert_eq!(r.orders_touched, 1);
    assert_eq!(r.levels_consumed, 1);
    assert_eq!(r.order_index, Some(0));
    let d = engine.depth(1, None).unwrap();
    assert_eq!(levels(&d.bid_depth), vec![(101, 3)]);
    assert!(d.ask_depth.is_empty());
}

#[test]
fn fill_or_kill_without_enough_quantity_does_nothing() {
    let mut engine = MatchingEngine::new();
    engine.match_order(gtc(1, 100, 5, false)).unwrap();
    engine.match_order(gtc(2, 101, 5, false)).unwrap();
    let r = engine.match_order(typed(3, 11, true, OrderType::FillOrKill(110))).unwrap();
    assert_eq!((r.orders_touched, r.levels_consumed, r.order_index), (0, 0, None));
    let r = engine.match_order(typed(4, 8, true, OrderType::FillOrKill(100))).unwrap();
    assert_eq!((r.orders_touched, r.levels_consumed), (0, 0));
    let d = engine.depth(1, None).unwrap();
    assert_eq!(levels(&d.ask_depth), vec![(101, 5), (100, 5)]);
}

#[test]
fn fill_or_kill_with_enough_quantity_fills_completely() {
    let mut engine = MatchingEngine::new();
    engine.match_order(gtc(1, 100, 5, true)).unwrap();
    engine.match_order(gtc(2, 99, 5, true)).unwrap();
    let r = engine.match_order(typed(3, 8, false, OrderType::FillOrKill(99))).unwrap();
    assert_eq!((r.orders_touched, r.levels_consumed), (2, 1));
    let d = engine.depth(1, None).unwrap();
    assert_eq!(levels(&d.bid_depth), vec![(99, 2)]);
}

#[test]
fn fill_or_kill_scan_overflow_is_an_error() {
    let mut engine = MatchingEngine::new();
    engine.match_order(gtc(1, 100, 3_000_000_000, false)).unwrap();
    engine.match_order(gtc(2, 101, 3_000_000_000, false)).unwrap();
    let r = engine.match_order(typed(3, 4_000_000_000, true, OrderType::FillOrKill(200)));
    assert!(matches!(r, Err(OrderBookError::QuantityUnderflow)));
    let d = engine.depth(1, None).unwrap();
    assert_eq!(levels(&d.ask_depth), vec![(101, 3_000_000_000), (100, 3_000_000_000)]);
}

#[test]
fn good_till_cancel_without_price_is_refused() {
    let mut engine = MatchingEngine::new();
    engine.match_order(gtc(1, 100, 5, true)).unwrap();
    let r = engine.match_order(typed(2, 5, false, OrderType::GoodTillCancel));
    assert!(matches!(r, Err(OrderBookError::PriceNotFound)));
    let r = engine.match_order(typed(3, 0, false, OrderType::GoodTillCancel)).unwrap();
    assert_eq!((r.orders_touched, r.levels_consumed, r.order_index), (0, 0, None));
}

#[test]
fn cancel_reports_success_then_failure() {
    let mut engine = MatchingEngine::new();
    engine.match_order(gtc(1, 100, 5, true)).unwrap();
    assert!(matches!(engine.cancel(1, 1, true), Ok(CancelOutcome::Success)));
    assert!(matches!(engine.cancel(1, 1, true), Ok(CancelOutcome::Failed)));
    assert!(matches!(engine.cancel(9, 1, true), Ok(CancelOutcome::Failed)));
    assert!(matches!(engine.cancel(1, 2, true), Err(OrderBookError::OrderBookNotFound)));
    let d = engine.depth(1, None).unwrap();
    assert_eq!(levels(&d.bid_depth), vec![(100, 0)]);
}

#[test]
fn cancel_of_an_emptied_slot_differs_by_side() {
    let mut book = OrderBook::new();
    book.create_buy_order(node(1, 100, 5)).unwrap();
    book.create_sell_order(node(2, 200, 5)).unwrap();
    let bid = EngineCancelOrder { order_id: 1, security_id: 1, is_buy_side: true };
    assert!(book.cancel_order(1, bid).is_ok());
    let bid = EngineCancelOrder { order_id: 1, security_id: 1, is_buy_side: true };
    assert!(matches!(book.cancel_order(1, bid), Err(OrderBookError::OrderNotFound)));
    let ask = EngineCancelOrder { order_id: 2, security_id: 1, is_buy_side: false };
    assert!(book.cancel_order(2, ask).is_ok());
    let ask = EngineCancelOrder { order_id: 2, security_id: 1, is_buy_side: false };
    assert!(matches!(book.cancel_order(2, ask), Err(OrderBookError::NodeNotFound)));
    let ask = EngineCancelOrder { order_id: 3, security_id: 1, is_buy_side: false };
    assert!(matches!(book.cancel_order(3, ask), Err(OrderBookError::OrderNotFound)));
}

#[test]
fn cancel_in_the_middle_relinks_neighbours() {
    let mut book = OrderBook::new();
    book.create_sell_order(node(1, 100, 1)).unwrap();
    book.create_sell_order(node(2, 100, 2)).unwrap();
    book.create_sell_order(node(3, 100, 3)).unwrap();
    let ask = EngineCancelOrder { order_id: 2, security_id: 1, is_buy_side: false };
    book.cancel_order(2, ask).unwrap();
    assert_eq!(book.ask.order_pool[0].unwrap().next, Some(2));
    assert_eq!(book.ask.order_pool[2].unwrap().prev, Some(0));
    let level = book.ask.price_map.get(&100).unwrap();
    assert_eq!((level.head, level.tail, level.order_count, level.total_quantity), (Some(0), Some(2), 2, 4));
    assert_eq!(book.ask.free_list, vec![1]);
    let again = book.create_sell_order(node(4, 100, 7)).unwrap();
    assert_eq!(again, 1);
    assert_eq!(book.ask.price_map.get(&100).unwrap().tail, Some(1));
    assert_eq!(book.ask.order_pool[2].unwrap().next, Some(1));
}

#[test]
fn cancel_undoes_rest_on_concrete_values() {
    let mut book = OrderBook::new();
    book.create_buy_order(node(1, 100, 5)).unwrap();
    let before = levels(&book.depth(None).bid_depth);
    book.create_buy_order(node(2, 100, 6)).unwrap();
    let bid = EngineCancelOrder { order_id: 2, security_id: 1, is_buy_side: true };
    book.cancel_order(2, bid).unwrap();
    assert_eq!(levels(&book.depth(None).bid_depth), before);
    assert_eq!(book.bid.order_pool[0].unwrap().next, None);
    let level = book.bid.price_map.get(&100).unwrap();
    assert_eq!((level.head, level.tail, level.order_count), (Some(0), Some(0), 1));
}

#[test]
fn depth_limits_and_orders_levels() {
    let mut engine = MatchingEngine::new();
    for (i, p) in [100u32, 102, 101].iter().enumerate() {
        engine.match_order(gtc(i as u64, *p, 1 + i as u32, true)).unwrap();
        engine.match_order(gtc(10 + i as u64, 200 + *p, 1 + i as u32, false)).unwrap();
    }
    let d = engine.depth(1, Some(2)).unwrap();
    assert_eq!(levels(&d.bid_depth), vec![(100, 1), (101, 3)]);
    assert_eq!(levels(&d.ask_depth), vec![(302, 2), (301, 3)]);
    let d = engine.depth(1, Some(0)).unwrap();
    assert!(d.bid_depth.is_empty() && d.ask_depth.is_empty());
}

#[test]
fn modify_lower_quantity_is_in_place() {
    let mut engine = MatchingEngine::new();
    engine.match_order(gtc(1, 100, 10, true)).unwrap();
    assert_eq!(engine.modify(1, 1, None, Some(4), true).unwrap(), "Inplace");
    let d = engine.depth(1, None).unwrap();
    assert_eq!(levels(&d.bid_depth), vec![(100, 10)]);
}

#[test]
fn modify_reprice_reenters_the_order() {
    let mut engine = MatchingEngine::new();
    engine.match_order(gtc(1, 100, 10, true)).unwrap();
    assert_eq!(engine.modify(1, 1, Some(105), None, true).unwrap(), "Repriced");
    let d = engine.depth(1, None).unwrap();
    assert_eq!(levels(&d.bid_depth), vec![(100, 0), (105, 10)]);
}

#[test]
fn modify_larger_quantity_reenters_the_order() {
    let mut engine = MatchingEngine::new();
    engine.match_order(gtc(1, 100, 10, false)).unwrap();
    assert_eq!(engine.modify(1, 1, None, Some(12), false).unwrap(), "Requantized");
    let d = engine.depth(1, None).unwrap();
    assert_eq!(levels(&d.ask_depth), vec![(100, 12)]);
}

#[test]
fn modify_both_differs_by_side() {
    let mut engine = MatchingEngine::new();
    engine.match_order(gtc(1, 100, 10, true)).unwrap();
    engine.match_order(gtc(2, 300, 10, false)).unwrap();
    assert_eq!(engine.modify(1, 1, Some(90), Some(3), true).unwrap(), "Both");
    assert_eq!(engine.modify(2, 1, Some(310), Some(3), false).unwrap(), "Requantized");
    let d = engine.depth(1, None).unwrap();
    assert_eq!(levels(&d.bid_depth), vec![(90, 3), (100, 0)]);
    assert_eq!(levels(&d.ask_depth), vec![(300, 3)]);
}

#[test]
fn modify_answers_when_nothing_changes() {
    let mut engine = MatchingEngine::new();
    engine.match_order(gtc(1, 100, 10, true)).unwrap();
    assert_eq!(engine.modify(1, 1, Some(100), Some(5), true).unwrap(), "No potential modification");
    assert_eq!(engine.modify(8, 1, Some(100), Some(5), true).unwrap(), "No modification occured");
    assert!(matches!(engine.modify(1, 4, Some(100), None, true), Err(OrderBookError::OrderBookNotFound)));
}

#[test]
fn book_modify_reports_outcomes() {
    let mut book = OrderBook::new();
    book.create_buy_order(node(1, 100, 10)).unwrap();
    let m = EngineModifyOrder { order_id: 1, security_id: 1, is_buy_side: true, new_price: None, new_quantity: Some(20) };
    match book.modify_order(1, m) {
        Ok(Some(ModifyOutcome::Requantized { old_price, new_initial_qty, old_current_qty })) => {
            assert_eq!((old_price, new_initial_qty, old_current_qty), (100, 20, 10));
        },
        _ => panic!("expected a requantized outcome"),
    }
    let m = EngineModifyOrder { order_id: 1, security_id: 1, is_buy_side: true, new_price: None, new_quantity: Some(20) };
    assert!(matches!(book.modify_order(1, m), Err(OrderBookError::NodeNotFound)));
    let m = EngineModifyOrder { order_id: 5, security_id: 1, is_buy_side: true, new_price: Some(1), new_quantity: None };
    assert!(matches!(book.modify_order(5, m), Err(OrderBookError::OrderNotFound)));
}

#[test]
fn registry_records_and_forgets_slots() {
    let mut reg = OrderRegistry::new();
    assert!(!reg.order_exist(4));
    assert_eq!(reg.insert(4, 2), None);
    assert_eq!(reg.insert(4, 3), Some(2));
    assert!(reg.order_exist(4));
    assert_eq!(*reg.get_idx(4), 3);
    assert_eq!(reg.delete_key(4), Some(3));
    assert_eq!(reg.delete_key(4), None);
    assert!(!reg.order_exist(4));
}

fn resting_total(v: &[order_book::order_book::types::PriceLevelDepth]) -> u64 {
    v.iter().map(|d| d.quantity as u64).sum()
}

#[test]
fn trading_removes_exactly_the_traded_quantity() {
    let mut engine = MatchingEngine::new();
    engine.match_order(gtc(1, 100, 5, false)).unwrap();
    engine.match_order(gtc(2, 101, 5, false)).unwrap();
    engine.match_order(gtc(3, 102, 5, false)).unwrap();
    let before = resting_total(&engine.depth(1, None).unwrap().ask_depth);
    engine.match_order(typed(4, 7, true, OrderType::ImmediateOrCancel(101))).unwrap();
    let after = resting_total(&engine.depth(1, None).unwrap().ask_depth);
    assert_eq!(before - after, 7);
    let r = engine.match_order(typed(5, 9, true, OrderType::ImmediateOrCancel(101))).unwrap();
    assert_eq!((r.orders_touched, r.levels_consumed), (1, 1));
    let d = engine.depth(1, None).unwrap();
    assert_eq!(levels(&d.ask_depth), vec![(102, 5)]);
}

#[test]
fn resting_and_cancelling_change_the_side_by_the_order_quantity() {
    let mut book = OrderBook::new();
    book.create_sell_order(node(1, 100, 5)).unwrap();
    let before = resting_total(&book.depth(None).ask_depth);
    book.create_sell_order(node(2, 101, 8)).unwrap();
    assert_eq!(resting_total(&book.depth(None).ask_depth), before + 8);
    let ask = EngineCancelOrder { order_id: 1, security_id: 1, is_buy_side: false };
    book.cancel_order(1, ask).unwrap();
    assert_eq!(resting_total(&book.depth(None).ask_depth), before + 8 - 5);
}
