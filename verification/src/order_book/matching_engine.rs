use vstd::prelude::*;
use std::collections::HashMap;
use std::collections::hash_map::Entry;
use crate::order_book::model::{HalfState, execution, executable, depth_listing};
use crate::order_book::orderbook::OrderBook;
use crate::order_book::types::{
    BookDepth, CancelOutcome, EngineCancelOrder, EngineModifyOrder, EngineNewOrder, MatchOutcome, ModifyOutcome,
    OrderBookError, OrderType,
};

verus! {

/// The order a modification enters again: at the new (or old) price with the
/// new (or old) initial quantity, as a good-till-cancel order.
pub open spec fn reentry(order_id: u64, security_id: u32, is_buy_side: bool, m: ModifyOutcome) -> Option<EngineNewOrder> {
    let entry = |price: u32, initial: u32, current: u32|
        EngineNewOrder {
            engine_order_id: order_id,
            price: Some(price),
            initial_quantity: initial,
            current_quantity: current,
            is_buy_side,
            security_id,
            order_type: OrderType::GoodTillCancel,
        };
    match m {
        ModifyOutcome::Inplace => None,
        ModifyOutcome::Repriced { new_price, old_initial_qty, old_current_qty } => Some(
            entry(new_price, old_initial_qty, old_current_qty),
        ),
        ModifyOutcome::Requantized { old_price, new_initial_qty, old_current_qty } => Some(
            entry(old_price, new_initial_qty, old_current_qty),
        ),
        ModifyOutcome::Both { new_price, new_initial_qty, old_current_qty } => Some(
            entry(new_price, new_initial_qty, old_current_qty),
        ),
    }
}

/// The answer `modify` gives for what the book's modification returned.
pub open spec fn modify_label(r: Result<Option<ModifyOutcome>, OrderBookError>) -> Seq<char> {
    match r {
        Err(_) => "No modification occured"@,
        Ok(None) => "No potential modification"@,
        Ok(Some(ModifyOutcome::Inplace)) => "Inplace"@,
        Ok(Some(ModifyOutcome::Repriced { .. })) => "Repriced"@,
        Ok(Some(ModifyOutcome::Requantized { .. })) => "Requantized"@,
        Ok(Some(ModifyOutcome::Both { .. })) => "Both"@,
    }
}

/// The books of all securities, by security id.
pub struct MatchingEngine {
    _book: HashMap<u32, OrderBook>,
}

impl MatchingEngine {
    /// The book of each security the engine has seen.
    pub closed spec fn books(&self) -> Map<u32, OrderBook> {
        self._book@
    }

/// Every book keeps its invariant.
    pub open spec fn wf(&self) -> bool {
        forall|s: u32| #[trigger] self.books().contains_key(s) ==> self.books()[s].wf()
    }

    /// The bid side of the book of `security_id` (an empty one for an unknown security).
    pub open spec fn bid_of(&self, security_id: u32) -> HalfState {
        if self.books().contains_key(security_id) {
            self.books()[security_id].bid.state()
        } else {
            HalfState::empty()
        }
    }

    /// The ask side of the book of `security_id` (an empty one for an unknown security).
    pub open spec fn ask_of(&self, security_id: u32) -> HalfState {
        if self.books().contains_key(security_id) {
            self.books()[security_id].ask.state()
        } else {
            HalfState::empty()
        }
    }

    /// `order` can be executed in the book of its security.
    pub open spec fn accepts(&self, order: EngineNewOrder) -> bool {
        let s = order.security_id;
        if order.is_buy_side {
            executable(self.ask_of(s), self.bid_of(s), order)
        } else {
            executable(self.bid_of(s), self.ask_of(s), order)
        }
    }

    /// The engine after executing `order` changed the book of its security
    /// (created empty when unknown) and no other.
    pub open spec fn executed(&self, next: &Self, order: EngineNewOrder, r: Result<MatchOutcome, OrderBookError>) -> bool {
        let s = order.security_id;
        &&& self.executed_books(next, order)
        &&& order.is_buy_side ==> r == execution(self.ask_of(s), self.bid_of(s), order).2
        &&& !order.is_buy_side ==> r == execution(self.bid_of(s), self.ask_of(s), order).2
    }

    /// The books after executing `order`, whatever it answered.
    pub open spec fn executed_books(&self, next: &Self, order: EngineNewOrder) -> bool {
        let s = order.security_id;
        &&& next.books().dom() =~= self.books().dom().insert(s)
        &&& forall|t: u32| t != s && #[trigger] self.books().contains_key(t) ==> next.books()[t] == self.books()[t]
        &&& order.is_buy_side ==> {
            let e = execution(self.ask_of(s), self.bid_of(s), order);
            &&& next.ask_of(s) == e.0
            &&& next.bid_of(s) == e.1
        }
        &&& !order.is_buy_side ==> {
            let e = execution(self.bid_of(s), self.ask_of(s), order);
            &&& next.bid_of(s) == e.0
            &&& next.ask_of(s) == e.1
        }
    }

    /// The book of `security_id` is replaced (it must exist) and the others
    /// are kept.
    pub open spec fn only_changed(&self, next: &Self, security_id: u32) -> bool {
        &&& self.books().contains_key(security_id)
        &&& next.books().dom() =~= self.books().dom()
        &&& forall|t: u32| t != security_id && #[trigger] self.books().contains_key(t) ==> next.books()[t] == self.books()[t]
    }

    /// The side of `security_id` named by `is_bid`.
    pub open spec fn side_of(&self, security_id: u32, is_bid: bool) -> HalfState {
        if is_bid { self.bid_of(security_id) } else { self.ask_of(security_id) }
    }

    /// The book's answer when `modify` is asked to change `order_id`.
    pub open spec fn modify_answer(&self, order_id: u64, security_id: u32, new_price: Option<u32>, new_qty: Option<u32>, is_buy_side: bool) -> Result<Option<ModifyOutcome>, OrderBookError> {
        self.side_of(security_id, is_buy_side).modify_result(order_id, new_price, new_qty, is_buy_side)
    }

    /// The side of the order after the book's modification, before any re-entry.
    pub open spec fn modified_side(&self, order_id: u64, security_id: u32, new_price: Option<u32>, new_qty: Option<u32>, is_buy_side: bool) -> HalfState {
        self.side_of(security_id, is_buy_side).modified(order_id, new_price, new_qty)
    }

    /// The order `modify` enters again, if any.
    pub open spec fn modify_reentry(&self, order_id: u64, security_id: u32, new_price: Option<u32>, new_qty: Option<u32>, is_buy_side: bool) -> Option<EngineNewOrder> {
        match self.modify_answer(order_id, security_id, new_price, new_qty, is_buy_side) {
            Ok(Some(m)) => reentry(order_id, security_id, is_buy_side, m),
            _ => None,
        }
    }

/// An engine with no book.
    pub fn new() -> (r: Self)
        ensures
            r.books() == Map::<u32, OrderBook>::empty(),
            r.wf(),
    {
        Self { _book: HashMap::new() }
    }

    /// The book of `security_id`, if the engine has one.
    fn get_orderbook(&mut self, security_id: u32) -> (r: Option<&mut OrderBook>)
        ensures
            match r {
                None => !old(self).books().contains_key(security_id) && final(self).books() == old(self).books(),
                Some(book) => {
                    &&& old(self).books().contains_key(security_id)
                    &&& *book == old(self).books()[security_id]
                    &&& final(self).books() == old(self).books().insert(security_id, *final(book))
                },
            },
    {
        match self._book.entry(security_id) {
            Entry::Occupied(e) => Some(e.into_mut()),
            Entry::Vacant(_) => None,
        }
    }

    /// Executes `order` in the book of its security, creating the book when
    /// the security is new.
    pub fn match_order(&mut self, order: EngineNewOrder) -> (r: Result<MatchOutcome, OrderBookError>)
        requires
            old(self).wf(),
            old(self).accepts(order),
        ensures
            final(self).wf(),
            old(self).executed(final(self), order, r),
    {
        let orderbook = self._book.entry(order.security_id).or_insert(OrderBook::new());
        orderbook.match_order(&order)
    }
}

impl MatchingEngine {
    /// Changes the price and/or quantity of a resting order of `security_id`.
    /// When the book takes the order out to change it, it is entered again as
    /// a good-till-cancel order (and may trade). Answers what happened.
    pub fn modify(
        &mut self,
        order_id: u64,
        security_id: u32,
        new_price: Option<u32>,
        new_qty: Option<u32>,
        is_buy_side: bool,
    ) -> (r: Result<&'static str, OrderBookError>)
        requires
            old(self).wf(),
            old(self).books().contains_key(security_id) ==> old(self).side_of(security_id, is_buy_side).modify_defined(order_id, new_price, new_qty),
            old(self).books().contains_key(security_id) ==> match old(self).modify_reentry(order_id, security_id, new_price, new_qty, is_buy_side) {
                None => true,
                Some(o) => {
                    let own = old(self).modified_side(order_id, security_id, new_price, new_qty, is_buy_side);
                    let opp = old(self).side_of(security_id, !is_buy_side);
                    executable(opp, own, o)
                },
            },
        ensures
            final(self).wf(),
            !old(self).books().contains_key(security_id) ==> {
                &&& r == Err::<&'static str, OrderBookError>(OrderBookError::OrderBookNotFound)
                &&& final(self).books() == old(self).books()
            },
            old(self).books().contains_key(security_id) ==> {
                let own = old(self).modified_side(order_id, security_id, new_price, new_qty, is_buy_side);
                let opp = old(self).side_of(security_id, !is_buy_side);
                &&& old(self).only_changed(final(self), security_id)
                &&& r matches Ok(s) && s@ == modify_label(old(self).modify_answer(order_id, security_id, new_price, new_qty, is_buy_side))
                &&& match old(self).modify_reentry(order_id, security_id, new_price, new_qty, is_buy_side) {
                    None => {
                        &&& final(self).side_of(security_id, is_buy_side) == own
                        &&& final(self).side_of(security_id, !is_buy_side) == opp
                    },
                    Some(o) => {
                        let e = execution(opp, own, o);
                        &&& final(self).side_of(security_id, !is_buy_side) == e.0
                        &&& final(self).side_of(security_id, is_buy_side) == e.1
                    },
                }
            },
    {
        let orderbook = self.get_orderbook(security_id);
        let result = match orderbook {
            None => {
                return Err(OrderBookError::OrderBookNotFound);
            },
            Some(book) => book.modify_order(
                order_id,
                EngineModifyOrder { order_id, security_id, new_price, is_buy_side, new_quantity: new_qty },
            ),
        };
        let ghost mid = self.books();
        proof {
            assert(mid.dom() =~= old(self).books().dom());
        }
        let r = match result {
            Ok(potential_modification) => match potential_modification {
                Some(modification_result) => self.reenter(order_id, security_id, is_buy_side, modification_result),
                None => Ok("No potential modification"),
            },
            Err(_) => Ok("No modification occured"),
        };
        proof {
            assert forall|t: u32| t != security_id && #[trigger] old(self).books().contains_key(t)
                implies self.books()[t] == old(self).books()[t] by {
                assert(mid.contains_key(t));
                assert(mid[t] == old(self).books()[t]);
            }
        }
        r
    }

    /// Enters again, as a good-till-cancel order, what a modification took
    /// out of the book; answers the kind of modification.
    fn reenter(&mut self, order_id: u64, security_id: u32, is_buy_side: bool, m: ModifyOutcome) -> (r: Result<&'static str, OrderBookError>)
        requires
            old(self).wf(),
            reentry(order_id, security_id, is_buy_side, m) matches Some(o) ==> old(self).accepts(o),
            old(self).books().contains_key(security_id),
        ensures
            final(self).wf(),
            final(self).books().dom() == old(self).books().dom(),
            r matches Ok(s) && s@ == modify_label(Ok(Some(m))),
            match reentry(order_id, security_id, is_buy_side, m) {
                None => final(self).books() == old(self).books(),
                Some(o) => old(self).executed_books(final(self), o),
            },
    {
        let ghost before = self.books().dom();
        proof {
            assert(before.insert(security_id) =~= before);
        }
        match m {
            ModifyOutcome::Both { new_price, new_initial_qty, old_current_qty } => {
                let _ = self.match_order(EngineNewOrder {
                    engine_order_id: order_id,
                    price: Some(new_price),
                    initial_quantity: new_initial_qty,
                    current_quantity: old_current_qty,
                    is_buy_side,
                    security_id,
                    order_type: OrderType::GoodTillCancel,
                });
                Ok("Both")
            },
            ModifyOutcome::Repriced { new_price, old_initial_qty, old_current_qty } => {
                let _ = self.match_order(EngineNewOrder {
                    engine_order_id: order_id,
                    price: Some(new_price),
                    initial_quantity: old_initial_qty,
                    current_quantity: old_current_qty,
                    is_buy_side,
                    security_id,
                    order_type: OrderType::GoodTillCancel,
                });
                Ok("Repriced")
            },
            ModifyOutcome::Requantized { old_price, new_initial_qty, old_current_qty } => {
                let _ = self.match_order(EngineNewOrder {
                    engine_order_id: order_id,
                    price: Some(old_price),
                    initial_quantity: new_initial_qty,
                    current_quantity: old_current_qty,
                    is_buy_side,
                    security_id,
                    order_type: OrderType::GoodTillCancel,
                });
                Ok("Requantized")
            },
            ModifyOutcome::Inplace => Ok("Inplace"),
        }
    }

    /// The book of `security_id`, if the engine has one.
    pub fn book(&self, security_id: u32) -> (r: Option<&OrderBook>)
        ensures
            match r {
                None => !self.books().contains_key(security_id),
                Some(b) => self.books().contains_key(security_id) && *b == self.books()[security_id],
            },
    {
        self._book.get(&security_id)
    }

    /// The depth of the book of `security_id`; `None` for an unknown security.
    pub fn depth(&self, security_id: u32, levels_count: Option<u32>) -> (r: Option<BookDepth>)
        ensures
            match r {
                None => !self.books().contains_key(security_id),
                Some(d) => {
                    let book = self.books()[security_id];
                    &&& self.books().contains_key(security_id)
                    &&& depth_listing(book.bid.price_map@, d.bid_depth@, levels_count, true)
                    &&& depth_listing(book.ask.price_map@, d.ask_depth@, levels_count, false)
                },
            },
    {
        match self._book.get(&security_id) {
            Some(order_book) => Some(order_book.depth(levels_count)),
            None => None,
        }
    }

    /// Cancels a resting order of `security_id`; answers whether an order
    /// was removed.
    pub fn cancel(&mut self, order_id: u64, security_id: u32, is_buy_side: bool) -> (r: Result<CancelOutcome, OrderBookError>)
        requires
            old(self).wf(),
        ensures
            final(self).wf(),
            !old(self).books().contains_key(security_id) ==> {
                &&& r == Err::<CancelOutcome, OrderBookError>(OrderBookError::OrderBookNotFound)
                &&& final(self).books() == old(self).books()
            },
            old(self).books().contains_key(security_id) ==> {
                let side = old(self).side_of(security_id, is_buy_side);
                &&& old(self).only_changed(final(self), security_id)
                &&& r == Ok::<CancelOutcome, OrderBookError>(
                    if side.cancel_result(order_id, is_buy_side) is Ok { CancelOutcome::Success } else { CancelOutcome::Failed },
                )
                &&& final(self).side_of(security_id, is_buy_side) == side.cancelled(order_id, is_buy_side)
                &&& final(self).side_of(security_id, !is_buy_side) == old(self).side_of(security_id, !is_buy_side)
            },
    {
        let orderbook = self.get_orderbook(security_id);
        let result = match orderbook {
            None => {
                return Err(OrderBookError::OrderBookNotFound);
            },
            Some(book) => book.cancel_order(order_id, EngineCancelOrder { is_buy_side, security_id, order_id }),
        };
        if let Err(_) = result {
            return Ok(CancelOutcome::Failed);
        }
        Ok(CancelOutcome::Success)
    }
}

} // verus!
