use vstd::prelude::*;
use std::collections::HashMap;

verus! {

/// A resting order as it sits in a slot of a half book.
///
/// `next` and `prev` are slot indices of the neighbouring orders at the same
/// price level; `market_limit` is the price at which the order rests.
#[derive(Debug, Clone, Copy)]
pub struct OrderNode {
    pub order_id: u64,
    pub initial_quantity: u32,
    pub current_quantity: u32,
    pub market_limit: u32,
    pub next: Option<usize>,
    pub prev: Option<usize>,
}

/// How an incoming order is executed.
#[derive(Debug, Clone, Copy)]
pub enum OrderType {
    /// Execute against the best opposite levels, whatever their price.
    Market,
    /// Execute up to the order's own price, then rest the remainder.
    GoodTillCancel,
    /// Execute up to the given limit price, then drop the remainder.
    ImmediateOrCancel(u32),
    /// Execute the whole quantity up to the given limit price, or nothing.
    FillOrKill(u32),
}

/// An order handed to the engine. Prices are whole numbers.
#[derive(Debug)]
pub struct EngineNewOrder {
    pub engine_order_id: u64,
    pub price: Option<u32>,
    pub initial_quantity: u32,
    pub current_quantity: u32,
    pub is_buy_side: bool,
    pub security_id: u32,
    pub order_type: OrderType,
}

/// A request to cancel a resting order.
#[derive(Debug)]
pub struct EngineCancelOrder {
    pub order_id: u64,
    pub security_id: u32,
    pub is_buy_side: bool,
}

/// A request to change the price and/or the quantity of a resting order.
#[derive(Debug)]
pub struct EngineModifyOrder {
    pub order_id: u64,
    pub security_id: u32,
    pub is_buy_side: bool,
    pub new_price: Option<u32>,
    pub new_quantity: Option<u32>,
}

/// A map from order ids to slot indices.
#[derive(Debug)]
pub struct OrderRegistry {
    _asset_view: HashMap<u64, usize>,
}

impl OrderRegistry {
    /// The ids the registry knows, with their slots.
    pub closed spec fn view(&self) -> Map<u64, usize> {
        self._asset_view@
    }

/// An empty registry.
    pub fn new() -> (r: Self)
        ensures
            r.view() == Map::<u64, usize>::empty(),
    {
        Self { _asset_view: HashMap::new() }
    }

    /// Records `idx` as the slot of `order_id`; returns the slot it had before.
    pub fn insert(&mut self, order_id: u64, idx: usize) -> (r: Option<usize>)
        ensures
            final(self).view() == old(self).view().insert(order_id, idx),
            r == (if old(self).view().contains_key(order_id) {
                Some(old(self).view()[order_id])
            } else {
                None::<usize>
            }),
    {
        self._asset_view.insert(order_id, idx)
    }

/// Whether `order_id` is registered.
    pub fn order_exist(&self, order_id: u64) -> (r: bool)
        ensures
            r == self.view().contains_key(order_id),
    {
        self._asset_view.contains_key(&order_id)
    }

/// The slot of a registered `order_id`.
    pub fn get_idx(&self, order_id: u64) -> (r: &usize)
        requires
            self.view().contains_key(order_id),
        ensures
            *r == self.view()[order_id],
    {
        self._asset_view.get(&order_id).unwrap()
    }

    /// Forgets `order_id`; returns the slot it had.
    pub fn delete_key(&mut self, order_id: u64) -> (r: Option<usize>)
        ensures
            final(self).view() == old(self).view().remove(order_id),
            r == (if old(self).view().contains_key(order_id) {
                Some(old(self).view()[order_id])
            } else {
                None::<usize>
            }),
    {
        self._asset_view.remove(&order_id)
    }
}

/// The head and tail slots of the FIFO list of one price level, with its
/// order count and the sum of the current quantities resting there.
#[derive(Debug, Clone, Copy)]
pub struct PriceLevel {
    pub head: Option<usize>,
    pub tail: Option<usize>,
    pub order_count: u32,
    pub total_quantity: u32,
}

/// What an incoming order did: the slot it rests in (when it rests), how
/// many resting orders it traded with and how many price levels it removed.
#[derive(Debug, Clone, Copy)]
pub struct MatchOutcome {
    pub order_index: Option<u32>,
    pub orders_touched: u32,
    pub levels_consumed: u32,
}

/// What a modification did to a resting order, and what must be re-entered.
#[derive(Debug, Clone, Copy)]
pub enum ModifyOutcome {
    Inplace,
    Repriced { new_price: u32, old_initial_qty: u32, old_current_qty: u32 },
    Requantized { old_price: u32, new_initial_qty: u32, old_current_qty: u32 },
    Both { new_price: u32, new_initial_qty: u32, old_current_qty: u32 },
}

/// Whether a cancellation removed an order.
#[derive(Debug, Clone, Copy)]
pub enum CancelOutcome {
    Success,
    Failed,
}

/// The price levels of both sides of a book, as reported by `depth`.
#[derive(Debug)]
pub struct BookDepth {
    pub bid_depth: Vec<PriceLevelDepth>,
    pub ask_depth: Vec<PriceLevelDepth>,
}

/// A price level and the quantity resting there.
#[derive(Debug, Clone, Copy)]
pub struct PriceLevelDepth {
    pub price_level: u32,
    pub quantity: u32,
}

#[derive(Debug, Clone, Copy)]
pub enum OrderBookError {
    OrderNotFound,
    NextNotFound,
    PrevNotFound,
    NodeNotFound,
    OrderBookNotFound,
    QuantityUnderflow,
    HeadTailCorrupted,
    SecurityNotFound,
    HeadNotFound,
    PriceNotFound,
    PriceLevelEmpty,
    UnexpectedReturn,
}

} // verus!
