use vstd::prelude::*;
use crate::order_book::proofs::lemma_take_level_frame;
use crate::order_book::types::{
    EngineNewOrder, MatchOutcome, ModifyOutcome, OrderBookError, OrderNode, OrderType, PriceLevel,
    PriceLevelDepth,
};

verus! {

/// The mathematical state of one side of a book.
///
/// `lists[p]` is the FIFO queue of slot indices resting at price `p`, oldest
/// first; `levels`, `pool`, `free` and `registry` are the views of the price
/// map, the slot pool, the free list and the id-to-slot registry.
pub struct HalfState {
    pub levels: Map<u32, PriceLevel>,
    pub lists: Map<u32, Seq<usize>>,
    pub pool: Seq<Option<OrderNode>>,
    pub free: Seq<usize>,
    pub registry: Map<u64, usize>,
}

/// The first slot of a queue, if any.
pub open spec fn first_of(l: Seq<usize>) -> Option<usize> {
    if l.len() == 0 { None } else { Some(l[0]) }
}

/// The last slot of a queue, if any.
pub open spec fn last_of(l: Seq<usize>) -> Option<usize> {
    if l.len() == 0 { None } else { Some(l.last()) }
}

/// The slot that follows position `i` of `l`, if any.
pub open spec fn next_in(l: Seq<usize>, i: int) -> Option<usize> {
    if i + 1 < l.len() { Some(l[i + 1]) } else { None }
}

/// The current quantity held in slot `x` (zero for an empty slot).
pub open spec fn cur_of(pool: Seq<Option<OrderNode>>, x: usize) -> int {
    if x < pool.len() && pool[x as int] is Some {
        pool[x as int]->Some_0.current_quantity as int
    } else {
        0
    }
}

/// The sum of the current quantities of the slots of `l`.
pub open spec fn qty_sum(l: Seq<usize>, pool: Seq<Option<OrderNode>>) -> int
    decreases l.len(),
{
    if l.len() == 0 { 0 } else { cur_of(pool, l[0]) + qty_sum(l.drop_first(), pool) }
}

/// `n` linked forward to `next`.
pub open spec fn with_next(n: OrderNode, next: Option<usize>) -> OrderNode {
    OrderNode {
        order_id: n.order_id,
        initial_quantity: n.initial_quantity,
        current_quantity: n.current_quantity,
        market_limit: n.market_limit,
        next: next,
        prev: n.prev,
    }
}

/// `n` linked backward to `prev`.
pub open spec fn with_prev(n: OrderNode, prev: Option<usize>) -> OrderNode {
    OrderNode {
        order_id: n.order_id,
        initial_quantity: n.initial_quantity,
        current_quantity: n.current_quantity,
        market_limit: n.market_limit,
        next: n.next,
        prev: prev,
    }
}

/// `n` with `q` left to fill.
pub open spec fn with_current(n: OrderNode, q: u32) -> OrderNode {
    OrderNode {
        order_id: n.order_id,
        initial_quantity: n.initial_quantity,
        current_quantity: q,
        market_limit: n.market_limit,
        next: n.next,
        prev: n.prev,
    }
}

/// `n` with initial quantity `q`.
pub open spec fn with_initial(n: OrderNode, q: u32) -> OrderNode {
    OrderNode {
        order_id: n.order_id,
        initial_quantity: q,
        current_quantity: n.current_quantity,
        market_limit: n.market_limit,
        next: n.next,
        prev: n.prev,
    }
}

impl HalfState {
/// The order in slot `x` (meaningful for a live slot).
    pub open spec fn node(self, x: usize) -> OrderNode {
        self.pool[x as int]->Some_0
    }

    /// Slot `x` holds an order.
    pub open spec fn live(self, x: usize) -> bool {
        x < self.pool.len() && self.pool[x as int] is Some
    }

    /// Position `i` of the queue at price `p` is a live order of that price,
    /// with a positive quantity, linked forward to the next position and,
    /// unless it is the head, backward to the previous one.
    pub open spec fn slot_ok(self, p: u32, i: int) -> bool {
        let l = self.lists[p];
        let x = l[i];
        &&& self.live(x)
        &&& self.node(x).market_limit == p
        &&& self.node(x).current_quantity > 0
        &&& self.node(x).next == next_in(l, i)
        &&& i > 0 ==> self.node(x).prev == Some(l[i - 1])
    }

/// The queue at `p` has no repeated slot, every position is well linked,
/// and the level's head, tail, total and count agree with the queue.
    pub open spec fn level_wf(self, p: u32) -> bool {
        let l = self.lists[p];
        let lv = self.levels[p];
        &&& l.no_duplicates()
        &&& forall|i: int| 0 <= i < l.len() ==> #[trigger] self.slot_ok(p, i)
        &&& lv.head == first_of(l)
        &&& lv.tail == last_of(l)
        &&& lv.total_quantity == qty_sum(l, self.pool)
        &&& lv.order_count >= l.len()
    }

    /// Every live slot sits in the queue of its own price.
    pub open spec fn listed(self, x: usize) -> bool {
        let p = self.node(x).market_limit;
        &&& self.lists.contains_key(p)
        &&& self.lists[p].contains(x)
    }

    /// The invariant of a half book.
    pub open spec fn wf(self) -> bool {
        &&& self.lists.dom() == self.levels.dom()
        &&& self.levels.dom().finite()
        &&& forall|p: u32| self.lists.contains_key(p) ==> #[trigger] self.level_wf(p)
        &&& forall|i: int| 0 <= i < self.free.len() ==> {
            &&& #[trigger] self.free[i] < self.pool.len()
            &&& self.pool[self.free[i] as int] is None
        }
        &&& self.free.no_duplicates()
        &&& forall|k: u64| #[trigger] self.registry.contains_key(k) ==> self.registry[k] < self.pool.len()
        &&& forall|x: usize| #[trigger] self.live(x) ==> self.listed(x)
        &&& self.pool.len() <= usize::MAX
    }

/// A side with no level, order, slot or id.
    pub open spec fn empty() -> HalfState {
        HalfState {
            levels: Map::empty(),
            lists: Map::empty(),
            pool: Seq::empty(),
            free: Seq::empty(),
            registry: Map::empty(),
        }
    }
}

/// `pool` with `node` stored in slot `x`: a recycled slot when `recycled`,
/// else a slot appended at the end.
pub open spec fn place(pool: Seq<Option<OrderNode>>, recycled: bool, x: usize, node: OrderNode) -> Seq<Option<OrderNode>> {
    if recycled { pool.update(x as int, Some(node)) } else { pool.push(Some(node)) }
}

impl HalfState {
    /// The slot a new resting order takes: the last freed slot, or a new one.
    pub open spec fn resting_slot(self) -> usize {
        if self.free.len() > 0 { self.free.last() } else { self.pool.len() as usize }
    }

    /// New orders at `p` join the tail of a level that is already there.
    pub open spec fn appends_at(self, p: u32) -> bool {
        &&& self.levels.contains_key(p)
        &&& self.levels[p].total_quantity != 0
        &&& self.levels[p].head is Some
        &&& self.levels[p].tail is Some
    }

    /// Resting `order` at its price does not overflow the level's counters.
    pub open spec fn fits(self, order: OrderNode) -> bool {
        &&& self.free.len() == 0 ==> self.pool.len() < usize::MAX
        &&& self.appends_at(order.market_limit) ==> {
            let lv = self.levels[order.market_limit];
            &&& lv.total_quantity + order.current_quantity <= u32::MAX
            &&& lv.order_count + 1 <= u32::MAX
        }
    }

    /// The half book after `order` rests at the tail of the level of its price
    /// (a fresh level when there is no level, or only an empty one, there).
    pub open spec fn rest(self, order: OrderNode) -> HalfState {
        let p = order.market_limit;
        let x = self.resting_slot();
        let recycled = self.free.len() > 0;
        let free2 = if recycled { self.free.drop_last() } else { self.free };
        let registry2 = self.registry.insert(order.order_id, x);
        if self.appends_at(p) {
            let lv = self.levels[p];
            let t = lv.tail->Some_0;
            let pool1 = place(self.pool, recycled, x, with_prev(order, lv.tail));
            let pool2 = if pool1[t as int] is Some {
                pool1.update(t as int, Some(with_next(pool1[t as int]->Some_0, Some(x))))
            } else {
                pool1
            };
            HalfState {
                levels: self.levels.insert(p, PriceLevel {
                    head: lv.head,
                    tail: Some(x),
                    order_count: (lv.order_count + 1) as u32,
                    total_quantity: (lv.total_quantity + order.current_quantity) as u32,
                }),
                lists: self.lists.insert(p, self.lists[p].push(x)),
                pool: pool2,
                free: free2,
                registry: registry2,
            }
        } else {
            HalfState {
                levels: self.levels.insert(p, PriceLevel {
                    head: Some(x),
                    tail: Some(x),
                    order_count: 1,
                    total_quantity: order.current_quantity,
                }),
                lists: self.lists.insert(p, seq![x]),
                pool: place(self.pool, recycled, x, order),
                free: free2,
                registry: registry2,
            }
        }
    }
}

impl HalfState {
    /// The half book after the live order in slot `x` leaves its queue: its
    /// neighbours are linked to each other, the level shrinks by its quantity
    /// and the slot goes to the end of the free list.
    pub open spec fn unlink(self, x: usize) -> HalfState {
        let n = self.node(x);
        let p = n.market_limit;
        let l = self.lists[p];
        let j = l.index_of(x);
        let lv = self.levels[p];
        let pool1 = self.pool.update(x as int, None);
        let pool2 = if j > 0 {
            let y = l[j - 1];
            pool1.update(y as int, Some(with_next(pool1[y as int]->Some_0, n.next)))
        } else {
            pool1
        };
        let pool3 = if j + 1 < l.len() {
            let z = l[j + 1];
            pool2.update(z as int, Some(with_prev(pool2[z as int]->Some_0, if j == 0 { None } else { n.prev })))
        } else {
            pool2
        };
        let l2 = l.remove(j);
        HalfState {
            levels: self.levels.insert(p, PriceLevel {
                head: first_of(l2),
                tail: last_of(l2),
                order_count: (lv.order_count - 1) as u32,
                total_quantity: (lv.total_quantity - n.current_quantity) as u32,
            }),
            lists: self.lists.insert(p, l2),
            pool: pool3,
            free: self.free.push(x),
            registry: self.registry,
        }
    }
}

impl HalfState {
    /// What cancelling `order_id` answers: the id must be registered and its
    /// slot must hold an order. An empty slot is reported as
    /// `OrderNotFound` on the bid side and as `NodeNotFound` on the ask side.
    pub open spec fn cancel_result(self, order_id: u64, is_bid: bool) -> Result<(), OrderBookError> {
        if !self.registry.contains_key(order_id) {
            Err(OrderBookError::OrderNotFound)
        } else if !self.live(self.registry[order_id]) {
            if is_bid { Err(OrderBookError::OrderNotFound) } else { Err(OrderBookError::NodeNotFound) }
        } else {
            Ok(())
        }
    }

    /// The half book after cancelling `order_id`: unchanged when it fails.
    pub open spec fn cancelled(self, order_id: u64, is_bid: bool) -> HalfState {
        if self.cancel_result(order_id, is_bid) is Ok {
            self.unlink(self.registry[order_id])
        } else {
            self
        }
    }
}

impl HalfState {
    /// A modification that names neither a price nor a quantity of a live
    /// order cannot be carried out.
    pub open spec fn modify_defined(self, order_id: u64, new_price: Option<u32>, new_quantity: Option<u32>) -> bool {
        (new_price is Some || new_quantity is Some) || !(self.registry.contains_key(order_id)
            && self.live(self.registry[order_id]))
    }

    /// What modifying `order_id` answers. A new price (with or without a new
    /// quantity), or a larger quantity, takes the order out of the book and
    /// reports what must be entered again; a quantity no larger than the
    /// initial one is changed in place. A new price equal to the old one
    /// together with a new quantity changes nothing.
    pub open spec fn modify_result(
        self,
        order_id: u64,
        new_price: Option<u32>,
        new_quantity: Option<u32>,
        is_bid: bool,
    ) -> Result<Option<ModifyOutcome>, OrderBookError> {
        if !self.registry.contains_key(order_id) {
            Err(OrderBookError::OrderNotFound)
        } else if !self.live(self.registry[order_id]) {
            Err(OrderBookError::NodeNotFound)
        } else {
            let n = self.node(self.registry[order_id]);
            match (new_price, new_quantity) {
                (Some(np), Some(nq)) => {
                    if np != n.market_limit {
                        if is_bid {
                            Ok(Some(ModifyOutcome::Both {
                                new_price: np,
                                new_initial_qty: nq,
                                old_current_qty: n.current_quantity,
                            }))
                        } else {
                            Ok(Some(ModifyOutcome::Requantized {
                                old_price: n.market_limit,
                                new_initial_qty: nq,
                                old_current_qty: n.current_quantity,
                            }))
                        }
                    } else {
                        Ok(None)
                    }
                },
                (None, Some(nq)) => {
                    if nq > n.initial_quantity {
                        Ok(Some(ModifyOutcome::Requantized {
                            old_price: n.market_limit,
                            new_initial_qty: nq,
                            old_current_qty: n.current_quantity,
                        }))
                    } else {
                        Ok(Some(ModifyOutcome::Inplace))
                    }
                },
                (_, None) => Ok(Some(ModifyOutcome::Repriced {
                    new_price: new_price->Some_0,
                    old_initial_qty: n.initial_quantity,
                    old_current_qty: n.current_quantity,
                })),
            }
        }
    }

    /// The half book after modifying `order_id`.
    pub open spec fn modified(self, order_id: u64, new_price: Option<u32>, new_quantity: Option<u32>) -> HalfState {
        if !self.registry.contains_key(order_id) || !self.live(self.registry[order_id]) {
            self
        } else {
            let x = self.registry[order_id];
            let n = self.node(x);
            match (new_price, new_quantity) {
                (Some(np), Some(nq)) => if np != n.market_limit { self.unlink(x) } else { self },
                (None, Some(nq)) => {
                    if nq > n.initial_quantity {
                        self.unlink(x)
                    } else {
                        HalfState { pool: self.pool.update(x as int, Some(with_initial(n, nq))), ..self }
                    }
                },
                (_, None) => self.unlink(x),
            }
        }
    }
}

impl HalfState {
    /// The oldest order at `p` is filled completely: it leaves the queue and
    /// its slot goes to the free list. The level emptied by its last order is
    /// zeroed.
    pub open spec fn pop_head(self, p: u32) -> HalfState {
        let lv = self.levels[p];
        let l = self.lists[p];
        let h = l[0];
        let n = self.node(h);
        let lv2 = if n.next is Some {
            PriceLevel {
                head: n.next,
                tail: lv.tail,
                order_count: lv.order_count,
                total_quantity: (lv.total_quantity - n.current_quantity) as u32,
            }
        } else {
            PriceLevel { head: None, tail: None, order_count: 0, total_quantity: 0 }
        };
        HalfState {
            levels: self.levels.insert(p, lv2),
            lists: self.lists.insert(p, l.drop_first()),
            pool: self.pool.update(h as int, None),
            free: self.free.push(h),
            registry: self.registry,
        }
    }

    /// The oldest order at `p` is filled by `f`, less than its quantity.
    pub open spec fn shave_head(self, p: u32, f: int) -> HalfState {
        let lv = self.levels[p];
        let h = self.lists[p][0];
        let n = self.node(h);
        HalfState {
            levels: self.levels.insert(p, PriceLevel {
                head: lv.head,
                tail: lv.tail,
                order_count: lv.order_count,
                total_quantity: (lv.total_quantity - f) as u32,
            }),
            pool: self.pool.update(h as int, Some(with_current(n, (n.current_quantity - f) as u32))),
            ..self
        }
    }

    /// Fills up to `fill` from the level at `p`, oldest order first. Returns
    /// the new state, the quantity left to fill and the number of resting
    /// orders traded with.
    pub open spec fn take_level(self, p: u32, fill: int) -> (HalfState, int, int)
        decreases self.lists[p].len(),
    {
        let lv = self.levels[p];
        let l = self.lists[p];
        if lv.total_quantity == 0 || fill <= 0 || l.len() == 0 {
            (self, fill, 0)
        } else {
            let n = self.node(l[0]);
            if fill >= n.current_quantity {
                let r = self.pop_head(p).take_level(p, fill - n.current_quantity);
                (r.0, r.1, r.2 + 1)
            } else {
                (self.shave_head(p, fill), 0, 1)
            }
        }
    }

    /// The half book without the level at `p`.
    pub open spec fn drop_level(self, p: u32) -> HalfState {
        HalfState { levels: self.levels.remove(p), lists: self.lists.remove(p), ..self }
    }

    /// The best price: the highest one when `highest`, else the lowest.
    pub open spec fn best_price(self, highest: bool) -> u32 {
        best_key(self.levels, highest)
    }

    /// Fills up to `fill` from the best levels in turn, as long as their price
    /// is within `limit`; a level that empties is removed. Returns the new
    /// state, the quantity left, the number of resting orders traded with and
    /// the number of levels removed.
    pub open spec fn take_side(self, fill: int, limit: Option<u32>, highest: bool) -> (HalfState, int, int, int)
        decreases self.levels.dom().len(),
        when self.levels.dom().finite()
    {
        if fill <= 0 || self.levels.dom().len() == 0 {
            (self, fill, 0, 0)
        } else {
            let p = self.best_price(highest);
            if !self.levels.contains_key(p) || !within(p, limit, highest) {
                (self, fill, 0, 0)
            } else {
                let r = self.take_level(p, fill);
                if r.0.levels[p].total_quantity == 0 {
                    proof {
                        lemma_take_level_frame(self, p, fill);
                    }
                    let rest = r.0.drop_level(p).take_side(r.1, limit, highest);
                    (rest.0, rest.1, r.2 + rest.2, rest.3 + 1)
                } else {
                    (r.0, r.1, r.2, 0)
                }
            }
        }
    }
}

/// The quantity resting on a side: the sum of the totals of its levels.
pub open spec fn total_of(m: Map<u32, PriceLevel>) -> int
    decreases m.dom().len(),
    when m.dom().finite()
{
    if m.dom().len() == 0 {
        0
    } else {
        let k = m.dom().choose();
        m[k].total_quantity + total_of(m.remove(k))
    }
}

/// The levels of `m` whose price is within `limit` (see `within`).
pub open spec fn within_part(m: Map<u32, PriceLevel>, limit: u32, highest: bool) -> Map<u32, PriceLevel> {
    Map::new(|k: u32| m.contains_key(k) && within(k, Some(limit), highest), |k: u32| m[k])
}

/// The quantity resting at the levels of `m` within `limit`.
#[verifier::opaque]
pub open spec fn quantity_within(m: Map<u32, PriceLevel>, limit: u32, highest: bool) -> int {
    total_of(within_part(m, limit, highest))
}

/// The highest key of `m` when `highest`, else the lowest.
pub open spec fn best_key(m: Map<u32, PriceLevel>, highest: bool) -> u32 {
    choose|k: u32|
        m.contains_key(k) && forall|j: u32| #[trigger] m.contains_key(j) ==> (if highest { j <= k } else { k <= j })
}

/// The quantity a fill-or-kill order limited to `limit` finds: the totals of
/// the best levels within the limit, added in turn onto `acc` until they
/// reach `need`; `None` when the sum leaves the `u32` range first.
pub open spec fn fok_scan(levels: Map<u32, PriceLevel>, limit: u32, highest: bool, acc: int, need: int) -> Option<int>
    decreases levels.dom().len(),
    when levels.dom().finite()
{
    if levels.dom().len() == 0 {
        Some(acc)
    } else {
        let p = best_key(levels, highest);
        if !levels.contains_key(p) || !within(p, Some(limit), highest) {
            Some(acc)
        } else {
            let acc2 = acc + levels[p].total_quantity;
            if acc2 > u32::MAX {
                None
            } else if acc2 >= need {
                Some(acc2)
            } else {
                fok_scan(levels.remove(p), limit, highest, acc2, need)
            }
        }
    }
}

/// The order a good-till-cancel remainder of `left` rests as.
pub open spec fn resting_node(order: EngineNewOrder, left: u32) -> OrderNode {
    OrderNode {
        order_id: order.engine_order_id,
        initial_quantity: order.initial_quantity,
        current_quantity: left,
        market_limit: order.price->Some_0,
        next: None,
        prev: None,
    }
}

/// A match outcome with the given counts.
pub open spec fn outcome(order_index: Option<u32>, touched: int, levels: int) -> MatchOutcome {
    MatchOutcome { order_index, orders_touched: touched as u32, levels_consumed: levels as u32 }
}

/// What executing `order` does to the side it trades against (`opp`) and to
/// its own side (`own`), and what it answers.
///
/// A sell order trades against the bids, highest price first; a buy order
/// against the asks, lowest price first. A market order takes whatever it
/// finds; an immediate-or-cancel order stops at its limit and drops the rest;
/// a good-till-cancel order stops at its price and rests the remainder on its
/// own side; a fill-or-kill order trades only when the levels within its
/// limit hold its whole quantity.
#[verifier::opaque]
pub open spec fn execution(opp: HalfState, own: HalfState, order: EngineNewOrder) -> (HalfState, HalfState, Result<MatchOutcome, OrderBookError>) {
    let highest = !order.is_buy_side;
    let need = order.initial_quantity as int;
    match order.order_type {
        OrderType::Market => {
            let r = opp.take_side(need, None, highest);
            (r.0, own, Ok(outcome(None, r.2, r.3)))
        },
        OrderType::ImmediateOrCancel(lim) => {
            let r = opp.take_side(need, Some(lim), highest);
            (r.0, own, Ok(outcome(None, r.2, r.3)))
        },
        OrderType::GoodTillCancel => {
            match order.price {
                None => {
                    if need == 0 {
                        (opp, own, Ok(outcome(None, 0, 0)))
                    } else {
                        (opp, own, Err(OrderBookError::PriceNotFound))
                    }
                },
                Some(price) => {
                    let r = opp.take_side(need, Some(price), highest);
                    if r.1 > 0 {
                        (
                            r.0,
                            own.rest(resting_node(order, r.1 as u32)),
                            Ok(outcome(Some(own.resting_slot() as u32), r.2, r.3)),
                        )
                    } else {
                        (r.0, own, Ok(outcome(None, r.2, r.3)))
                    }
                },
            }
        },
        OrderType::FillOrKill(lim) => {
            match fok_scan(opp.levels, lim, highest, 0, need) {
                None => (opp, own, Err(OrderBookError::QuantityUnderflow)),
                Some(available) => {
                    if available < need {
                        (opp, own, Ok(outcome(None, 0, 0)))
                    } else {
                        let r = opp.take_side(need, Some(lim), highest);
                        (r.0, own, Ok(outcome(None, r.2, r.3)))
                    }
                },
            }
        },
    }
}

/// `order` can be executed without overflow or a missing price: the side it
/// trades against has at most `u32::MAX` levels, a good-till-cancel order
/// that finds levels has a price, and its remainder fits its level.
pub open spec fn executable(opp: HalfState, own: HalfState, order: EngineNewOrder) -> bool {
    &&& opp.levels.dom().len() <= u32::MAX
    &&& order.order_type is GoodTillCancel ==> match order.price {
        None => order.initial_quantity > 0 ==> opp.levels.dom().len() > 0,
        Some(price) => {
            let r = opp.take_side(order.initial_quantity as int, Some(price), !order.is_buy_side);
            r.1 > 0 ==> own.fits(resting_node(order, r.1 as u32))
        },
    }
}

/// `out` lists the first levels of `m` in price order (ascending when
/// `ascending`, else descending), `count` of them (all of them when `count`
/// is `None` or larger), each with its total quantity.
pub open spec fn depth_listing(m: Map<u32, PriceLevel>, out: Seq<PriceLevelDepth>, count: Option<u32>, ascending: bool) -> bool {
    &&& out.len() == match count {
        None => m.dom().len() as int,
        Some(n) => if n < m.dom().len() { n as int } else { m.dom().len() as int },
    }
    &&& forall|i: int| 0 <= i < out.len() ==> m.contains_key(#[trigger] out[i].price_level)
        && out[i].quantity == m[out[i].price_level].total_quantity
    &&& forall|i: int, j: int| 0 <= i < j < out.len() ==> (if ascending {
        out[i].price_level < out[j].price_level
    } else {
        out[i].price_level > out[j].price_level
    })
    &&& forall|k: u32, i: int|
        #![trigger m.contains_key(k), out[i]]
        m.contains_key(k) && 0 <= i < out.len() && (if ascending {
            k < out[i].price_level
        } else {
            k > out[i].price_level
        }) ==> exists|j: int| 0 <= j < i && out[j].price_level == k
}

/// A level at price `p` may be traded against an order limited to `limit`:
/// at or above it on the bid side (`highest`), at or below it on the ask side.
pub open spec fn within(p: u32, limit: Option<u32>, highest: bool) -> bool {
    match limit {
        None => true,
        Some(lim) => if highest { lim <= p } else { p <= lim },
    }
}

} // verus!
