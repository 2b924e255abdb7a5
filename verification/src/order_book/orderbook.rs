use vstd::prelude::*;
use std::collections::{BTreeMap, HashMap};
use crate::order_book::depth::levels_ascending;
use crate::order_book::types::{
    BookDepth, EngineCancelOrder, EngineModifyOrder, EngineNewOrder, MatchOutcome, ModifyOutcome,
    OrderBookError, OrderNode, OrderType, PriceLevel, PriceLevelDepth,
};
use crate::order_book::model::{
    HalfState, qty_sum, within, best_key, fok_scan, execution, executable, resting_node,
    depth_listing,
};
use crate::order_book::proofs::{
    lemma_rest_wf, lemma_resting_slot_free, lemma_place, lemma_live_position, lemma_unlink_pool,
    lemma_unlink_wf, lemma_qty_sum_remove, lemma_qty_sum_nonneg, lemma_qty_sum_pos,
    lemma_set_initial_wf, lemma_pop_head_wf, lemma_shave_head_wf, lemma_drop_level_wf,
    lemma_take_level_frame,
};

verus! {

/// One side of a book: price levels, the id-to-slot registry, the slot pool
/// and the free list of recyclable slots.
pub struct HalfBook {
    pub price_map: BTreeMap<u32, PriceLevel>,
    pub order_registry: HashMap<u64, usize>,
    pub order_pool: Vec<Option<OrderNode>>,
    pub free_list: Vec<usize>,
    /// The FIFO queue of slots at each price, oldest first.
    pub lists: Ghost<Map<u32, Seq<usize>>>,
}

impl HalfBook {
    /// The mathematical state of this side.
    pub open spec fn state(&self) -> HalfState {
        HalfState {
            levels: self.price_map@,
            lists: self.lists@,
            pool: self.order_pool@,
            free: self.free_list@,
            registry: self.order_registry@,
        }
    }

    /// The invariant every operation of the book keeps.
    pub open spec fn wf(&self) -> bool {
        self.state().wf()
    }

/// An empty side.
    pub fn new() -> (r: Self)
        ensures
            r.state() == HalfState::empty(),
            r.wf(),
    {
        Self {
            price_map: BTreeMap::new(),
            order_registry: HashMap::new(),
            order_pool: Vec::new(),
            free_list: Vec::new(),
            lists: Ghost(Map::empty()),
        }
    }
}

impl HalfBook {
    /// Rests `resting_order` at the tail of the level of its price, in the
    /// last freed slot or in a new one; returns the slot.
    pub fn rest_order(&mut self, resting_order: OrderNode) -> (r: usize)
        requires
            old(self).wf(),
            old(self).state().fits(resting_order),
        ensures
            r == old(self).state().resting_slot(),
            final(self).state() == old(self).state().rest(resting_order),
            resting_order.current_quantity > 0 && resting_order.next is None ==> final(self).wf(),
    {
        let ghost st = self.state();
        proof {
            lemma_resting_slot_free(st);
            if resting_order.current_quantity > 0 && resting_order.next is None {
                lemma_rest_wf(st, resting_order);
            }
        }
        let mut order = resting_order;
        let order_quantity = order.current_quantity;
        let price = order.market_limit;
        let order_id = order.order_id;
        let appends = match self.price_map.get(&price) {
            Some(level) => !(level.total_quantity == 0 || level.head.is_none() || level.tail.is_none()),
            None => false,
        };
        let recycled = self.free_list.len() > 0;
        if appends {
            let level = *self.price_map.get(&price).unwrap();
            order.prev = level.tail;
            let prev_tail_idx = level.tail.unwrap();
            proof {
                lemma_place(st.pool, recycled, st.resting_slot(), order);
                assert(st.level_wf(price));
                assert(st.slot_ok(price, st.lists[price].len() - 1));
            }
            let idx = if recycled {
                let free_index = self.free_list.pop().unwrap();
                self.order_pool.set(free_index, Some(order));
                free_index
            } else {
                self.order_pool.push(Some(order));
                self.order_pool.len() - 1
            };
            self.order_registry.insert(order_id, idx);
            self.price_map.insert(price, PriceLevel {
                head: level.head,
                tail: Some(idx),
                order_count: level.order_count + 1,
                total_quantity: level.total_quantity + order_quantity,
            });
            match self.order_pool[prev_tail_idx] {
                Some(prev_order) => {
                    self.order_pool.set(prev_tail_idx, Some(OrderNode { next: Some(idx), ..prev_order }));
                },
                None => {},
            }
            proof {
                self.lists@ = self.lists@.insert(price, self.lists@[price].push(idx));
                assert(self.order_pool@ =~= st.rest(resting_order).pool);
                assert(self.free_list@ =~= st.rest(resting_order).free);
            }
            idx
        } else {
            proof {
                lemma_place(st.pool, recycled, st.resting_slot(), order);
            }
            let idx = if recycled {
                let free_index = self.free_list.pop().unwrap();
                self.order_pool.set(free_index, Some(order));
                free_index
            } else {
                self.order_pool.push(Some(order));
                self.order_pool.len() - 1
            };
            self.order_registry.insert(order_id, idx);
            self.price_map.insert(price, PriceLevel {
                head: Some(idx),
                tail: Some(idx),
                order_count: 1,
                total_quantity: order_quantity,
            });
            proof {
                self.lists@ = self.lists@.insert(price, seq![idx]);
                assert(self.order_pool@ =~= st.rest(resting_order).pool);
                assert(self.free_list@ =~= st.rest(resting_order).free);
            }
            idx
        }
    }
}

impl HalfBook {
    /// Removes the order registered as `order_id` from its price level and
    /// frees its slot. The registry keeps the id.
    pub fn cancel_order(&mut self, order_id: u64, is_buy_side: bool) -> (r: Result<(), OrderBookError>)
        requires
            old(self).wf(),
        ensures
            r == old(self).state().cancel_result(order_id, is_buy_side),
            final(self).state() == old(self).state().cancelled(order_id, is_buy_side),
            final(self).wf(),
    {
        let ghost st = self.state();
        let idx = match self.order_registry.get(&order_id) {
            Some(i) => *i,
            None => {
                return Err(OrderBookError::OrderNotFound);
            },
        };
        proof {
            assert(st.registry.contains_key(order_id));
        }
        let (prev, next, old_price, old_quantity) = match self.order_pool[idx] {
            Some(node) => (node.prev, node.next, node.market_limit, node.current_quantity),
            None => {
                if is_buy_side {
                    return Err(OrderBookError::OrderNotFound);
                } else {
                    return Err(OrderBookError::NodeNotFound);
                }
            },
        };
        proof {
            lemma_live_position(st, idx);
            lemma_unlink_pool(st, idx);
            lemma_unlink_wf(st, idx);
            let l0 = st.lists[old_price];
            lemma_qty_sum_remove(l0, st.pool, l0.index_of(idx));
            lemma_qty_sum_nonneg(l0.remove(l0.index_of(idx)), st.pool);
        }
        let ghost l = st.lists[old_price];
        let ghost j = l.index_of(idx);
        let mut level = match self.price_map.get(&old_price) {
            Some(level) => *level,
            None => {
                return Err(OrderBookError::NodeNotFound);
            },
        };
        if level.head.is_some() && level.tail.is_some() {
            let head = level.head.unwrap();
            let tail = level.tail.unwrap();
            if idx == head && idx == tail {
                level.head = None;
                level.tail = None;
            } else if idx == tail {
                match prev {
                    Some(prev_index) => {
                        if prev_index < self.order_pool.len() {
                            match self.order_pool[prev_index] {
                                Some(prev_node) => {
                                    self.order_pool.set(prev_index, Some(OrderNode { next: None, ..prev_node }));
                                    level.tail = Some(prev_index);
                                },
                                None => {},
                            }
                        }
                    },
                    None => {
                        return Err(OrderBookError::PrevNotFound);
                    },
                }
            } else if idx == head {
                match next {
                    Some(next_index) => {
                        if next_index < self.order_pool.len() {
                            match self.order_pool[next_index] {
                                Some(next_node) => {
                                    self.order_pool.set(next_index, Some(OrderNode { prev: None, ..next_node }));
                                    level.head = Some(next_index);
                                },
                                None => {},
                            }
                        }
                    },
                    None => {
                        return Err(OrderBookError::NextNotFound);
                    },
                }
            } else {
                match prev {
                    Some(prev_index) => {
                        if prev_index < self.order_pool.len() {
                            match self.order_pool[prev_index] {
                                Some(prev_node) => {
                                    self.order_pool.set(prev_index, Some(OrderNode { next: next, ..prev_node }));
                                },
                                None => {},
                            }
                        }
                    },
                    None => {
                        return Err(OrderBookError::PrevNotFound);
                    },
                }
                match next {
                    Some(next_index) => {
                        if next_index < self.order_pool.len() {
                            match self.order_pool[next_index] {
                                Some(next_node) => {
                                    self.order_pool.set(next_index, Some(OrderNode { prev: prev, ..next_node }));
                                },
                                None => {},
                            }
                        }
                    },
                    None => {
                        return Err(OrderBookError::NextNotFound);
                    },
                }
            }
            self.order_pool.set(idx, None);
            level.total_quantity = match level.total_quantity.checked_sub(old_quantity) {
                Some(q) => q,
                None => {
                    return Err(OrderBookError::QuantityUnderflow);
                },
            };
            level.order_count = match level.order_count.checked_sub(1) {
                Some(c) => c,
                None => {
                    return Err(OrderBookError::QuantityUnderflow);
                },
            };
            self.price_map.insert(old_price, level);
            self.free_list.push(idx);
            proof {
                self.lists@ = self.lists@.insert(old_price, l.remove(j));
                assert(self.order_pool@ =~= st.unlink(idx).pool);
            }
            Ok(())
        } else {
            self.price_map.remove(&old_price);
            Err(OrderBookError::HeadTailCorrupted)
        }
    }
}

impl HalfBook {
    /// Changes the price and/or quantity of the order registered as
    /// `order_id`. A change that needs the order to be entered again takes it
    /// out of the book and says so; a smaller initial quantity is set in place.
    pub fn modify_order(
        &mut self,
        order_id: u64,
        new_price: Option<u32>,
        new_quantity: Option<u32>,
        is_buy_side: bool,
    ) -> (r: Result<Option<ModifyOutcome>, OrderBookError>)
        requires
            old(self).wf(),
            old(self).state().modify_defined(order_id, new_price, new_quantity),
        ensures
            r == old(self).state().modify_result(order_id, new_price, new_quantity, is_buy_side),
            final(self).state() == old(self).state().modified(order_id, new_price, new_quantity),
            final(self).wf(),
    {
        let ghost st = self.state();
        let idx = match self.order_registry.get(&order_id) {
            Some(i) => *i,
            None => {
                return Err(OrderBookError::OrderNotFound);
            },
        };
        proof {
            assert(st.registry.contains_key(order_id));
        }
        let (old_initial_qty, old_current_qty, old_price) = match self.order_pool[idx] {
            Some(node) => (node.initial_quantity, node.current_quantity, node.market_limit),
            None => {
                return Err(OrderBookError::NodeNotFound);
            },
        };
        if new_price.is_some() && new_quantity.is_some() {
            let np = new_price.unwrap();
            let nq = new_quantity.unwrap();
            if np != old_price {
                if let Ok(_) = self.cancel_order(order_id, is_buy_side) {
                    if is_buy_side {
                        return Ok(Some(ModifyOutcome::Both { new_price: np, new_initial_qty: nq, old_current_qty }));
                    } else {
                        return Ok(Some(ModifyOutcome::Requantized { old_price, new_initial_qty: nq, old_current_qty }));
                    }
                }
            }
            Ok(None)
        } else if new_quantity.is_some() {
            let nq = new_quantity.unwrap();
            if nq > old_initial_qty {
                if let Ok(_) = self.cancel_order(order_id, is_buy_side) {
                    return Ok(Some(ModifyOutcome::Requantized { old_price, new_initial_qty: nq, old_current_qty }));
                }
                Ok(None)
            } else {
                match self.order_pool[idx] {
                    Some(order_node) => {
                        proof {
                            lemma_set_initial_wf(st, idx, nq);
                        }
                        self.order_pool.set(idx, Some(OrderNode { initial_quantity: nq, ..order_node }));
                        Ok(Some(ModifyOutcome::Inplace))
                    },
                    None => Err(OrderBookError::NodeNotFound),
                }
            }
        } else {
            if let Ok(_) = self.cancel_order(order_id, is_buy_side) {
                return Ok(Some(ModifyOutcome::Repriced {
                    new_price: new_price.unwrap(),
                    old_initial_qty,
                    old_current_qty,
                }));
            }
            Ok(None)
        }
    }
}

/// The highest price of the map, by `BTreeMap::last_key_value`.
#[verifier::external_body]
fn highest_price(m: &BTreeMap<u32, PriceLevel>) -> (r: Option<u32>)
    ensures
        match r {
            None => m@.dom().len() == 0,
            Some(k) => m@.contains_key(k) && forall|j: u32| m@.contains_key(j) ==> j <= k,
        },
{
    m.last_key_value().map(|kv| *kv.0)
}

/// The lowest price of the map, by `BTreeMap::first_key_value`.
#[verifier::external_body]
fn lowest_price(m: &BTreeMap<u32, PriceLevel>) -> (r: Option<u32>)
    ensures
        match r {
            None => m@.dom().len() == 0,
            Some(k) => m@.contains_key(k) && forall|j: u32| m@.contains_key(j) ==> k <= j,
        },
{
    m.first_key_value().map(|kv| *kv.0)
}

impl HalfBook {
    /// Fills up to `fill` from the level at `price`, oldest order first;
    /// returns the quantity left and the number of orders traded with.
    pub fn take_level(&mut self, price: u32, fill: u32) -> (r: (u32, u32))
        requires
            old(self).wf(),
            old(self).price_map@.contains_key(price),
        ensures
            final(self).state() == old(self).state().take_level(price, fill as int).0,
            r.0 as int == old(self).state().take_level(price, fill as int).1,
            r.1 as int == old(self).state().take_level(price, fill as int).2,
            r.0 + r.1 <= fill,
            final(self).price_map@[price].total_quantity == 0 || r.0 == 0,
            final(self).wf(),
    {
        let ghost st0 = self.state();
        let ghost target = st0.take_level(price, fill as int);
        let ghost fill0 = fill;
        let mut level = *self.price_map.get(&price).unwrap();
        let mut fill = fill;
        let mut touched: u32 = 0;
        proof {
            assert(st0.levels.insert(price, level) =~= st0.levels);
        }
        while level.total_quantity > 0 && fill > 0
            invariant
                self.price_map@ == st0.levels,
                st0.levels.contains_key(price),
                touched + fill <= fill0,
                ({
                    let cur = HalfState {
                        levels: st0.levels.insert(price, level),
                        lists: self.lists@,
                        pool: self.order_pool@,
                        free: self.free_list@,
                        registry: self.order_registry@,
                    };
                    &&& cur.wf()
                    &&& cur.take_level(price, fill as int).0 == target.0
                    &&& cur.take_level(price, fill as int).1 == target.1
                    &&& cur.take_level(price, fill as int).2 + touched == target.2
                }),
            decreases fill,
        {
            let ghost cur = HalfState {
                levels: st0.levels.insert(price, level),
                lists: self.lists@,
                pool: self.order_pool@,
                free: self.free_list@,
                registry: self.order_registry@,
            };
            proof {
                assert(cur.level_wf(price));
                if cur.lists[price].len() == 0 {
                    assert(qty_sum(cur.lists[price], cur.pool) == 0);
                }
                assert(cur.slot_ok(price, 0));
                lemma_qty_sum_nonneg(cur.lists[price].drop_first(), cur.pool);
            }
            let head_idx = level.head.unwrap();
            let node = self.order_pool[head_idx].unwrap();
            if fill >= node.current_quantity {
                proof {
                    lemma_pop_head_wf(cur, price);
                }
                fill = fill - node.current_quantity;
                level.total_quantity = level.total_quantity - node.current_quantity;
                self.order_pool.set(head_idx, None);
                self.free_list.push(head_idx);
                touched = touched + 1;
                proof {
                    self.lists@ = self.lists@.insert(price, self.lists@[price].drop_first());
                }
                match node.next {
                    Some(next_order_idx) => {
                        level.head = Some(next_order_idx);
                    },
                    None => {
                        level.total_quantity = 0;
                        level.head = None;
                        level.tail = None;
                        level.order_count = 0;
                    },
                }
                proof {
                    assert(st0.levels.insert(price, level) =~= cur.pop_head(price).levels);
                }
            } else {
                let ghost f = fill;
                proof {
                    lemma_shave_head_wf(cur, price, fill as int);
                }
                self.order_pool.set(head_idx, Some(OrderNode { current_quantity: node.current_quantity - fill, ..node }));
                level.total_quantity = level.total_quantity - fill;
                fill = 0;
                touched = touched + 1;
                proof {
                    assert(st0.levels.insert(price, level) =~= cur.shave_head(price, f as int).levels);
                    assert(self.order_pool@ =~= cur.shave_head(price, f as int).pool);
                }
            }
        }
        self.price_map.insert(price, level);
        (fill, touched)
    }
}

impl HalfBook {
    /// Fills up to `fill` from the best levels of this side in turn (the
    /// highest prices first when `highest`, else the lowest), as long as their
    /// price is within `limit`, removing each level it empties. Returns the
    /// quantity left, the number of orders traded with and the number of
    /// levels removed.
    pub fn take_side(&mut self, fill: u32, limit: Option<u32>, highest: bool) -> (r: (u32, u32, u32))
        requires
            old(self).wf(),
            old(self).price_map@.dom().len() <= u32::MAX,
        ensures
            final(self).state() == old(self).state().take_side(fill as int, limit, highest).0,
            r.0 as int == old(self).state().take_side(fill as int, limit, highest).1,
            r.1 as int == old(self).state().take_side(fill as int, limit, highest).2,
            r.2 as int == old(self).state().take_side(fill as int, limit, highest).3,
            final(self).wf(),
    {
        let ghost st0 = self.state();
        let ghost target = st0.take_side(fill as int, limit, highest);
        let ghost fill0 = fill;
        let mut fill = fill;
        let mut touched: u32 = 0;
        let mut levels_consumed: u32 = 0;
        loop
            invariant
                self.wf(),
                touched + fill <= fill0,
                levels_consumed + self.price_map@.dom().len() == st0.levels.dom().len(),
                st0.levels.dom().len() <= u32::MAX,
                self.state().take_side(fill as int, limit, highest).0 == target.0,
                self.state().take_side(fill as int, limit, highest).1 == target.1,
                self.state().take_side(fill as int, limit, highest).2 + touched == target.2,
                self.state().take_side(fill as int, limit, highest).3 + levels_consumed == target.3,
            ensures
                self.wf(),
                self.state() == target.0,
                fill as int == target.1,
                touched as int == target.2,
                levels_consumed as int == target.3,
            decreases self.price_map@.dom().len(),
        {
            let ghost cur = self.state();
            if fill == 0 {
                break;
            }
            let best = if highest { highest_price(&self.price_map) } else { lowest_price(&self.price_map) };
            let price = match best {
                None => {
                    break;
                },
                Some(p) => p,
            };
            proof {
                assert(cur.levels.contains_key(price));
                assert(cur.best_price(highest) == price);
            }
            let ok = match limit {
                None => true,
                Some(lim) => if highest { lim <= price } else { price <= lim },
            };
            if !ok {
                break;
            }
            proof {
                lemma_take_level_frame(cur, price, fill as int);
            }
            let (left, t) = self.take_level(price, fill);
            fill = left;
            touched = touched + t;
            if self.price_map.get(&price).unwrap().total_quantity == 0 {
                let ghost mid = self.state();
                proof {
                    assert(mid.level_wf(price));
                    if mid.lists[price].len() > 0 {
                        assert(mid.slot_ok(price, 0));
                        lemma_qty_sum_pos(mid.lists[price], mid.pool);
                    }
                    lemma_drop_level_wf(mid, price);
                }
                self.price_map.remove(&price);
                proof {
                    self.lists@ = self.lists@.remove(price);
                    assert(self.state() == mid.drop_level(price));
                }
                levels_consumed = levels_consumed + 1;
            } else {
                break;
            }
        }
        (fill, touched, levels_consumed)
    }
}

impl HalfBook {
    /// The quantity a fill-or-kill order for `need` limited to `limit` finds
    /// on this side, best levels first, stopping once it reaches `need`.
    pub fn fill_or_kill_available(&self, limit: u32, need: u32, highest: bool) -> (r: Result<u32, OrderBookError>)
        requires
            self.wf(),
        ensures
            match fok_scan(self.price_map@, limit, highest, 0, need as int) {
                None => r == Err::<u32, OrderBookError>(OrderBookError::QuantityUnderflow),
                Some(a) => r matches Ok(v) && v as int == a,
            },
    {
        let mut scan = self.price_map.clone();
        let mut available: u32 = 0;
        loop
            invariant
                scan@.dom().finite(),
                fok_scan(scan@, limit, highest, available as int, need as int)
                    == fok_scan(self.price_map@, limit, highest, 0, need as int),
            decreases scan@.dom().len(),
        {
            let best = if highest { highest_price(&scan) } else { lowest_price(&scan) };
            let price = match best {
                None => {
                    return Ok(available);
                },
                Some(p) => p,
            };
            proof {
                assert(scan@.contains_key(price));
                assert(best_key(scan@, highest) == price);
            }
            let ok = if highest { limit <= price } else { price <= limit };
            if !ok {
                return Ok(available);
            }
            let total = scan.get(&price).unwrap().total_quantity;
            available = match available.checked_add(total) {
                Some(a) => a,
                None => {
                    return Err(OrderBookError::QuantityUnderflow);
                },
            };
            if available >= need {
                return Ok(available);
            }
            scan.remove(&price);
        }
    }
}

/// The two sides of the book of one security.
pub struct OrderBook {
    pub ask: HalfBook,
    pub bid: HalfBook,
}

impl OrderBook {
/// Both sides keep their invariant.
    pub open spec fn wf(&self) -> bool {
        self.ask.wf() && self.bid.wf()
    }

/// An empty book.
    pub fn new() -> (r: Self)
        ensures
            r.ask.state() == HalfState::empty(),
            r.bid.state() == HalfState::empty(),
            r.wf(),
    {
        Self { ask: HalfBook::new(), bid: HalfBook::new() }
    }

    /// Executes `order` against the opposite side; a good-till-cancel
    /// remainder rests on the order's own side.
    #[verifier::rlimit(40)]
    pub fn match_order(&mut self, order: &EngineNewOrder) -> (r: Result<MatchOutcome, OrderBookError>)
        requires
            old(self).wf(),
            order.is_buy_side ==> executable(old(self).ask.state(), old(self).bid.state(), *order),
            !order.is_buy_side ==> executable(old(self).bid.state(), old(self).ask.state(), *order),
        ensures
            final(self).wf(),
            order.is_buy_side ==> {
                let e = execution(old(self).ask.state(), old(self).bid.state(), *order);
                &&& final(self).ask.state() == e.0
                &&& final(self).bid.state() == e.1
                &&& r == e.2
            },
            !order.is_buy_side ==> {
                let e = execution(old(self).bid.state(), old(self).ask.state(), *order);
                &&& final(self).bid.state() == e.0
                &&& final(self).ask.state() == e.1
                &&& r == e.2
            },
    {
        if order.is_buy_side {
            Self::execute(&mut self.ask, &mut self.bid, order)
        } else {
            Self::execute(&mut self.bid, &mut self.ask, order)
        }
    }

    /// Executes `order` against `opp`, resting a remainder in `own`.
    fn execute(opp: &mut HalfBook, own: &mut HalfBook, order: &EngineNewOrder) -> (r: Result<MatchOutcome, OrderBookError>)
        requires
            old(opp).wf(),
            old(own).wf(),
            executable(old(opp).state(), old(own).state(), *order),
        ensures
            final(opp).wf(),
            final(own).wf(),
            final(opp).state() == execution(old(opp).state(), old(own).state(), *order).0,
            final(own).state() == execution(old(opp).state(), old(own).state(), *order).1,
            r == execution(old(opp).state(), old(own).state(), *order).2,
    {
        proof {
            reveal(execution);
        }
        let highest = !order.is_buy_side;
        match order.order_type {
            OrderType::Market => {
                let (_, touched, levels) = opp.take_side(order.initial_quantity, None, highest);
                Ok(MatchOutcome { order_index: None, orders_touched: touched, levels_consumed: levels })
            },
            OrderType::ImmediateOrCancel(market_limit) => {
                let (_, touched, levels) = opp.take_side(order.initial_quantity, Some(market_limit), highest);
                Ok(MatchOutcome { order_index: None, orders_touched: touched, levels_consumed: levels })
            },
            OrderType::GoodTillCancel => Self::execute_good_till_cancel(opp, own, order),
            OrderType::FillOrKill(limit_price) => Self::execute_fill_or_kill(opp, own, order, limit_price),
        }
    }

    /// Executes a good-till-cancel `order`.
    #[verifier::rlimit(40)]
    fn execute_good_till_cancel(opp: &mut HalfBook, own: &mut HalfBook, order: &EngineNewOrder) -> (r: Result<MatchOutcome, OrderBookError>)
        requires
            old(opp).wf(),
            old(own).wf(),
            order.order_type is GoodTillCancel,
            executable(old(opp).state(), old(own).state(), *order),
        ensures
            final(opp).wf(),
            final(own).wf(),
            final(opp).state() == execution(old(opp).state(), old(own).state(), *order).0,
            final(own).state() == execution(old(opp).state(), old(own).state(), *order).1,
            r == execution(old(opp).state(), old(own).state(), *order).2,
    {
        proof {
            reveal(execution);
        }
        let highest = !order.is_buy_side;
        match order.price {
            None => {
                if order.initial_quantity == 0 {
                    Ok(MatchOutcome { order_index: None, orders_touched: 0, levels_consumed: 0 })
                } else {
                    Err(OrderBookError::PriceNotFound)
                }
            },
            Some(price) => {
                let (left, touched, levels) = opp.take_side(order.initial_quantity, Some(price), highest);
                if left > 0 {
                    let ghost node = resting_node(*order, left);
                    proof {
                        lemma_rest_wf(old(own).state(), node);
                    }
                    let alloted_index = own.rest_order(OrderNode {
                        order_id: order.engine_order_id,
                        initial_quantity: order.initial_quantity,
                        current_quantity: left,
                        market_limit: price,
                        next: None,
                        prev: None,
                    });
                    Ok(MatchOutcome {
                        order_index: Some(alloted_index as u32),
                        orders_touched: touched,
                        levels_consumed: levels,
                    })
                } else {
                    Ok(MatchOutcome { order_index: None, orders_touched: touched, levels_consumed: levels })
                }
            },
        }
    }

    /// Executes a fill-or-kill `order` limited to `limit_price`.
    #[verifier::rlimit(40)]
    fn execute_fill_or_kill(opp: &mut HalfBook, own: &mut HalfBook, order: &EngineNewOrder, limit_price: u32) -> (r: Result<MatchOutcome, OrderBookError>)
        requires
            old(opp).wf(),
            old(own).wf(),
            order.order_type == OrderType::FillOrKill(limit_price),
            executable(old(opp).state(), old(own).state(), *order),
        ensures
            final(opp).wf(),
            final(own).wf(),
            final(opp).state() == execution(old(opp).state(), old(own).state(), *order).0,
            final(own).state() == execution(old(opp).state(), old(own).state(), *order).1,
            r == execution(old(opp).state(), old(own).state(), *order).2,
    {
        proof {
            reveal(execution);
        }
        let highest = !order.is_buy_side;
        let available = opp.fill_or_kill_available(limit_price, order.initial_quantity, highest)?;
        if available < order.initial_quantity {
            return Ok(MatchOutcome { order_index: None, orders_touched: 0, levels_consumed: 0 });
        }
        let (_, touched, levels) = opp.take_side(order.initial_quantity, Some(limit_price), highest);
        Ok(MatchOutcome { order_index: None, orders_touched: touched, levels_consumed: levels })
    }

    /// The price levels of both sides with their total quantities: the bids
    /// lowest price first, the asks highest price first, `levels_count` of
    /// each (all of them when `None`).
    pub fn depth(&self, levels_count: Option<u32>) -> (r: BookDepth)
        ensures
            depth_listing(self.bid.price_map@, r.bid_depth@, levels_count, true),
            depth_listing(self.ask.price_map@, r.ask_depth@, levels_count, false),
    {
        let asks = levels_ascending(&self.ask.price_map);
        let bids = levels_ascending(&self.bid.price_map);
        let n_ask = match levels_count {
            Some(n) => if (n as usize) < asks.len() { n as usize } else { asks.len() },
            None => asks.len(),
        };
        let n_bid = match levels_count {
            Some(n) => if (n as usize) < bids.len() { n as usize } else { bids.len() },
            None => bids.len(),
        };
        let mut ask_depth: Vec<PriceLevelDepth> = Vec::new();
        let mut i: usize = 0;
        while i < n_ask
            invariant
                n_ask <= asks@.len(),
                i <= n_ask,
                ask_depth@.len() == i,
                forall|t: int| 0 <= t < i ==> #[trigger] ask_depth@[t] == (PriceLevelDepth {
                    price_level: asks@[asks@.len() - 1 - t].0,
                    quantity: asks@[asks@.len() - 1 - t].1,
                }),
            decreases n_ask - i,
        {
            let (price, quantity) = asks[asks.len() - 1 - i];
            ask_depth.push(PriceLevelDepth { price_level: price, quantity });
            i = i + 1;
        }
        let mut bid_depth: Vec<PriceLevelDepth> = Vec::new();
        let mut i: usize = 0;
        while i < n_bid
            invariant
                n_bid <= bids@.len(),
                i <= n_bid,
                bid_depth@.len() == i,
                forall|t: int| 0 <= t < i ==> #[trigger] bid_depth@[t] == (PriceLevelDepth {
                    price_level: bids@[t].0,
                    quantity: bids@[t].1,
                }),
            decreases n_bid - i,
        {
            let (price, quantity) = bids[i];
            bid_depth.push(PriceLevelDepth { price_level: price, quantity });
            i = i + 1;
        }
        proof {
            let a = asks@;
            let la = a.len();
            assert forall|k: u32, t: int|
                #![trigger self.ask.price_map@.contains_key(k), ask_depth@[t]]
                self.ask.price_map@.contains_key(k) && 0 <= t < ask_depth@.len() && k > ask_depth@[t].price_level
                implies exists|j: int| 0 <= j < t && ask_depth@[j].price_level == k by {
                let u = choose|u: int| 0 <= u < la && #[trigger] a[u].0 == k;
                if u <= la - 1 - t {
                    if u < la - 1 - t {
                        assert(a[u].0 < a[la - 1 - t].0);
                    }
                    assert(false);
                }
                assert(ask_depth@[la - 1 - u].price_level == k);
            }
            assert forall|i: int, j: int| 0 <= i < j < ask_depth@.len() implies ask_depth@[i].price_level > ask_depth@[j].price_level by {
                assert(a[la - 1 - j].0 < a[la - 1 - i].0);
            }
            let b = bids@;
            let lb = b.len();
            assert forall|k: u32, t: int|
                #![trigger self.bid.price_map@.contains_key(k), bid_depth@[t]]
                self.bid.price_map@.contains_key(k) && 0 <= t < bid_depth@.len() && k < bid_depth@[t].price_level
                implies exists|j: int| 0 <= j < t && bid_depth@[j].price_level == k by {
                let u = choose|u: int| 0 <= u < lb && #[trigger] b[u].0 == k;
                if u >= t {
                    if u > t {
                        assert(b[t].0 < b[u].0);
                    }
                    assert(false);
                }
                assert(bid_depth@[u].price_level == k);
            }
        }
        BookDepth { bid_depth, ask_depth }
    }

    /// Rests a buy order at the tail of its price level; returns its slot.
    pub fn create_buy_order(&mut self, resting_order: OrderNode) -> (r: Result<usize, OrderBookError>)
        requires
            old(self).wf(),
            old(self).bid.state().fits(resting_order),
        ensures
            r == Ok::<usize, OrderBookError>(old(self).bid.state().resting_slot()),
            final(self).bid.state() == old(self).bid.state().rest(resting_order),
            final(self).ask == old(self).ask,
            resting_order.current_quantity > 0 && resting_order.next is None ==> final(self).wf(),
    {
        let idx = self.bid.rest_order(resting_order);
        Ok(idx)
    }

    /// Rests a sell order at the tail of its price level; returns its slot.
    pub fn create_sell_order(&mut self, resting_order: OrderNode) -> (r: Result<usize, OrderBookError>)
        requires
            old(self).wf(),
            old(self).ask.state().fits(resting_order),
        ensures
            r == Ok::<usize, OrderBookError>(old(self).ask.state().resting_slot()),
            final(self).ask.state() == old(self).ask.state().rest(resting_order),
            final(self).bid == old(self).bid,
            resting_order.current_quantity > 0 && resting_order.next is None ==> final(self).wf(),
    {
        let idx = self.ask.rest_order(resting_order);
        Ok(idx)
    }

    /// Cancels the order registered as `order_id` on the side the request names.
    pub fn cancel_order(&mut self, order_id: u64, order: EngineCancelOrder) -> (r: Result<(), OrderBookError>)
        requires
            old(self).wf(),
        ensures
            order.is_buy_side ==> {
                &&& r == old(self).bid.state().cancel_result(order_id, true)
                &&& final(self).bid.state() == old(self).bid.state().cancelled(order_id, true)
                &&& final(self).ask == old(self).ask
            },
            !order.is_buy_side ==> {
                &&& r == old(self).ask.state().cancel_result(order_id, false)
                &&& final(self).ask.state() == old(self).ask.state().cancelled(order_id, false)
                &&& final(self).bid == old(self).bid
            },
            final(self).wf(),
    {
        if order.is_buy_side {
            self.bid.cancel_order(order_id, true)
        } else {
            self.ask.cancel_order(order_id, false)
        }
    }

    /// Modifies the order registered as `order_id` on the side the request names.
    pub fn modify_order(&mut self, order_id: u64, order: EngineModifyOrder) -> (r: Result<Option<ModifyOutcome>, OrderBookError>)
        requires
            old(self).wf(),
            order.is_buy_side ==> old(self).bid.state().modify_defined(order_id, order.new_price, order.new_quantity),
            !order.is_buy_side ==> old(self).ask.state().modify_defined(order_id, order.new_price, order.new_quantity),
        ensures
            order.is_buy_side ==> {
                &&& r == old(self).bid.state().modify_result(order_id, order.new_price, order.new_quantity, true)
                &&& final(self).bid.state() == old(self).bid.state().modified(order_id, order.new_price, order.new_quantity)
                &&& final(self).ask == old(self).ask
            },
            !order.is_buy_side ==> {
                &&& r == old(self).ask.state().modify_result(order_id, order.new_price, order.new_quantity, false)
                &&& final(self).ask.state() == old(self).ask.state().modified(order_id, order.new_price, order.new_quantity)
                &&& final(self).bid == old(self).bid
            },
            final(self).wf(),
    {
        if order.is_buy_side {
            self.bid.modify_order(order_id, order.new_price, order.new_quantity, true)
        } else {
            self.ask.modify_order(order_id, order.new_price, order.new_quantity, false)
        }
    }
}

} // verus!
