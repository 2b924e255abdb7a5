use vstd::prelude::*;
use crate::order_book::types::{EngineNewOrder, MatchOutcome, OrderBookError, OrderNode, OrderType, PriceLevel};
use crate::order_book::model::{
    HalfState, first_of, last_of, cur_of, qty_sum, with_next, with_prev, with_initial,
    place, within, best_key, fok_scan, total_of, within_part, quantity_within, execution, outcome,
    resting_node,
};

verus! {

/// Where `place` puts the order, and that it leaves the other slots alone.
pub proof fn lemma_place(pool: Seq<Option<OrderNode>>, recycled: bool, x: usize, node: OrderNode)
    requires
        recycled ==> x < pool.len(),
        !recycled ==> x == pool.len(),
    ensures
        place(pool, recycled, x, node).len() == (if recycled { pool.len() } else { pool.len() + 1 }),
        place(pool, recycled, x, node)[x as int] == Some(node),
        forall|y: int| 0 <= y < pool.len() && y != x ==> #[trigger] place(pool, recycled, x, node)[y] == pool[y],
{
}

/// The resting slot is free: no queue holds it.
pub proof fn lemma_resting_slot_free(st: HalfState)
    requires
        st.wf(),
    ensures
        !st.live(st.resting_slot()),
        st.free.len() > 0 ==> st.resting_slot() < st.pool.len(),
        st.free.len() == 0 ==> st.resting_slot() == st.pool.len(),
        forall|q: u32, i: int|
            st.lists.contains_key(q) && 0 <= i < st.lists[q].len() ==> #[trigger] st.lists[q][i] != st.resting_slot(),
{
    if st.free.len() > 0 {
        let k = st.free.len() - 1;
        assert(st.free[k] == st.resting_slot());
    }
    assert(!st.live(st.resting_slot()));
    assert forall|q: u32, i: int| st.lists.contains_key(q) && 0 <= i < st.lists[q].len()
        implies #[trigger] st.lists[q][i] != st.resting_slot() by {
        assert(st.level_wf(q));
        assert(st.slot_ok(q, i));
    }
}

/// Resting a positive order with no successor keeps the invariant.
pub proof fn lemma_rest_wf(st: HalfState, order: OrderNode)
    requires
        st.wf(),
        st.fits(order),
        order.current_quantity > 0,
        order.next is None,
    ensures
        st.rest(order).wf(),
{
    let s2 = st.rest(order);
    let p = order.market_limit;
    let x = st.resting_slot();
    let recycled = st.free.len() > 0;
    lemma_resting_slot_free(st);
    let app = st.appends_at(p);
    let node = if app { with_prev(order, st.levels[p].tail) } else { order };
    lemma_place(st.pool, recycled, x, node);
    let pool1 = place(st.pool, recycled, x, node);
    if app {
        assert(st.level_wf(p));
        let l = st.lists[p];
        assert(l.len() > 0);
        let t = l.last();
        assert(st.slot_ok(p, l.len() - 1));
        assert(t != x);
        assert(pool1[t as int] == st.pool[t as int]);
    } else {
        if st.lists.contains_key(p) {
            assert(st.level_wf(p));
            if st.lists[p].len() > 0 {
                assert(st.slot_ok(p, 0));
                lemma_qty_sum_pos(st.lists[p], st.pool);
                assert(false);
            }
        }
    }
    // slots other than x and the old tail keep their orders
    assert forall|y: usize| y != x && st.live(y) && (app ==> y != st.levels[p].tail->Some_0)
        implies #[trigger] s2.pool[y as int] == st.pool[y as int] by {
    }
    // every queue of another price keeps its slots and quantities
    assert forall|q: u32| s2.lists.contains_key(q) implies #[trigger] s2.level_wf(q) by {
        if q != p {
            assert(st.level_wf(q));
            let l = st.lists[q];
            assert forall|i: int| 0 <= i < l.len() implies #[trigger] s2.slot_ok(q, i) by {
                assert(st.slot_ok(q, i));
                if app {
                    let t = st.levels[p].tail->Some_0;
                    assert(st.slot_ok(p, st.lists[p].len() - 1));
                    assert(l[i] != t);
                }
            }
            assert forall|i: int| 0 <= i < l.len() implies cur_of(st.pool, #[trigger] l[i]) == cur_of(s2.pool, l[i]) by {
                assert(st.slot_ok(q, i));
                if app {
                    assert(st.slot_ok(p, st.lists[p].len() - 1));
                }
            }
            lemma_qty_sum_frame(l, st.pool, s2.pool);
        } else if app {
            let l = st.lists[p];
            let t = l.last();
            let l2 = l.push(x);
            assert(s2.lists[p] == l2);
            assert(l2.no_duplicates());
            assert forall|i: int| 0 <= i < l2.len() implies #[trigger] s2.slot_ok(p, i) by {
                if i < l.len() {
                    assert(st.slot_ok(p, i));
                    assert(l2[i] == l[i]);
                    if i == l.len() - 1 {
                        assert(l[i] == t);
                    } else {
                        assert(st.slot_ok(p, l.len() - 1));
                        assert(l[i] != t);
                    }
                } else {
                    assert(l2[i] == x);
                    assert(st.slot_ok(p, l.len() - 1));
                }
            }
            assert forall|i: int| 0 <= i < l.len() implies cur_of(st.pool, #[trigger] l[i]) == cur_of(s2.pool, l[i]) by {
                assert(st.slot_ok(p, i));
                assert(st.slot_ok(p, l.len() - 1));
            }
            lemma_qty_sum_frame(l, st.pool, s2.pool);
            lemma_qty_sum_push(l, s2.pool, x);
            assert(st.slot_ok(p, l.len() - 1));
            assert(cur_of(s2.pool, x) == order.current_quantity);
        } else {
            let l2 = seq![x];
            assert(s2.lists[p] == l2);
            assert(s2.slot_ok(p, 0));
            assert(l2.drop_first() =~= Seq::<usize>::empty());
            assert(qty_sum(l2, s2.pool) == cur_of(s2.pool, x) + qty_sum(l2.drop_first(), s2.pool));
        }
    }
    // the free list loses the slot it hands out
    assert forall|i: int| 0 <= i < s2.free.len() implies {
        &&& #[trigger] s2.free[i] < s2.pool.len()
        &&& s2.pool[s2.free[i] as int] is None
    } by {
        assert(s2.free[i] == st.free[i]);
        assert(st.free[i] != x);
        if app {
            assert(st.level_wf(p));
            assert(st.slot_ok(p, st.lists[p].len() - 1));
        }
    }
    assert forall|k: u64| #[trigger] s2.registry.contains_key(k) implies s2.registry[k] < s2.pool.len() by {
        if k != order.order_id {
            assert(st.registry.contains_key(k));
        }
    }
    assert forall|y: usize| #[trigger] s2.live(y) implies s2.listed(y) by {
        if y == x {
            assert(s2.lists[p].last() == x);
        } else {
            assert(st.live(y));
            assert(st.listed(y));
            let m = st.node(y).market_limit;
            let j = st.lists[m].index_of(y);
            assert(st.level_wf(m));
            assert(st.slot_ok(m, j));
            if m == p && app {
                assert(s2.lists[p][j] == y);
            }
            if m == p && !app {
                assert(false);
            }
        }
    }
}

/// Changing the initial quantity of a live order keeps the invariant.
pub proof fn lemma_set_initial_wf(st: HalfState, x: usize, q: u32)
    requires
        st.wf(),
        st.live(x),
    ensures
        (HalfState { pool: st.pool.update(x as int, Some(with_initial(st.node(x), q))), ..st }).wf(),
{
    let s2 = HalfState { pool: st.pool.update(x as int, Some(with_initial(st.node(x), q))), ..st };
    assert forall|p: u32| s2.lists.contains_key(p) implies #[trigger] s2.level_wf(p) by {
        assert(st.level_wf(p));
        let l = st.lists[p];
        assert forall|i: int| 0 <= i < l.len() implies #[trigger] s2.slot_ok(p, i) by {
            assert(st.slot_ok(p, i));
        }
        assert forall|i: int| 0 <= i < l.len() implies cur_of(st.pool, #[trigger] l[i]) == cur_of(s2.pool, l[i]) by {
            assert(st.slot_ok(p, i));
        }
        lemma_qty_sum_frame(l, st.pool, s2.pool);
    }
    assert forall|i: int| 0 <= i < s2.free.len() implies {
        &&& #[trigger] s2.free[i] < s2.pool.len()
        &&& s2.pool[s2.free[i] as int] is None
    } by {
        assert(st.free[i] != x);
    }
    assert forall|y: usize| #[trigger] s2.live(y) implies s2.listed(y) by {
        assert(st.live(y));
        assert(st.listed(y));
    }
}

/// Trading within a level changes neither the set of prices nor the registry.
pub proof fn lemma_take_level_frame(st: HalfState, p: u32, fill: int)
    requires
        st.levels.contains_key(p),
    ensures
        st.take_level(p, fill).0.levels.dom() == st.levels.dom(),
        st.take_level(p, fill).0.lists.dom() == st.lists.dom().insert(p) || st.take_level(p, fill).0.lists == st.lists,
        st.take_level(p, fill).0.registry == st.registry,
    decreases st.lists[p].len(),
{
    let lv = st.levels[p];
    let l = st.lists[p];
    if lv.total_quantity == 0 || fill <= 0 || l.len() == 0 {
    } else {
        let n = st.node(l[0]);
        if fill >= n.current_quantity {
            let s2 = st.pop_head(p);
            assert(s2.levels.dom() =~= st.levels.dom());
            assert(s2.lists.dom() =~= st.lists.dom().insert(p));
            lemma_take_level_frame(s2, p, fill - n.current_quantity);
            assert(s2.lists.dom().insert(p) =~= s2.lists.dom());
        } else {
            assert(st.shave_head(p, fill).levels.dom() =~= st.levels.dom());
        }
    }
}

/// A finite non-empty set of prices has a best one.
pub proof fn lemma_best_key(m: Map<u32, PriceLevel>, highest: bool)
    requires
        m.dom().finite(),
        m.dom().len() > 0,
    ensures
        m.contains_key(best_key(m, highest)),
        forall|j: u32| #[trigger] m.contains_key(j) ==> (if highest { j <= best_key(m, highest) } else { best_key(m, highest) <= j }),
    decreases m.dom().len(),
{
    let a = m.dom().choose();
    assert(m.contains_key(a));
    let rest = m.remove(a);
    if rest.dom().len() == 0 {
        assert forall|j: u32| #[trigger] m.contains_key(j) implies j == a by {
            if j != a {
                assert(rest.contains_key(j));
            }
        }
        assert(m.contains_key(a) && forall|j: u32| #[trigger] m.contains_key(j) ==> (if highest { j <= a } else { a <= j }));
    } else {
        lemma_best_key(rest, highest);
        let b = best_key(rest, highest);
        let c = if highest { if a <= b { b } else { a } } else { if a <= b { a } else { b } };
        assert forall|j: u32| #[trigger] m.contains_key(j) implies (if highest { j <= c } else { c <= j }) by {
            if j != a {
                assert(rest.contains_key(j));
            }
        }
        assert(m.contains_key(c));
    }
}

/// What trading within one level does: the level loses exactly the quantity
/// traded, it is left empty whenever some quantity is left to fill, its queue
/// keeps a suffix of the old one, and every other level is untouched.
pub proof fn lemma_take_level_conserve(st: HalfState, p: u32, fill: int)
    requires
        st.wf(),
        st.levels.contains_key(p),
        fill >= 0,
    ensures
        ({
            let r = st.take_level(p, fill);
            let l = st.lists[p];
            &&& r.0.wf()
            &&& 0 <= r.1 <= fill
            &&& r.0.levels[p].total_quantity == st.levels[p].total_quantity - (fill - r.1)
            &&& (r.1 > 0 ==> r.0.levels[p].total_quantity == 0)
            &&& r.0.levels.remove(p) == st.levels.remove(p)
            &&& r.0.lists.remove(p) == st.lists.remove(p)
            &&& r.0.levels.dom() == st.levels.dom()
            &&& r.0.lists[p].len() <= l.len()
            &&& r.0.lists[p] == l.skip(l.len() - r.0.lists[p].len())
        }),
    decreases st.lists[p].len(),
{
    let lv = st.levels[p];
    let l = st.lists[p];
    assert(st.level_wf(p));
    if lv.total_quantity == 0 || fill <= 0 || l.len() == 0 {
        if l.len() == 0 {
            assert(qty_sum(l, st.pool) == 0);
        }
        assert(st.levels.remove(p) =~= st.levels.remove(p));
        assert(l.skip(0) =~= l);
    } else {
        assert(st.slot_ok(p, 0));
        let n = st.node(l[0]);
        lemma_qty_sum_nonneg(l.drop_first(), st.pool);
        assert(qty_sum(l, st.pool) == cur_of(st.pool, l[0]) + qty_sum(l.drop_first(), st.pool));
        if fill >= n.current_quantity {
            lemma_pop_head_wf(st, p);
            let s2 = st.pop_head(p);
            lemma_take_level_conserve(s2, p, fill - n.current_quantity);
            lemma_qty_sum_nonneg(l.drop_first(), st.pool);
            if n.next is None {
                assert(l.len() == 1);
                assert(l.drop_first() =~= Seq::<usize>::empty());
                assert(qty_sum(l.drop_first(), st.pool) == 0);
            }
            assert(s2.levels.remove(p) =~= st.levels.remove(p));
            assert(s2.lists.remove(p) =~= st.lists.remove(p));
            let r = s2.take_level(p, fill - n.current_quantity);
            let l2 = l.drop_first();
            assert(r.0.lists[p] =~= l.skip(l.len() - r.0.lists[p].len()));
        } else {
            lemma_shave_head_wf(st, p, fill);
            let s2 = st.shave_head(p, fill);
            assert(s2.levels.remove(p) =~= st.levels.remove(p));
            assert(l.skip(0) =~= l);
        }
    }
}

/// An empty level of a well-formed side has an empty queue.
pub proof fn lemma_zero_total_empty(st: HalfState, p: u32)
    requires
        st.wf(),
        st.lists.contains_key(p),
        st.levels[p].total_quantity == 0,
    ensures
        st.lists[p].len() == 0,
{
    assert(st.level_wf(p));
    if st.lists[p].len() > 0 {
        assert(st.slot_ok(p, 0));
        lemma_qty_sum_pos(st.lists[p], st.pool);
    }
}

/// What trading against a side does: it keeps the invariant, leaves at most
/// the quantity it was given, leaves no level within the limit when some
/// quantity is left, and does not touch the levels beyond the limit.
pub proof fn lemma_take_side_props(st: HalfState, fill: int, limit: Option<u32>, highest: bool)
    requires
        st.wf(),
        fill >= 0,
    ensures
        ({
            let r = st.take_side(fill, limit, highest);
            &&& r.0.wf()
            &&& 0 <= r.1 <= fill
            &&& r.1 > 0 ==> forall|q: u32| #[trigger] r.0.levels.contains_key(q) ==> !within(q, limit, highest)
            &&& forall|q: u32| #[trigger] st.levels.contains_key(q) && !within(q, limit, highest) ==> {
                &&& r.0.levels.contains_key(q)
                &&& r.0.levels[q] == st.levels[q]
                &&& r.0.lists[q] == st.lists[q]
            }
            &&& r.0.levels.dom().subset_of(st.levels.dom())
            &&& r.0.registry == st.registry
            &&& forall|q: u32, q2: u32|
                #![trigger st.levels.contains_key(q), r.0.levels.contains_key(q2)]
                st.levels.contains_key(q) && !r.0.levels.contains_key(q) && r.0.levels.contains_key(q2)
                    ==> (if highest { q > q2 } else { q < q2 })
        }),
    decreases st.levels.dom().len(),
{
    if fill <= 0 || st.levels.dom().len() == 0 {
        if st.levels.dom().len() == 0 {
            assert forall|q: u32| #[trigger] st.levels.contains_key(q) implies false by {
                assert(st.levels.dom().contains(q));
            }
        }
    } else {
        lemma_best_key(st.levels, highest);
        let p = st.best_price(highest);
        if !within(p, limit, highest) {
        } else {
            lemma_take_level_conserve(st, p, fill);
            lemma_take_level_frame(st, p, fill);
            let r1 = st.take_level(p, fill);
            assert forall|q: u32| q != p && #[trigger] st.levels.contains_key(q) implies r1.0.levels[q] == st.levels[q] && r1.0.lists[q] == st.lists[q] by {
                assert(r1.0.levels.remove(p)[q] == st.levels.remove(p)[q]);
                assert(r1.0.lists.remove(p)[q] == st.lists.remove(p)[q]);
            }
            if r1.0.levels[p].total_quantity == 0 {
                lemma_zero_total_empty(r1.0, p);
                lemma_drop_level_wf(r1.0, p);
                let s3 = r1.0.drop_level(p);
                lemma_take_side_props(s3, r1.1, limit, highest);
                let r = s3.take_side(r1.1, limit, highest);
                assert forall|q: u32, q2: u32|
                    #![trigger st.levels.contains_key(q), r.0.levels.contains_key(q2)]
                    st.levels.contains_key(q) && !r.0.levels.contains_key(q) && r.0.levels.contains_key(q2)
                    implies (if highest { q > q2 } else { q < q2 }) by {
                    assert(s3.levels.contains_key(q2));
                    assert(q2 != p);
                    assert(st.levels.contains_key(q2));
                    if q != p {
                        assert(s3.levels.contains_key(q));
                    }
                }
            }
        }
    }
}

/// A fill-or-kill order whose scan finds its quantity is filled completely.
#[verifier::rlimit(40)]
pub proof fn lemma_fok_fills(st: HalfState, limit: u32, highest: bool, acc: int, need: int)
    requires
        st.wf(),
        0 <= acc < need,
        fok_scan(st.levels, limit, highest, acc, need) matches Some(a) && a >= need,
    ensures
        st.take_side(need - acc, Some(limit), highest).1 == 0,
    decreases st.levels.dom().len(),
{
    let fill = need - acc;
    let a = fok_scan(st.levels, limit, highest, acc, need)->Some_0;
    if st.levels.dom().len() == 0 {
        assert(a == acc);
    }
    lemma_best_key(st.levels, highest);
    let p = st.best_price(highest);
    assert(p == best_key(st.levels, highest));
    if !within(p, Some(limit), highest) {
        assert(a == acc);
    }
    let t = st.levels[p].total_quantity as int;
    assert(acc + t <= u32::MAX);
    lemma_take_level_conserve(st, p, fill);
    lemma_take_level_frame(st, p, fill);
    let r1 = st.take_level(p, fill);
    if acc + t >= need {
        assert(r1.1 == 0);
        if r1.0.levels[p].total_quantity == 0 {
            let s3 = r1.0.drop_level(p);
            assert(s3.take_side(0, Some(limit), highest).1 == 0);
        }
    } else {
        assert(fok_scan(st.levels.remove(p), limit, highest, acc + t, need) == Some(a));
        assert(r1.1 > 0);
        assert(r1.0.levels[p].total_quantity == 0);
        lemma_zero_total_empty(r1.0, p);
        lemma_drop_level_wf(r1.0, p);
        let s3 = r1.0.drop_level(p);
        assert(s3.levels =~= st.levels.remove(p));
        lemma_fok_fills(s3, limit, highest, acc + t, need);
        assert(r1.1 == need - (acc + t));
    }
}

/// Filling the oldest order of a level completely keeps the invariant.
pub proof fn lemma_pop_head_wf(st: HalfState, p: u32)
    requires
        st.wf(),
        st.lists.contains_key(p),
        st.lists[p].len() > 0,
    ensures
        st.pop_head(p).wf(),
        st.pop_head(p).levels.dom() == st.levels.dom(),
{
    let s2 = st.pop_head(p);
    let l = st.lists[p];
    let h = l[0];
    let n = st.node(h);
    let l2 = l.drop_first();
    assert(st.level_wf(p));
    assert(st.slot_ok(p, 0));
    assert(s2.levels.dom() =~= st.levels.dom());
    assert(s2.lists.dom() =~= st.lists.dom());
    assert forall|q: u32| s2.lists.contains_key(q) implies #[trigger] s2.level_wf(q) by {
        if q != p {
            assert(st.level_wf(q));
            let lq = st.lists[q];
            assert forall|i: int| 0 <= i < lq.len() implies #[trigger] s2.slot_ok(q, i) by {
                assert(st.slot_ok(q, i));
            }
            assert forall|i: int| 0 <= i < lq.len() implies cur_of(st.pool, #[trigger] lq[i]) == cur_of(s2.pool, lq[i]) by {
                assert(st.slot_ok(q, i));
            }
            lemma_qty_sum_frame(lq, st.pool, s2.pool);
        } else {
            assert forall|i: int| 0 <= i < l2.len() implies #[trigger] s2.slot_ok(p, i) by {
                assert(st.slot_ok(p, i + 1));
                assert(l2[i] == l[i + 1]);
                if i > 0 {
                    assert(l2[i - 1] == l[i]);
                }
                if i + 1 < l2.len() {
                    assert(l2[i + 1] == l[i + 2]);
                }
            }
            assert forall|i: int| 0 <= i < l2.len() implies cur_of(st.pool, #[trigger] l2[i]) == cur_of(s2.pool, l2[i]) by {
                assert(st.slot_ok(p, i + 1));
                assert(l2[i] == l[i + 1]);
            }
            lemma_qty_sum_frame(l2, st.pool, s2.pool);
            lemma_qty_sum_nonneg(l2, st.pool);
            if l2.len() > 0 {
                assert(l2[0] == l[1]);
                assert(l2.last() == l.last());
            }
        }
    }
    assert forall|i: int| 0 <= i < s2.free.len() implies {
        &&& #[trigger] s2.free[i] < s2.pool.len()
        &&& s2.pool[s2.free[i] as int] is None
    } by {
        if i < st.free.len() {
            assert(st.free[i] == s2.free[i]);
        }
    }
    assert(s2.free.no_duplicates()) by {
        assert forall|a: int, b: int| 0 <= a < b < s2.free.len() implies s2.free[a] != s2.free[b] by {
            if b == st.free.len() {
                assert(s2.free[a] == st.free[a]);
            }
        }
    }
    assert forall|k: u64| #[trigger] s2.registry.contains_key(k) implies s2.registry[k] < s2.pool.len() by {
        assert(st.registry.contains_key(k));
    }
    assert forall|y: usize| #[trigger] s2.live(y) implies s2.listed(y) by {
        assert(st.live(y));
        assert(st.listed(y));
        let m = st.node(y).market_limit;
        let k = st.lists[m].index_of(y);
        assert(st.level_wf(m));
        assert(st.slot_ok(m, k));
        if m == p {
            assert(k != 0);
            assert(l2[k - 1] == y);
        }
    }
}

/// Filling the oldest order of a level partly keeps the invariant.
pub proof fn lemma_shave_head_wf(st: HalfState, p: u32, f: int)
    requires
        st.wf(),
        st.lists.contains_key(p),
        st.lists[p].len() > 0,
        0 < f < st.node(st.lists[p][0]).current_quantity,
    ensures
        st.shave_head(p, f).wf(),
        st.shave_head(p, f).levels.dom() == st.levels.dom(),
{
    let s2 = st.shave_head(p, f);
    let l = st.lists[p];
    let h = l[0];
    assert(st.level_wf(p));
    assert(st.slot_ok(p, 0));
    assert(s2.levels.dom() =~= st.levels.dom());
    assert forall|q: u32| s2.lists.contains_key(q) implies #[trigger] s2.level_wf(q) by {
        assert(st.level_wf(q));
        let lq = st.lists[q];
        assert forall|i: int| 0 <= i < lq.len() implies #[trigger] s2.slot_ok(q, i) by {
            assert(st.slot_ok(q, i));
        }
        if q != p {
            assert forall|i: int| 0 <= i < lq.len() implies cur_of(st.pool, #[trigger] lq[i]) == cur_of(s2.pool, lq[i]) by {
                assert(st.slot_ok(q, i));
            }
            lemma_qty_sum_frame(lq, st.pool, s2.pool);
        } else {
            let l2 = l.drop_first();
            assert forall|i: int| 0 <= i < l2.len() implies cur_of(st.pool, #[trigger] l2[i]) == cur_of(s2.pool, l2[i]) by {
                assert(st.slot_ok(p, i + 1));
                assert(l2[i] == l[i + 1]);
            }
            lemma_qty_sum_frame(l2, st.pool, s2.pool);
            lemma_qty_sum_nonneg(l2, st.pool);
            assert(qty_sum(l, s2.pool) == cur_of(s2.pool, h) + qty_sum(l2, s2.pool));
            assert(qty_sum(l, st.pool) == cur_of(st.pool, h) + qty_sum(l2, st.pool));
            assert(cur_of(s2.pool, h) == cur_of(st.pool, h) - f);
        }
    }
    assert forall|i: int| 0 <= i < s2.free.len() implies {
        &&& #[trigger] s2.free[i] < s2.pool.len()
        &&& s2.pool[s2.free[i] as int] is None
    } by {
        assert(st.free[i] != h);
    }
    assert forall|y: usize| #[trigger] s2.live(y) implies s2.listed(y) by {
        assert(st.live(y));
        assert(st.listed(y));
    }
}

/// Removing an empty level keeps the invariant.
pub proof fn lemma_drop_level_wf(st: HalfState, p: u32)
    requires
        st.wf(),
        st.lists.contains_key(p),
        st.lists[p].len() == 0,
    ensures
        st.drop_level(p).wf(),
        st.drop_level(p).levels.dom() == st.levels.dom().remove(p),
{
    let s2 = st.drop_level(p);
    assert(s2.lists.dom() =~= s2.levels.dom());
    assert forall|q: u32| s2.lists.contains_key(q) implies #[trigger] s2.level_wf(q) by {
        assert(st.level_wf(q));
        assert forall|i: int| 0 <= i < st.lists[q].len() implies #[trigger] s2.slot_ok(q, i) by {
            assert(st.slot_ok(q, i));
        }
    }
    assert forall|y: usize| #[trigger] s2.live(y) implies s2.listed(y) by {
        assert(st.live(y));
        assert(st.listed(y));
    }
}

/// Facts about the queue holding a live slot.
pub proof fn lemma_live_position(st: HalfState, x: usize)
    requires
        st.wf(),
        st.live(x),
    ensures
        ({
            let p = st.node(x).market_limit;
            let l = st.lists[p];
            let j = l.index_of(x);
            &&& st.lists.contains_key(p)
            &&& st.level_wf(p)
            &&& 0 <= j < l.len()
            &&& l[j] == x
            &&& st.slot_ok(p, j)
            &&& (j > 0 ==> st.slot_ok(p, j - 1) && l[j - 1] != x)
            &&& (j + 1 < l.len() ==> st.slot_ok(p, j + 1) && l[j + 1] != x)
            &&& (j > 0 && j + 1 < l.len() ==> l[j - 1] != l[j + 1])
            &&& (forall|i: int| 0 <= i < l.len() && i != j ==> #[trigger] l[i] != x)
            &&& st.levels[p].head == Some(l[0])
            &&& st.levels[p].tail == Some(l.last())
        }),
{
    let p = st.node(x).market_limit;
    assert(st.listed(x));
    assert(st.level_wf(p));
    let l = st.lists[p];
    let j = l.index_of(x);
    assert(st.slot_ok(p, j));
    if j > 0 {
        assert(st.slot_ok(p, j - 1));
    }
    if j + 1 < l.len() {
        assert(st.slot_ok(p, j + 1));
    }
}

/// What unlinking does to the slots: the slot empties, its neighbours are
/// relinked and every other slot is untouched.
pub proof fn lemma_unlink_pool(st: HalfState, x: usize)
    requires
        st.wf(),
        st.live(x),
    ensures
        ({
            let s2 = st.unlink(x);
            let n = st.node(x);
            let l = st.lists[n.market_limit];
            let j = l.index_of(x);
            &&& s2.pool.len() == st.pool.len()
            &&& s2.pool[x as int] is None
            &&& (j > 0 ==> s2.pool[l[j - 1] as int] == Some(with_next(st.node(l[j - 1]), n.next)))
            &&& (j + 1 < l.len() ==> s2.pool[l[j + 1] as int] == Some(
                with_prev(st.node(l[j + 1]), if j == 0 { None } else { n.prev }),
            ))
            &&& (forall|y: usize|
                y < st.pool.len() && y != x && (j > 0 ==> y != l[j - 1]) && (j + 1 < l.len() ==> y
                    != l[j + 1]) ==> #[trigger] s2.pool[y as int] == st.pool[y as int])
        }),
{
    lemma_live_position(st, x);
}

/// The queue an order leaves stays well formed.
proof fn lemma_unlink_level(st: HalfState, s2: HalfState, x: usize)
    requires
        st.wf(),
        st.live(x),
        ({
            let n = st.node(x);
            let p = n.market_limit;
            let l = st.lists[p];
            let j = l.index_of(x);
            let lv = st.levels[p];
            let l2 = l.remove(j);
            &&& s2.pool.len() == st.pool.len()
            &&& s2.pool[x as int] is None
            &&& (j > 0 ==> s2.pool[l[j - 1] as int] == Some(with_next(st.node(l[j - 1]), n.next)))
            &&& (j + 1 < l.len() ==> s2.pool[l[j + 1] as int] == Some(
                with_prev(st.node(l[j + 1]), if j == 0 { None } else { n.prev }),
            ))
            &&& (forall|y: usize|
                y < st.pool.len() && y != x && (j > 0 ==> y != l[j - 1]) && (j + 1 < l.len() ==> y
                    != l[j + 1]) ==> #[trigger] s2.pool[y as int] == st.pool[y as int])
            &&& s2.lists[p] == l2
            &&& s2.levels[p] == PriceLevel {
                head: first_of(l2),
                tail: last_of(l2),
                order_count: (lv.order_count - 1) as u32,
                total_quantity: (lv.total_quantity - n.current_quantity) as u32,
            }
        }),
    ensures
        s2.level_wf(st.node(x).market_limit),
{
    lemma_live_position(st, x);
    let n = st.node(x);
    let p = n.market_limit;
    let l = st.lists[p];
    let j = l.index_of(x);
    let l2 = l.remove(j);
    assert(l2.no_duplicates());
    assert forall|i: int| 0 <= i < l2.len() implies #[trigger] s2.slot_ok(p, i) by {
        if i < j {
            assert(l2[i] == l[i]);
            assert(st.slot_ok(p, i));
            if i < j - 1 {
                assert(l[i] != l[j - 1]);
                if j + 1 < l.len() {
                    assert(l[i] != l[j + 1]);
                }
                assert(l2[i + 1] == l[i + 1]);
            }
            if i > 0 {
                assert(l2[i - 1] == l[i - 1]);
            }
        } else {
            assert(l2[i] == l[i + 1]);
            assert(st.slot_ok(p, i + 1));
            if i > j {
                assert(l[i + 1] != l[j + 1]);
                if j > 0 {
                    assert(l[i + 1] != l[j - 1]);
                }
                assert(l2[i - 1] == l[i]);
            }
            if i + 1 < l2.len() {
                assert(l2[i + 1] == l[i + 2]);
            }
            if i == j && j > 0 {
                assert(l2[i - 1] == l[j - 1]);
            }
        }
    }
    assert forall|i: int| 0 <= i < l2.len() implies cur_of(st.pool, #[trigger] l2[i]) == cur_of(s2.pool, l2[i]) by {
        if i < j {
            assert(st.slot_ok(p, i));
            assert(l2[i] == l[i]);
        } else {
            assert(st.slot_ok(p, i + 1));
            assert(l2[i] == l[i + 1]);
        }
    }
    lemma_qty_sum_frame(l2, st.pool, s2.pool);
    lemma_qty_sum_remove(l, st.pool, j);
    lemma_qty_sum_nonneg(l2, st.pool);
    assert(cur_of(st.pool, l[j]) == n.current_quantity);
    if l2.len() > 0 {
        assert(l2[0] == (if j == 0 { l[1] } else { l[0] }));
        assert(l2.last() == (if j == l.len() - 1 { l[j - 1] } else { l.last() }));
    }
}

/// Unlinking a live order keeps the invariant.
pub proof fn lemma_unlink_wf(st: HalfState, x: usize)
    requires
        st.wf(),
        st.live(x),
    ensures
        st.unlink(x).wf(),
{
    lemma_live_position(st, x);
    lemma_unlink_pool(st, x);
    let s2 = st.unlink(x);
    let n = st.node(x);
    let p = n.market_limit;
    let l = st.lists[p];
    let j = l.index_of(x);
    let l2 = l.remove(j);
    lemma_unlink_level(st, s2, x);
    assert forall|q: u32| s2.lists.contains_key(q) implies #[trigger] s2.level_wf(q) by {
        if q != p {
            assert(st.level_wf(q));
            let lq = st.lists[q];
            assert(s2.lists[q] == lq);
            assert forall|i: int| 0 <= i < lq.len() implies #[trigger] s2.slot_ok(q, i) by {
                assert(st.slot_ok(q, i));
            }
            assert forall|i: int| 0 <= i < lq.len() implies cur_of(st.pool, #[trigger] lq[i]) == cur_of(s2.pool, lq[i]) by {
                assert(st.slot_ok(q, i));
            }
            lemma_qty_sum_frame(lq, st.pool, s2.pool);
        }
    }
    assert forall|i: int| 0 <= i < s2.free.len() implies {
        &&& #[trigger] s2.free[i] < s2.pool.len()
        &&& s2.pool[s2.free[i] as int] is None
    } by {
        if i < st.free.len() {
            assert(st.free[i] == s2.free[i]);
            assert(st.free[i] != x);
            if j > 0 {
                assert(st.free[i] != l[j - 1]);
            }
            if j + 1 < l.len() {
                assert(st.free[i] != l[j + 1]);
            }
        }
    }
    assert(s2.free.no_duplicates()) by {
        assert forall|a: int, b: int| 0 <= a < b < s2.free.len() implies s2.free[a] != s2.free[b] by {
            if b == st.free.len() {
                assert(s2.free[a] == st.free[a]);
            }
        }
    }
    assert forall|k: u64| #[trigger] s2.registry.contains_key(k) implies s2.registry[k] < s2.pool.len() by {
        assert(st.registry.contains_key(k));
    }
    assert forall|y: usize| #[trigger] s2.live(y) implies s2.listed(y) by {
        assert(y != x);
        assert(st.live(y));
        assert(st.listed(y));
        let m = st.node(y).market_limit;
        let k = st.lists[m].index_of(y);
        assert(st.level_wf(m));
        assert(st.slot_ok(m, k));
        assert(s2.node(y).market_limit == m);
        if m == p {
            if k < j {
                assert(l2[k] == y);
            } else {
                assert(k != j);
                assert(l2[k - 1] == y);
            }
        }
    }
}

/// Quantities are never negative, so neither is their sum.
pub proof fn lemma_qty_sum_nonneg(l: Seq<usize>, pool: Seq<Option<OrderNode>>)
    ensures
        qty_sum(l, pool) >= 0,
    decreases l.len(),
{
    if l.len() > 0 {
        lemma_qty_sum_nonneg(l.drop_first(), pool);
    }
}

/// The sum only depends on the quantities of the slots of the queue.
pub proof fn lemma_qty_sum_frame(l: Seq<usize>, p1: Seq<Option<OrderNode>>, p2: Seq<Option<OrderNode>>)
    requires
        forall|i: int| 0 <= i < l.len() ==> cur_of(p1, #[trigger] l[i]) == cur_of(p2, l[i]),
    ensures
        qty_sum(l, p1) == qty_sum(l, p2),
    decreases l.len(),
{
    if l.len() > 0 {
        assert forall|i: int| 0 <= i < l.drop_first().len() implies cur_of(p1, #[trigger] l.drop_first()[i])
            == cur_of(p2, l.drop_first()[i]) by {
            assert(l.drop_first()[i] == l[i + 1]);
        }
        lemma_qty_sum_frame(l.drop_first(), p1, p2);
    }
}

/// Appending a slot to a queue adds its quantity to the sum.
pub proof fn lemma_qty_sum_push(l: Seq<usize>, pool: Seq<Option<OrderNode>>, x: usize)
    ensures
        qty_sum(l.push(x), pool) == qty_sum(l, pool) + cur_of(pool, x),
    decreases l.len(),
{
    if l.len() == 0 {
        assert(l.push(x).drop_first() =~= Seq::<usize>::empty());
        assert(qty_sum(l.push(x).drop_first(), pool) == 0);
        assert(l.push(x)[0] == x);
    } else {
        assert(l.push(x).drop_first() =~= l.drop_first().push(x));
        assert(l.push(x)[0] == l[0]);
        lemma_qty_sum_push(l.drop_first(), pool, x);
    }
}

/// Taking position `j` out of a queue takes its quantity out of the sum.
pub proof fn lemma_qty_sum_remove(l: Seq<usize>, pool: Seq<Option<OrderNode>>, j: int)
    requires
        0 <= j < l.len(),
    ensures
        qty_sum(l.remove(j), pool) == qty_sum(l, pool) - cur_of(pool, l[j]),
    decreases l.len(),
{
    if j == 0 {
        assert(l.remove(0) =~= l.drop_first());
    } else {
        assert(l.remove(j).drop_first() =~= l.drop_first().remove(j - 1));
        assert(l.remove(j)[0] == l[0]);
        lemma_qty_sum_remove(l.drop_first(), pool, j - 1);
    }
}

/// A non-empty queue whose slots all hold a positive quantity has a positive sum.
pub proof fn lemma_qty_sum_pos(l: Seq<usize>, pool: Seq<Option<OrderNode>>)
    requires
        l.len() > 0,
        cur_of(pool, l[0]) > 0,
    ensures
        qty_sum(l, pool) > 0,
{
    lemma_qty_sum_nonneg(l.drop_first(), pool);
}

/// The quantity of a side is the total of any one of its levels plus the
/// quantity of the others.
pub proof fn lemma_total_of_remove(m: Map<u32, PriceLevel>, p: u32)
    requires
        m.dom().finite(),
        m.contains_key(p),
    ensures
        total_of(m) == m[p].total_quantity + total_of(m.remove(p)),
    decreases m.dom().len(),
{
    let k = m.dom().choose();
    assert(m.dom().contains(k));
    if k != p {
        lemma_total_of_remove(m.remove(k), p);
        lemma_total_of_remove(m.remove(p), k);
        assert(m.remove(k).remove(p) =~= m.remove(p).remove(k));
    }
}

/// Replacing (or adding) a level changes the quantity of the side by the
/// difference of the totals.
pub proof fn lemma_total_of_insert(m: Map<u32, PriceLevel>, p: u32, v: PriceLevel)
    requires
        m.dom().finite(),
    ensures
        total_of(m.insert(p, v)) == total_of(m) + v.total_quantity - (if m.contains_key(p) {
            m[p].total_quantity as int
        } else {
            0
        }),
{
    lemma_total_of_remove(m.insert(p, v), p);
    if m.contains_key(p) {
        lemma_total_of_remove(m, p);
        assert(m.insert(p, v).remove(p) =~= m.remove(p));
    } else {
        assert(m.insert(p, v).remove(p) =~= m);
    }
}

/// The quantity of a side is never negative.
pub proof fn lemma_total_of_nonneg(m: Map<u32, PriceLevel>)
    requires
        m.dom().finite(),
    ensures
        total_of(m) >= 0,
    decreases m.dom().len(),
{
    if m.dom().len() > 0 {
        let k = m.dom().choose();
        assert(m.dom().contains(k));
        lemma_total_of_nonneg(m.remove(k));
    }
}

/// The levels within a limit form a finite map.
pub proof fn lemma_within_part_finite(m: Map<u32, PriceLevel>, limit: u32, highest: bool)
    requires
        m.dom().finite(),
    ensures
        within_part(m, limit, highest).dom().finite(),
        within_part(m, limit, highest).dom().len() <= m.dom().len(),
{
    let f = |k: u32| within(k, Some(limit), highest);
    m.dom().lemma_len_filter(f);
    assert(within_part(m, limit, highest).dom() =~= m.dom().filter(f));
}

/// The fill-or-kill scan finds the order's quantity whenever the levels within
/// its limit hold it (and their sum stays within `u32`): empty levels add
/// nothing and do not stop the scan.
pub proof fn lemma_fok_scan_reaches(m: Map<u32, PriceLevel>, limit: u32, highest: bool, acc: int, need: int)
    requires
        m.dom().finite(),
        acc >= 0,
        acc + quantity_within(m, limit, highest) >= need,
        acc + quantity_within(m, limit, highest) <= u32::MAX,
    ensures
        fok_scan(m, limit, highest, acc, need) matches Some(a) && a >= need,
    decreases m.dom().len(),
{
    reveal(quantity_within);
    let w = within_part(m, limit, highest);
    lemma_within_part_finite(m, limit, highest);
    if m.dom().len() == 0 {
        assert(w.dom() =~= Set::<u32>::empty());
        assert(total_of(w) == 0);
    } else {
        lemma_best_key(m, highest);
        let p = best_key(m, highest);
        if !within(p, Some(limit), highest) {
            assert(w.dom() =~= Set::<u32>::empty()) by {
                assert forall|k: u32| !w.dom().contains(k) by {
                    if m.contains_key(k) {
                        assert(if highest { k <= p } else { p <= k });
                    }
                }
            }
            assert(total_of(w) == 0);
        } else {
            assert(w.contains_key(p));
            lemma_total_of_remove(w, p);
            lemma_within_part_finite(m.remove(p), limit, highest);
            assert(within_part(m.remove(p), limit, highest) =~= w.remove(p));
            lemma_total_of_nonneg(w.remove(p));
            let acc2 = acc + m[p].total_quantity;
            if acc2 < need {
                lemma_fok_scan_reaches(m.remove(p), limit, highest, acc2, need);
            }
        }
    }
}

/// A fill-or-kill order whose scan finds its quantity is executed as a
/// trade against the opposite side within its limit.
pub proof fn lemma_fok_execution(opp: HalfState, own: HalfState, order: EngineNewOrder, limit: u32)
    requires
        order.order_type == OrderType::FillOrKill(limit),
        fok_scan(opp.levels, limit, !order.is_buy_side, 0, order.initial_quantity as int) matches Some(a)
            && a >= order.initial_quantity,
    ensures
        ({
            let r = opp.take_side(order.initial_quantity as int, Some(limit), !order.is_buy_side);
            execution(opp, own, order) == (r.0, own, Ok::<MatchOutcome, OrderBookError>(outcome(None, r.2, r.3)))
        }),
{
    reveal(execution);
}

/// A good-till-cancel order with a price trades within it and rests what
/// is left on its own side.
pub proof fn lemma_gtc_execution(opp: HalfState, own: HalfState, order: EngineNewOrder, price: u32)
    requires
        order.order_type is GoodTillCancel,
        order.price == Some(price),
    ensures
        ({
            let r = opp.take_side(order.initial_quantity as int, Some(price), !order.is_buy_side);
            if r.1 > 0 {
                execution(opp, own, order) == (
                    r.0,
                    own.rest(resting_node(order, r.1 as u32)),
                    Ok::<MatchOutcome, OrderBookError>(outcome(Some(own.resting_slot() as u32), r.2, r.3)),
                )
            } else {
                execution(opp, own, order) == (r.0, own, Ok::<MatchOutcome, OrderBookError>(outcome(None, r.2, r.3)))
            }
        }),
{
    reveal(execution);
}

/// A rested order sits in the resting slot, which the registry maps its id to.
pub proof fn lemma_rest_places(st: HalfState, order: OrderNode)
    requires
        st.wf(),
    ensures
        ({
            let s2 = st.rest(order);
            let x = st.resting_slot();
            &&& s2.live(x)
            &&& s2.node(x).order_id == order.order_id
            &&& s2.node(x).market_limit == order.market_limit
            &&& s2.node(x).current_quantity == order.current_quantity
            &&& s2.registry[order.order_id] == x
        }),
{
    let p = order.market_limit;
    let x = st.resting_slot();
    let recycled = st.free.len() > 0;
    lemma_resting_slot_free(st);
    let placed = if st.appends_at(p) { with_prev(order, st.levels[p].tail) } else { order };
    lemma_place(st.pool, recycled, x, placed);
    if st.appends_at(p) {
        assert(st.level_wf(p));
        assert(st.slot_ok(p, st.lists[p].len() - 1));
    }
}

/// Trading within one level removes from the side exactly the quantity traded.
pub proof fn lemma_take_level_total(st: HalfState, p: u32, fill: int)
    requires
        st.wf(),
        st.levels.contains_key(p),
        fill >= 0,
    ensures
        total_of(st.take_level(p, fill).0.levels) == total_of(st.levels) - (fill - st.take_level(p, fill).1),
        st.take_level(p, fill).0.wf(),
        st.take_level(p, fill).0.levels.dom() == st.levels.dom(),
        st.take_level(p, fill).1 >= 0,
{
    lemma_take_level_conserve(st, p, fill);
    let r1 = st.take_level(p, fill);
    assert forall|k: u32| #[trigger] r1.0.levels.contains_key(k) && k != p implies r1.0.levels[k] == st.levels[k] by {
        assert(r1.0.levels.remove(p)[k] == st.levels.remove(p)[k]);
    }
    assert(r1.0.levels =~= st.levels.insert(p, r1.0.levels[p]));
    lemma_total_of_insert(st.levels, p, r1.0.levels[p]);
}

/// Trading against a side removes from it exactly the quantity traded.
#[verifier::rlimit(60)]
pub proof fn lemma_take_side_total(st: HalfState, fill: int, limit: Option<u32>, highest: bool)
    requires
        st.wf(),
        fill >= 0,
    ensures
        total_of(st.take_side(fill, limit, highest).0.levels) == total_of(st.levels) - (fill
            - st.take_side(fill, limit, highest).1),
    decreases st.levels.dom().len(),
{
    if fill <= 0 || st.levels.dom().len() == 0 {
    } else {
        lemma_best_key(st.levels, highest);
        let p = st.best_price(highest);
        if within(p, limit, highest) {
            lemma_take_level_total(st, p, fill);
            let r1 = st.take_level(p, fill);
            if r1.0.levels[p].total_quantity == 0 {
                lemma_zero_total_empty(r1.0, p);
                lemma_drop_level_wf(r1.0, p);
                let s3 = r1.0.drop_level(p);
                lemma_total_of_remove(r1.0.levels, p);
                lemma_take_side_total(s3, r1.1, limit, highest);
            }
        }
    }
}

} // verus!
