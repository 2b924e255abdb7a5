use vstd::prelude::*;
use std::collections::BTreeMap;
use vstd::std_specs::iter::IteratorSpec;
use vstd::std_specs::cmp::OrdSpec;
use crate::order_book::types::PriceLevel;

verus! {

/// The levels of `m` with their total quantities, lowest price first.
pub fn levels_ascending(m: &BTreeMap<u32, PriceLevel>) -> (r: Vec<(u32, u32)>)
    ensures
        r@.len() == m@.dom().len(),
        forall|i: int| 0 <= i < r@.len() ==> m@.contains_key(#[trigger] r@[i].0) && r@[i].1 == m@[r@[i].0].total_quantity,
        forall|i: int, j: int| 0 <= i < j < r@.len() ==> r@[i].0 < r@[j].0,
        forall|k: u32| m@.contains_key(k) ==> exists|i: int| 0 <= i < r@.len() && #[trigger] r@[i].0 == k,
{
    let mut out: Vec<(u32, u32)> = Vec::new();
    let ghost all = vstd::std_specs::btree::spec_btree_map_iter(m).remaining();
    for (price, level) in it: m.iter()
        invariant
            it.seq() == all,
            out@.len() == it.index(),
            forall|i: int| 0 <= i < it.index() ==> #[trigger] out@[i] == (*all[i].0, all[i].1.total_quantity),
    {
        out.push((*price, level.total_quantity));
    }
    proof {
        let ks = all.map_values(|kv: (&u32, &PriceLevel)| *kv.0);
        assert(vstd::laws_cmp::obeys_cmp::<u32>()) by {
            broadcast use vstd::laws_cmp::group_laws_cmp;
        }
        assert(vstd::std_specs::btree::increasing_seq(ks));
        vstd::std_specs::btree::axiom_increasing_seq_meaning::<u32>(ks);
        assert forall|i: int, j: int| 0 <= i < j < out@.len() implies out@[i].0 < out@[j].0 by {
            assert(ks[i] == out@[i].0);
            assert(ks[j] == out@[j].0);
            assert(ks[i].cmp_spec(&ks[j]) is Less);
        }
        assert forall|k: u32| m@.contains_key(k) implies exists|i: int| 0 <= i < out@.len() && #[trigger] out@[i].0 == k by {
            assert(all.contains((&k, &m@[k])));
            let i = choose|i: int| 0 <= i < all.len() && all[i] == (&k, &m@[k]);
            assert(out@[i].0 == k);
        }
    }
    out
}

} // verus!
