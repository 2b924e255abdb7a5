# order_book

A limit order book and matching engine, verified with Verus.

- `src/order_book/types.rs`: orders, price levels, outcomes, errors and the
  id-to-slot `OrderRegistry`.
- `src/order_book/model.rs`: the mathematical state of one side of a book
  (`HalfState`: price levels, FIFO queues of slots, slot pool, free list,
  registry), its invariant, and every operation as a spec function:
  resting an order, cancelling, modifying, trading within a level and
  against a side, the fill-or-kill scan, and the execution of an order.
- `src/order_book/proofs.rs`: the lemmas that every operation keeps the
  invariant.
- `src/order_book/orderbook.rs`: `HalfBook` and `OrderBook`, whose methods
  are proved to follow the spec functions exactly.
- `src/order_book/matching_engine.rs`: `MatchingEngine`, the books of all
  securities.
- `src/order_book/depth.rs`: the ordered listing of the levels of a side.
- `src/order_book/laws.rs`: properties of the library as a whole (price and
  time priority, fill-or-kill all-or-nothing, cancel undoing a rest, ...).
- `app/`: timing of each engine call in microseconds and `anyhow` errors.
