# perps_v1

A small perpetual futures exchange: an order book with price-time priority
matching, positions with margin and liquidation prices, a balance keeper that
holds every user's wallet, and an HTTP front end.

The exchange logic is a Verus library under `src/`, every function of it
verified against its contract:

- `table` — the keyed store the engine keeps its orders, positions, fills and
  wallets in, viewed as a `Map`.
- `engine::model` — the mathematical model of the book: price levels, the
  sweep that matches an incoming order (`book_sweep`), and the consistency
  invariant the engine keeps (`book_consistent`).
- `engine::core_matching`, `create_order`, `position`, `delete_order`,
  `get_depth`, `liquidation` — placing, matching, position updates,
  cancellation, depth snapshots and liquidation, each stated over the model.
- `engine::check_balance` — the balance keeper's operations and the request
  it serves.
- `engine::engine` — the router's decision and the market worker's handling
  of one request.
- `engine::laws` — properties of the engine as a whole, proved.
- `channel` — the trusted declarations of the tokio channels the engine talks
  through.
- `utils`, `store`, `types`, `websocket` — accounts, request payloads and the
  price stream's message.

`app/` holds what Verus does not see: the Actix handlers, the threads and the
runtime that run the engine, the price stream connection and token signing.
