# exchange_engine

A limit-order-book exchange core whose logic is verified with Verus.

Prices, quantities and balances are fixed-point integers (units of 10^-8);
decimal text is read with `rust_decimal` and converted exactly.

## Layout

- `src/` — the verified library
  - `units`: decimal text to fixed-point units
  - `trade/`: the single-market matching engine (`engine`), its order book
    (`orderbook`), book depth and counts (`depth`), balances (`bank`), and the
    proved laws of matching (`laws`)
  - `model`, `orderbook`, `engine`, `ledger`, `utils`: the engine service's
    requests, order-book indexes, per-market engine and reports
  - `api`: the gateway's market registry and order routing
  - `market_data`: candle buckets, room and channel names, websocket subscriptions
  - `persistence`: batching rules of the storage workers
  - `accounts`, `text`: association lists keyed by name, string helpers
- `tests/` — tests of the library
- `app/` — the services around it: Redis queues and pub/sub, the websocket and
  HTTP servers, the storage workers and load generators
