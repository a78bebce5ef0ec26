# tradeogre_bot

A crypto trading bot for the TradeOgre exchange, with its decision logic
verified in Verus.

- `src/` is the verified library:
  - `order_key`: totally ordered keys that stand for floating-point readings;
  - `signals`: price-movement marks, history conversion, counting and words;
  - `candles`: the rows of the candle file (read with the `csv` crate) and
    the date table built from them (last row per date, in date order);
  - `windows`: recent-movement windows and the named candle windows of the store;
  - `similarity`: ranking by similarity, and the id and tail of a prediction;
  - `decimal`: decimal writing and reading of integers;
  - `trading`: the buy / sell / hold decision of each tick;
  - `exchange`: endpoints, authorization (Base64), order bodies, retries,
    balance lookup and market names;
  - `backtest`: replay of recorded prices;
  - `setup`, `report`: settings source, data cache, trade-log rows.
- `app/` is the program: HTTP, files, the TOML settings, reading prices as floats, logging, the
  floating-point vector store (cosine similarity) and slope, and the main loop.
- `tests/` runs the library on concrete values.
