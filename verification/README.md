# flowsurface

The logic of a trading chart: candles with footprints, volume profiles, volume bubbles
and drawings, gamma-exposure levels, and the persistent cache behind them. The library
under `src/` is verified with Verus; `app/` is ordinary Rust around it.

## Layout

- `src/connector/` – the cache and the option data.
  - `intervals`, `buckets`, `keys`, `frame`, `coverage`, `records` – covered ranges of time,
    time buckets, keys, checked blobs, coverage records, and the normal forms of records.
  - `persistent_cache`, `cache_store`, `kline_integrity`, `bubble_merge` – how a read is
    planned and finished, how a store is planned and merged.
  - `dataset`, `cache_laws`, `trade_laws`, `gex_laws` – a dataset as a whole, and what a read
    gives back of a store.
  - `gex*`, `failure` – requests for option data, their pauses after failures
    (`gex_retry_laws`), the history of derived snapshots, and their stored form.
- `src/chart/kline/` – the chart of candles: trades, sessions, fetching (`market`), summaries,
  profiles, footprints, bubbles, candles, moments, crosshair, layers, gamma zones and rails, updates.
- `src/chart/kline/drawing/` – the drawing tools: geometry, labels, style, the state
  machine (`transitions`, `state`, `laws`), panels and lists.
- `src/chart/gex.rs` – the gamma chart; `src/chart/indicator/` – cumulative delta and open
  interest.
- `src/layout.rs`, `src/json.rs` – dashboard templates.
- `src/order.rs`, `src/units.rs`, `src/text.rs`, `src/lists.rs`, `src/fx.rs` – stable orders,
  units of price, quantity and time, strings, lists, and hash maps.
- `app/` – the database, files, requests, and painting.
- `tests/` – the library on concrete values.

## Numbers

Prices and quantities are integers of a fixed scale. Figures that are only compared or
carried are held as bit patterns (`Bits32`, `Bits64`) or by the slot at which `app/` keeps
them; what is computed in floating point is computed in `app/`.

## What is trusted

Calls into other crates stand behind small functions whose doc comments say what is
claimed of them: `rustc_hash` maps and sets (`fx`), `serde_json` documents (`json`),
`bincode` coverage records (`coverage`), and the calendars of `chrono` and `chrono-tz`
(`sessions`, `labels`, `moments`). Beside them only `String::push` of the standard library is given
a contract (`text`).
