# Prediction market arbitrage

The decision logic of a trading system for prediction markets, verified with Verus, and a
program that runs it.

`src/` is the library. Every function states in its contract what it returns, and Verus proves
it, but for the wrappers of functions of the standard library, `chrono` and `rustc-hash`: their
contracts are believed, and the comment above each says what of.

- `binary64`: IEEE double-precision arithmetic on bit patterns: the four operations, square
  roots, order, conversion to whole numbers and fixed-point text. Each result is the nearest
  double, ties to even; the laws in `ranges` and `monotone` bound the results, and
  `errors` bounds how far they are from the exact ones.
- `text`, `time`: text, instants and dates as plain values.
- `kalman`: estimates of probabilities, their fusion over platforms, and the filters of all
  markets.
- `grinding`: thresholds, Kelly sizes, expected values, the scan of the markets and the ranking
  of what it finds.
- `paper_trading`: simulated fills, paper positions and paper capital.
- `persistence`: the words, rows and state values of the database, and the reconciliation with
  the exchanges after a restart.
- `discord`: alerts, the filters that let them through, the rate limit and the retries.
- `dashboard`: the state, the controls, the events and the pages of the web dashboard.
- `heartbeat`, `system`, `market`: what the pairs of contracts cost, and the decisions of the
  running system.

`app/` is ordinary Rust around it: SQLite, HTTP, the web server, the clock, random draws and the
loops. `tests/` runs the library.
