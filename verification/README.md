# backtest

Decision logic of an event-driven trading backtester, verified with Verus.

- `src/` is the library. Every function states what it returns or changes, and
  Verus proves it.
- `tests/` runs the library on concrete values, most of them with
  double-precision numbers.
- `app/` is ordinary Rust around the library: floating-point numbers, the
  asynchronous loops, files, Python and serialisation.

## Layout of the library

| Modules | What they hold |
|---|---|
| `number`, `order_laws`, `double`, `double_order` | arithmetic that prices are written over; bounds that follow from a total order; double-precision rounding, bit for bit, and that it keeps the order |
| `text`, `clock`, `id_map`, `rolling_window` | small foundations |
| `market_data`, `asof`, `signals`, `synthetic_book` | what comes in: data points, series looked up by time, signals, a book implied by a candle |
| `fills`, `ledger`, `risk`, `directional`, `directional_run`, `results` | directional simulation, from an order to the result of a run |
| `simulation`, `simulation_costs`, `simulation_run`, `quoting_history` | quoting simulation: resting orders, volumes, costs, the course of a run and its figures, and what strategies see of the past |
| `tick_flow` | the order of the work on one tick of either simulation |
| `rebalancing` | portfolios that are brought back to their target weights |
| `regime`, `walk_forward`, `folds`, `window_laws`, `wf_report`, `combine` | walk-forward analysis: windows, embargo, regimes, averages and the combined result |
| `measures`, `significance` | drawdowns, cost hurdle, ruin, significance of a Sharpe ratio, resampling |
| `lookahead`, `cross_section`, `optimization`, `evaluation_key`, `parameters`, `workers`, `validation` | the validation of a strategy, stage by stage |
| `types` | what results and reports are made of |

Public proof functions whose names begin with `law_` state what holds of
several functions together.

## Numbers

Price logic is generic over `Number`. A contract gives a result as an
expression over the number's own operations, so it holds of rounding
arithmetic too; `order_laws` adds what follows where comparisons make a total
order. `number::Fixed` is a fixed-point implementation. Callers may bring
another, such as a double-precision one; the exponential, the logarithm and
powers with fractional exponents are then handed in as functions.
