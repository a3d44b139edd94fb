//! Decision logic of an event-driven trading backtester.
//!
//! The library simulates directional and quoting strategies, keeps their
//! trades, combines and judges their results, plans walk-forward windows and
//! leads a strategy through its validation. It works on plain values: bar
//! counts, indices, millisecond timestamps, labels and flags. Prices,
//! quantities and scores are a type parameter, [`number::Number`], whose
//! operations the contracts name in the order in which they are applied.
//!
//! Loops that wait for an account, an order book or a strategy are state
//! machines here; the caller carries out each step and hands back what came
//! of it.

use vstd::prelude::*;

pub mod asof;
pub mod book_laws;
pub mod clock;
pub mod combine;
pub mod combine_laws;
pub mod cross_section;
pub mod data_laws;
pub mod depth_laws;
pub mod directional;
pub mod directional_laws;
pub mod directional_run;
pub mod double;
pub mod double_order;
pub mod evaluation_key;
pub mod exact;
pub mod fill_laws;
pub mod fills;
pub mod fixed_laws;
pub mod folds;
pub mod id_map;
pub mod judgement_laws;
pub mod ledger;
pub mod ledger_laws;
pub mod lookahead;
pub mod market_data;
pub mod measure_laws;
pub mod measures;
pub mod number;
pub mod optimization;
pub mod order_laws;
pub mod parameters;
pub mod planning_laws;
pub mod quoting_history;
pub mod quoting_laws;
pub mod rebalancing;
pub mod rebalancing_laws;
pub mod regime;
pub mod result_laws;
pub mod results;
pub mod risk;
pub mod rolling_window;
pub mod signals;
pub mod significance;
pub mod significance_laws;
pub mod simulation;
pub mod simulation_costs;
pub mod simulation_run;
pub mod state_laws;
pub mod synthetic_book;
pub mod text;
pub mod tick_flow;
pub mod types;
pub mod validation;
pub mod walk_forward;
pub mod wf_report;
pub mod window_laws;
pub mod workers;

verus! {

} // verus!
