//! Staged validation of a strategy: what each stage decides, and what is left
//! of the pipeline after it.

use vstd::prelude::*;

use crate::market_data::{every_nth, subsample, thinning_step, MarketData};
use crate::number::{ratio, ratio_of, Number};
use crate::types::BacktestResult;
use crate::walk_forward::{stage1_training_only_end, training_end};
use crate::wf_report::QuickSignalDryRunResult;

verus! {

/// Verdict of a single stage.
#[derive(Debug, Clone)]
pub struct StageVerdict {
    pub stage: u8,
    pub name: String,
    pub passed: bool,
    pub message: String,
}

/// What a [`StageVerdict`] says.
#[verifier::ext_equal]
pub struct StageOutcome {
    pub stage: u8,
    pub name: Seq<char>,
    pub passed: bool,
    pub message: Seq<char>,
}

impl View for StageVerdict {
    type V = StageOutcome;

    open spec fn view(&self) -> StageOutcome {
        StageOutcome { stage: self.stage, name: self.name@, passed: self.passed, message: self.message@ }
    }
}

/// Overall verdict of a validation.
#[derive(Debug, Clone, Copy, PartialEq, Eq, Structural)]
pub enum Verdict {
    Pass,
    Warn,
    Fail,
}

impl Verdict {
    /// The verdict as a word.
    pub fn word(&self) -> (text: &'static str)
        ensures
            text@ == match self {
                Verdict::Pass => "pass"@,
                Verdict::Warn => "warn"@,
                Verdict::Fail => "fail"@,
            },
    {
        match self {
            Verdict::Pass => "pass",
            Verdict::Warn => "warn",
            Verdict::Fail => "fail",
        }
    }
}

/// What a validation is held against.
#[derive(Debug, Clone, Copy, PartialEq)]
pub struct ValidationLimits<N> {
    /// Least average Sharpe ratio out of sample.
    pub min_oos_sharpe: N,
    /// Highest probability of ruin that passes.
    pub max_ruin_probability: N,
}

/// Settings of a validation.
pub struct ValidationConfig<N> {
    /// Source of the strategy.
    pub python_source: String,
    /// Walk-forward windows; zero chooses them by the data.
    pub wf_windows: usize,
    /// Monte Carlo runs.
    pub mc_runs: usize,
    pub min_oos_sharpe: N,
    pub max_ruin_probability: N,
    /// Parameters that an optimisation may vary; nothing where the strategy
    /// declares none.
    pub parameter_count: Option<usize>,
    /// Fewest trades on which a Monte Carlo simulation says anything.
    pub mc_min_trades: usize,
    pub mc_confidence_level: N,
    /// Highest drawdown, as a share of the capital, that a candidate may have.
    pub max_drawdown_hard_cap: Option<N>,
}

impl<N: Number> Default for ValidationConfig<N> {
    fn default() -> (config: Self)
        ensures
            config.python_source@.len() == 0,
            config.wf_windows == 0,
            config.mc_runs == 1000,
            config.min_oos_sharpe == ratio_of::<N>(1, 2),
            config.max_ruin_probability == ratio_of::<N>(1, 5),
            config.parameter_count is None,
            config.mc_min_trades == 30,
            config.mc_confidence_level == ratio_of::<N>(19, 20),
            config.max_drawdown_hard_cap is None,
    {
        ValidationConfig {
            python_source: String::new(),
            wf_windows: 0,
            mc_runs: 1000,
            min_oos_sharpe: ratio(1, 2),
            max_ruin_probability: ratio(1, 5),
            parameter_count: None,
            mc_min_trades: 30,
            mc_confidence_level: ratio(19, 20),
            max_drawdown_hard_cap: None,
        }
    }
}

/// Where a validation stands.
#[derive(Debug, Clone, Copy, PartialEq, Eq, Structural)]
pub enum Phase {
    CostHurdle,
    LookAhead,
    QuickBacktest,
    CrossSection,
    WalkForward,
    Optimization,
    CrossValidation,
    MonteCarlo,
    /// Stopped at this stage.
    Stopped(u8),
    /// Went through all of its stages, so many.
    Finished(u8),
}

/// Fewest bars for a combinatorial cross-validation.
pub const CROSS_VALIDATION_MIN_BARS: usize = 250;

/// A validation in progress.
pub struct ValidationRun<N> {
    /// The strategy declares parameters to optimise.
    pub has_schema: bool,
    pub data_len: usize,
    pub limits: ValidationLimits<N>,
    pub phase: Phase,
    pub verdict: Verdict,
    pub look_ahead_detected: Option<bool>,
    pub stages: Vec<StageVerdict>,
}

/// What a [`ValidationRun`] holds.
#[verifier::ext_equal]
pub struct ValidationState<N> {
    pub has_schema: bool,
    pub data_len: nat,
    pub limits: ValidationLimits<N>,
    pub phase: Phase,
    pub verdict: Verdict,
    pub look_ahead_detected: Option<bool>,
    pub stages: Seq<StageOutcome>,
}

/// What the stages said.
pub open spec fn outcomes(stages: Seq<StageVerdict>) -> Seq<StageOutcome> {
    stages.map_values(|stage: StageVerdict| stage@)
}

impl<N: Number> ValidationState<N> {
    /// With the verdict of one more stage.
    pub open spec fn with_stage(self, stage: u8, name: Seq<char>, passed: bool, message: Seq<char>) -> Self {
        ValidationState { stages: self.stages.push(StageOutcome { stage, name, passed, message }), ..self }
    }

    pub open spec fn at(self, phase: Phase) -> Self {
        ValidationState { phase, ..self }
    }

    pub open spec fn judged(self, verdict: Verdict) -> Self {
        ValidationState { verdict, ..self }
    }

    /// Given up at a stage.
    pub open spec fn stopped(self, stage: u8) -> Self {
        self.at(Phase::Stopped(stage)).judged(Verdict::Fail)
    }

    /// After the check of the costs against the average move, which can be
    /// made only where there are prices.
    pub open spec fn after_cost_hurdle(self, hurdle: Option<(bool, Seq<char>)>) -> Self {
        match hurdle {
            None => self.at(Phase::LookAhead),
            Some((passed, message)) => {
                let next = self.with_stage(0, "Cost Hurdle"@, passed, message);
                if passed {
                    next.at(Phase::LookAhead)
                } else {
                    next.stopped(0)
                }
            },
        }
    }

    /// After the look-ahead test, which never stops a validation.
    pub open spec fn after_look_ahead(self, detected: Option<bool>) -> Self {
        ValidationState { look_ahead_detected: detected, ..self.at(Phase::QuickBacktest) }
    }

    /// After the quick backtest: a strategy that does not trade or loses money
    /// is given up.
    pub open spec fn after_quick_backtest(self, num_trades: usize, total_pnl: N, message: Seq<char>) -> Self {
        if num_trades == 0 {
            self.with_stage(1, "Quick Backtest"@, false, "Strategy generated no trades"@).stopped(1)
        } else if total_pnl.below(N::whole(0)) {
            self.with_stage(1, "Quick Backtest"@, false, message).stopped(1)
        } else {
            self.with_stage(1, "Quick Backtest"@, true, message).at(Phase::CrossSection)
        }
    }

    /// After the look at related assets, which is advisory.
    pub open spec fn after_cross_section(self, message: Option<Seq<char>>) -> Self {
        match message {
            None => self.at(Phase::WalkForward),
            Some(text) => self.with_stage(1, "Cross-Sectional Consistency"@, true, text).at(Phase::WalkForward),
        }
    }

    /// The walk-forward stage passes with these figures.
    pub open spec fn walk_forward_passes(self, avg_oos_sharpe: N, consistency: N) -> bool {
        self.limits.min_oos_sharpe.at_most(avg_oos_sharpe) && ratio_of::<N>(3, 10).below(consistency)
    }

    /// After walk-forward: a strategy that fails it is given up; one that
    /// passes goes on to be optimised where it declares parameters.
    pub open spec fn after_walk_forward(self, avg_oos_sharpe: N, consistency: N, message: Seq<char>) -> Self {
        let passed = self.walk_forward_passes(avg_oos_sharpe, consistency);
        let next = self.with_stage(2, "Walk-Forward"@, passed, message);
        if !passed {
            next.stopped(2)
        } else if self.has_schema {
            next.at(Phase::Optimization)
        } else {
            next.at(Phase::MonteCarlo)
        }
    }

    /// After the optimisation. Parameters under which the strategy does not
    /// trade on all of the data earn a warning.
    pub open spec fn after_optimization(self, best_fitness: N, message: Seq<char>, optimized_trades: Option<usize>) -> Self {
        let next = self.with_stage(3, "GA Optimization"@, N::whole(0).below(best_fitness), message);
        let judged = if optimized_trades == Some(0usize) && self.verdict == Verdict::Pass {
            next.judged(Verdict::Warn)
        } else {
            next
        };
        if self.data_len >= CROSS_VALIDATION_MIN_BARS {
            judged.at(Phase::CrossValidation)
        } else {
            judged.at(Phase::MonteCarlo)
        }
    }

    /// After the cross-validation, which passes where overfitting is less
    /// likely than not. One that could not be carried out says nothing.
    pub open spec fn after_cross_validation(self, overfit_probability: Option<(N, Seq<char>)>) -> Self {
        match overfit_probability {
            None => self.at(Phase::MonteCarlo),
            Some((probability, message)) => {
                let passed = probability.below(ratio_of::<N>(1, 2));
                let next = self.with_stage(4, "CPCV Analysis"@, passed, message).at(Phase::MonteCarlo);
                if passed {
                    next
                } else {
                    next.judged(Verdict::Warn)
                }
            },
        }
    }

    /// How many stages a full validation has.
    pub open spec fn full_stages(self) -> u8 {
        if self.has_schema {
            4
        } else {
            3
        }
    }

    /// After the Monte Carlo simulation, which ends a validation.
    pub open spec fn after_monte_carlo(self, ruin_probability: N, message: Seq<char>) -> Self {
        let passed = ruin_probability.at_most(self.limits.max_ruin_probability);
        let next = self.with_stage(self.full_stages(), "Monte Carlo"@, passed, message).at(
            Phase::Finished(self.full_stages()),
        );
        if passed {
            next
        } else {
            next.judged(Verdict::Warn)
        }
    }

    /// Stage that the next verdict belongs to at least.
    pub open spec fn next_stage(self) -> u8 {
        match self.phase {
            Phase::CostHurdle => 0,
            Phase::LookAhead => 0,
            Phase::QuickBacktest => 1,
            Phase::CrossSection => 1,
            Phase::WalkForward => 2,
            Phase::Optimization => 3,
            Phase::CrossValidation => 4,
            Phase::MonteCarlo => self.full_stages(),
            Phase::Stopped(stage) => stage,
            Phase::Finished(stages) => stages,
        }
    }

    /// What holds of a validation at any time: it fails where it was stopped
    /// and nowhere else, a stopped one ends with a stage that did not pass,
    /// the stages come in order, and one that passes has no failed stage but
    /// the optimisation.
    pub open spec fn valid(self) -> bool {
        &&& self.verdict == Verdict::Fail <==> self.phase is Stopped
        &&& self.phase is Stopped ==> self.stages.len() > 0 && !self.stages.last().passed
        &&& forall|i: int| 0 <= i < self.stages.len() ==> (#[trigger] self.stages[i]).stage <= self.next_stage()
        &&& forall|i: int, j: int|
            0 <= i <= j < self.stages.len() ==> (#[trigger] self.stages[i]).stage <= (#[trigger] self.stages[j]).stage
        &&& self.phase is Optimization || self.phase is CrossValidation ==> self.has_schema
        &&& self.verdict == Verdict::Pass ==> forall|i: int|
            0 <= i < self.stages.len() && !(#[trigger] self.stages[i]).passed ==> self.has_schema
                && self.stages[i].stage == 3
    }
}

impl<N: Number> View for ValidationRun<N> {
    type V = ValidationState<N>;

    open spec fn view(&self) -> ValidationState<N> {
        ValidationState {
            has_schema: self.has_schema,
            data_len: self.data_len as nat,
            limits: self.limits,
            phase: self.phase,
            verdict: self.verdict,
            look_ahead_detected: self.look_ahead_detected,
            stages: outcomes(self.stages@),
        }
    }
}

/// The state of a validation that has not begun.
pub open spec fn fresh_validation<N: Number>(has_schema: bool, data_len: nat, limits: ValidationLimits<N>) -> ValidationState<
    N,
> {
    ValidationState {
        has_schema,
        data_len,
        limits,
        phase: Phase::CostHurdle,
        verdict: Verdict::Pass,
        look_ahead_detected: None,
        stages: Seq::empty(),
    }
}

impl<N: Number> ValidationRun<N> {
    /// Starts a validation.
    pub fn new(has_schema: bool, data_len: usize, limits: ValidationLimits<N>) -> (run: Self)
        ensures
            run@ == fresh_validation(has_schema, data_len as nat, limits),
    {
        let run = ValidationRun {
            has_schema,
            data_len,
            limits,
            phase: Phase::CostHurdle,
            verdict: Verdict::Pass,
            look_ahead_detected: None,
            stages: Vec::new(),
        };
        assert(run@ =~= fresh_validation(has_schema, data_len as nat, limits));
        run
    }

    fn push_stage(&mut self, stage: u8, name: &str, passed: bool, message: String)
        ensures
            final(self)@ == old(self)@.with_stage(stage, name@, passed, message@),
    {
        let verdict = StageVerdict { stage, name: name.to_owned(), passed, message };
        self.stages.push(verdict);
        assert(self@ =~= old(self)@.with_stage(stage, name@, passed, message@));
    }

    /// Takes in the cost hurdle: whether it passed, and its message.
    pub fn on_cost_hurdle(&mut self, hurdle: Option<(bool, String)>)
        requires
            old(self)@.phase is CostHurdle,
        ensures
            final(self)@ == old(self)@.after_cost_hurdle(
                match hurdle {
                    Some((passed, message)) => Some((passed, message@)),
                    None => None,
                },
            ),
    {
        self.phase = Phase::LookAhead;
        if let Some((passed, message)) = hurdle {
            self.push_stage(0, "Cost Hurdle", passed, message);
            if !passed {
                self.phase = Phase::Stopped(0);
                self.verdict = Verdict::Fail;
            }
        }
    }

    /// Takes in the look-ahead test; nothing where it could not be made.
    pub fn on_look_ahead(&mut self, detected: Option<bool>)
        requires
            old(self)@.phase is LookAhead,
        ensures
            final(self)@ == old(self)@.after_look_ahead(detected),
    {
        self.look_ahead_detected = detected;
        self.phase = Phase::QuickBacktest;
    }

    /// Takes in the quick backtest: its trades, its profit, and its message
    /// where it has any trades.
    pub fn on_quick_backtest(&mut self, num_trades: usize, total_pnl: N, message: String)
        requires
            old(self)@.phase is QuickBacktest,
        ensures
            final(self)@ == old(self)@.after_quick_backtest(num_trades, total_pnl, message@),
    {
        if num_trades == 0 {
            self.push_stage(1, "Quick Backtest", false, "Strategy generated no trades".to_owned());
            self.phase = Phase::Stopped(1);
            self.verdict = Verdict::Fail;
        } else if total_pnl.lt(N::of(0)) {
            self.push_stage(1, "Quick Backtest", false, message);
            self.phase = Phase::Stopped(1);
            self.verdict = Verdict::Fail;
        } else {
            self.push_stage(1, "Quick Backtest", true, message);
            self.phase = Phase::CrossSection;
        }
    }

    /// Takes in what the related assets showed, if anything.
    pub fn on_cross_section(&mut self, message: Option<String>)
        requires
            old(self)@.phase is CrossSection,
        ensures
            final(self)@ == old(self)@.after_cross_section(
                match message {
                    Some(text) => Some(text@),
                    None => None,
                },
            ),
    {
        if let Some(text) = message {
            self.push_stage(1, "Cross-Sectional Consistency", true, text);
        }
        self.phase = Phase::WalkForward;
    }

    /// Takes in the walk-forward analysis.
    pub fn on_walk_forward(&mut self, avg_oos_sharpe: N, consistency: N, message: String)
        requires
            old(self)@.phase is WalkForward,
        ensures
            final(self)@ == old(self)@.after_walk_forward(avg_oos_sharpe, consistency, message@),
    {
        let passed: bool = self.limits.min_oos_sharpe.le(avg_oos_sharpe) && ratio::<N>(3, 10).lt(consistency);
        self.push_stage(2, "Walk-Forward", passed, message);
        if !passed {
            self.phase = Phase::Stopped(2);
            self.verdict = Verdict::Fail;
        } else if self.has_schema {
            self.phase = Phase::Optimization;
        } else {
            self.phase = Phase::MonteCarlo;
        }
    }

    /// Takes in the optimisation: the fitness of the best parameters, and how
    /// often the strategy trades with them on all of the data, where that
    /// could be tried.
    pub fn on_optimization(&mut self, best_fitness: N, message: String, optimized_trades: Option<usize>)
        requires
            old(self)@.phase is Optimization,
        ensures
            final(self)@ == old(self)@.after_optimization(best_fitness, message@, optimized_trades),
    {
        self.push_stage(3, "GA Optimization", N::of(0).lt(best_fitness), message);
        if let Some(trades) = optimized_trades {
            if trades == 0 && self.verdict == Verdict::Pass {
                self.verdict = Verdict::Warn;
            }
        }
        self.phase = if self.data_len >= CROSS_VALIDATION_MIN_BARS {
            Phase::CrossValidation
        } else {
            Phase::MonteCarlo
        };
    }

    /// Takes in the cross-validation: the probability of overfitting and its
    /// message; nothing where it could not be carried out.
    pub fn on_cross_validation(&mut self, overfit_probability: Option<(N, String)>)
        requires
            old(self)@.phase is CrossValidation,
        ensures
            final(self)@ == old(self)@.after_cross_validation(
                match overfit_probability {
                    Some((probability, message)) => Some((probability, message@)),
                    None => None,
                },
            ),
    {
        if let Some((probability, message)) = overfit_probability {
            let passed: bool = probability.lt(ratio::<N>(1, 2));
            self.push_stage(4, "CPCV Analysis", passed, message);
            if !passed {
                self.verdict = Verdict::Warn;
            }
        }
        self.phase = Phase::MonteCarlo;
    }

    /// Number of the Monte Carlo stage, which is the last.
    pub fn monte_carlo_stage(&self) -> (stage: u8)
        ensures
            stage == self@.full_stages(),
    {
        if self.has_schema {
            4
        } else {
            3
        }
    }

    /// Takes in the Monte Carlo simulation.
    pub fn on_monte_carlo(&mut self, ruin_probability: N, message: String)
        requires
            old(self)@.phase is MonteCarlo,
        ensures
            final(self)@ == old(self)@.after_monte_carlo(ruin_probability, message@),
    {
        let passed: bool = ruin_probability.le(self.limits.max_ruin_probability);
        let stage: u8 = self.monte_carlo_stage();
        self.push_stage(stage, "Monte Carlo", passed, message);
        self.phase = Phase::Finished(stage);
        if !passed {
            self.verdict = Verdict::Warn;
        }
    }

    /// Stages that a validation went through, once it has ended.
    pub fn stages_completed(&self) -> (stages: Option<u8>)
        ensures
            stages == match self@.phase {
                Phase::Stopped(stage) => Some(stage),
                Phase::Finished(count) => Some(count),
                _ => None,
            },
    {
        match self.phase {
            Phase::Stopped(stage) => Some(stage),
            Phase::Finished(count) => Some(count),
            _ => None,
        }
    }
}

/// Ticks that a quick run is thinned out to.
pub const QUICK_RUN_TICKS: usize = 150_000;

/// The data that a strategy may be fitted to: what the quick check may draw
/// on.
pub fn training_data<N: Number>(data: &[MarketData<N>]) -> (training: &[MarketData<N>])
    ensures
        training@ == data@.take(training_end(data@.len())),
{
    let end: usize = stage1_training_only_end(data.len());
    vstd::slice::slice_subrange(data, 0, end)
}

/// The points of a series that the quick check runs on: those of the training
/// data, thinned out.
pub open spec fn quick_check_points<T>(data: Seq<T>) -> Seq<T> {
    let training = data.take(training_end(data.len()));
    every_nth(training, thinning_step(training.len(), QUICK_RUN_TICKS as nat))
}

/// The data of the quick check.
pub fn quick_check_data<N: Number>(data: &[MarketData<N>]) -> (kept: Vec<MarketData<N>>)
    ensures
        kept@ == quick_check_points(data@),
{
    subsample(training_data(data), QUICK_RUN_TICKS)
}

/// The quick check does not depend on what walk-forward holds out: series of
/// the same length that agree on the training data give it the same points.
pub proof fn law_quick_check_sees_only_training_data<T>(a: Seq<T>, b: Seq<T>)
    requires
        a.len() == b.len(),
        a.take(training_end(a.len())) == b.take(training_end(b.len())),
    ensures
        quick_check_points(a) == quick_check_points(b),
{
}

/// The data of a dry run; nothing where there is none to run on.
pub fn dry_run_data<N: Number>(data: &[MarketData<N>]) -> (thinned: Option<Vec<MarketData<N>>>)
    ensures
        thinned is None == (data@.len() == 0),
        thinned matches Some(kept) ==> kept@ == every_nth(data@, thinning_step(data@.len(), QUICK_RUN_TICKS as nat)),
{
    if data.len() == 0 {
        None
    } else {
        Some(subsample(data, QUICK_RUN_TICKS))
    }
}

/// What a dry run on so many bars reports.
pub fn dry_run_result<N: Number>(bars_tested: usize, result: &BacktestResult<N>) -> (report: QuickSignalDryRunResult<N>)
    ensures
        report == (QuickSignalDryRunResult {
            bars_tested,
            num_trades: result.num_trades,
            total_pnl: result.total_pnl,
        }),
{
    QuickSignalDryRunResult { bars_tested, num_trades: result.num_trades, total_pnl: result.total_pnl }
}

/// A fresh validation is valid.
pub proof fn law_validation_starts_valid<N: Number>(has_schema: bool, data_len: nat, limits: ValidationLimits<N>)
    ensures
        fresh_validation(has_schema, data_len, limits).valid(),
{
}

/// Every step keeps a validation valid: it fails exactly where it is stopped,
/// and it is stopped only by a stage that did not pass.
pub proof fn law_validation_stays_valid<N: Number>(
    state: ValidationState<N>,
    hurdle: Option<(bool, Seq<char>)>,
    detected: Option<bool>,
    trades: usize,
    pnl: N,
    advice: Option<Seq<char>>,
    score: N,
    consistency: N,
    optimized_trades: Option<usize>,
    overfit: Option<(N, Seq<char>)>,
    message: Seq<char>,
)
    requires
        state.valid(),
    ensures
        state.phase is CostHurdle ==> state.after_cost_hurdle(hurdle).valid(),
        state.phase is LookAhead ==> state.after_look_ahead(detected).valid(),
        state.phase is QuickBacktest ==> state.after_quick_backtest(trades, pnl, message).valid(),
        state.phase is CrossSection ==> state.after_cross_section(advice).valid(),
        state.phase is WalkForward ==> state.after_walk_forward(score, consistency, message).valid(),
        state.phase is Optimization ==> state.after_optimization(score, message, optimized_trades).valid(),
        state.phase is CrossValidation ==> state.after_cross_validation(overfit).valid(),
        state.phase is MonteCarlo ==> state.after_monte_carlo(score, message).valid(),
{
}

/// The quick backtest lets a strategy through only where it trades and does
/// not lose money; any other is stopped there and fails.
pub proof fn law_quick_backtest_stops_losing_strategies<N: Number>(
    state: ValidationState<N>,
    num_trades: usize,
    total_pnl: N,
    message: Seq<char>,
)
    ensures
        ({
            let next = state.after_quick_backtest(num_trades, total_pnl, message);
            if num_trades == 0 || total_pnl.below(N::whole(0)) {
                next.phase == Phase::Stopped(1) && next.verdict == Verdict::Fail
            } else {
                next.phase is CrossSection && next.verdict == state.verdict
            }
        }),
{
}

/// A strategy that fails walk-forward is stopped there and fails, whether or
/// not it declares parameters; one that passes goes on.
pub proof fn law_failed_walk_forward_stops_a_validation<N: Number>(
    state: ValidationState<N>,
    avg_oos_sharpe: N,
    consistency: N,
    message: Seq<char>,
)
    ensures
        ({
            let next = state.after_walk_forward(avg_oos_sharpe, consistency, message);
            if state.walk_forward_passes(avg_oos_sharpe, consistency) {
                next.verdict == state.verdict && next.phase == if state.has_schema {
                    Phase::Optimization
                } else {
                    Phase::MonteCarlo
                }
            } else {
                next.phase == Phase::Stopped(2) && next.verdict == Verdict::Fail
            }
        }),
{
}

/// A validation that gets to its end never fails; it passes only where ruin
/// is no more probable than allowed.
pub proof fn law_finished_validation_passes_or_warns<N: Number>(
    state: ValidationState<N>,
    ruin_probability: N,
    message: Seq<char>,
)
    requires
        state.valid(),
        state.phase is MonteCarlo,
    ensures
        ({
            let end = state.after_monte_carlo(ruin_probability, message);
            &&& end.verdict != Verdict::Fail
            &&& end.verdict == Verdict::Pass ==> ruin_probability.at_most(state.limits.max_ruin_probability)
            &&& end.phase == Phase::Finished(state.full_stages())
        }),
{
}

} // verus!
