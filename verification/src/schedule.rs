//! Iteration budget and the pace of the search.
//!
//! A run lasts a number of steps fixed before it starts. Within the run the
//! step length first ramps up, is then held at its peak, and finally decays.
//! Rates themselves are real numbers and are computed by the caller; this
//! module decides the phase of each step and the exact fraction that places
//! the step inside its phase.
use vstd::prelude::*;

verus! {

/// Steps of a run with few sites.
pub const BASE_ITERS: usize = 250;

/// Steps that a run with `FREE_SITES + SITE_SPAN` sites is given.
pub const MAX_ITERS: usize = 600;

/// Number of sites up to which the base budget is kept.
pub const FREE_SITES: usize = 10;

/// Number of further sites over which the budget grows from base to maximum.
pub const SITE_SPAN: usize = 50;

/// Step at which the fixed schedule drops from its peak rate to its floor.
pub const FIXED_DROP: usize = 150;

/// The two ways a run is paced.
#[derive(Clone, Copy, Debug, PartialEq, Eq, Structural)]
pub enum Pacing {
    /// A fixed number of steps, the rate dropping once.
    Fixed,
    /// A budget that grows with the number of sites; the rate ramps up, is
    /// held, and decays along half a cosine.
    Adaptive,
}

/// Where a step stands in the course of the step length.
#[derive(Clone, Copy, Debug, PartialEq, Eq, Structural)]
pub enum RatePhase {
    /// Linear ramp from the start rate to the peak: the rate is
    /// `start + (peak - start) * step / span`.
    Ramp { step: usize, span: usize },
    /// Held at the peak rate.
    Peak,
    /// Half-cosine decay from peak to floor: the rate is
    /// `floor + (peak - floor) * (1 + cos(pi * step / span)) / 2`.
    Decay { step: usize, span: usize },
    /// Held at the floor rate.
    Floor,
}

/// Where a step stands in the course of the adjacency weight.
#[derive(Clone, Copy, Debug, PartialEq, Eq, Structural)]
pub enum WeightPhase {
    /// Linear ramp from the low weight to the plateau: the weight is
    /// `low + (plateau - low) * step / span`.
    Ramp { step: usize, span: usize },
    /// Held at the plateau.
    Plateau,
}

/// What one step of a run is to do.
#[derive(Clone, Copy, Debug, PartialEq, Eq, Structural)]
pub struct StepPlan {
    pub rate: RatePhase,
    pub adjacency: WeightPhase,
    /// Whether the mesh of this step is the one to be kept.
    pub capture: bool,
}

/// The course of one run.
#[derive(Clone, Copy, Debug, PartialEq, Eq, Structural)]
pub struct Schedule {
    pub pacing: Pacing,
    pub n_iter: usize,
    pub warmup: usize,
    pub decay_start: usize,
}

/// Budget before anchoring is taken into account: `BASE_ITERS` steps, and for
/// the sites beyond `FREE_SITES` their share of the `MAX_ITERS - BASE_ITERS`
/// steps that `SITE_SPAN` further sites are given, rounded down. The numbers
/// are written out, so that the budget of a given plan can be computed.
pub open spec fn scaled_budget(n_sites: nat) -> nat {
    let extra = if n_sites > FREE_SITES {
        (n_sites - FREE_SITES) as nat
    } else {
        0
    };
    250 + (extra * 350) / 50
}

/// A budget lengthened by a tenth, rounded to the nearest step (halves up).
pub open spec fn lengthened(n_iter: nat) -> nat {
    (n_iter * 11 + 5) / 10
}

/// Number of steps of an adaptive run.
pub open spec fn adaptive_budget(n_sites: nat, anchored: bool) -> nat {
    if anchored {
        lengthened(scaled_budget(n_sites))
    } else {
        scaled_budget(n_sites)
    }
}

/// Number of steps of a run.
pub open spec fn budget(pacing: Pacing, n_sites: nat, anchored: bool) -> nat {
    match pacing {
        Pacing::Fixed => BASE_ITERS as nat,
        Pacing::Adaptive => adaptive_budget(n_sites, anchored),
    }
}

/// The schedule of a run, as a mathematical value.
pub open spec fn schedule_of(pacing: Pacing, n_sites: nat, anchored: bool) -> Schedule {
    let n = budget(pacing, n_sites, anchored);
    match pacing {
        Pacing::Fixed => Schedule {
            pacing,
            n_iter: n as usize,
            warmup: 0,
            decay_start: FIXED_DROP,
        },
        Pacing::Adaptive => Schedule {
            pacing,
            n_iter: n as usize,
            warmup: (n / 20) as usize,
            decay_start: (n / 6) as usize,
        },
    }
}

/// The numbers written out in `scaled_budget` are the constants of this
/// module.
pub proof fn lemma_budget_constants()
    ensures
        BASE_ITERS == 250,
        MAX_ITERS - BASE_ITERS == 350,
        SITE_SPAN == 50,
{
}

/// The growth of the budget is seven steps for each site beyond `FREE_SITES`.
pub proof fn lemma_scaled_budget_linear(n_sites: nat)
    ensures
        n_sites <= FREE_SITES ==> scaled_budget(n_sites) == BASE_ITERS,
        n_sites > FREE_SITES ==> scaled_budget(n_sites) == BASE_ITERS + 7 * (n_sites
            - FREE_SITES),
{
    if n_sites > FREE_SITES {
        let extra = (n_sites - FREE_SITES) as nat;
        assert((extra * 350) / 50 == 7 * extra) by (nonlinear_arith);
    } else {
        assert((0nat * 350) / 50 == 0) by (nonlinear_arith);
    }
}

/// Lengthening adds a tenth, rounded: the result is the budget plus
/// `(budget + 5) / 10`.
pub proof fn lemma_lengthened_split(n_iter: nat)
    ensures
        lengthened(n_iter) == n_iter + (n_iter + 5) / 10,
{
    assert((n_iter * 11 + 5) / 10 == n_iter + (n_iter + 5) / 10) by (nonlinear_arith);
}

/// Number of steps of an adaptive run with `n_sites` sites.
pub fn iteration_budget(n_sites: usize, anchored: bool) -> (n_iter: usize)
    requires
        adaptive_budget(n_sites as nat, anchored) <= usize::MAX,
    ensures
        n_iter == adaptive_budget(n_sites as nat, anchored),
{
    proof {
        lemma_scaled_budget_linear(n_sites as nat);
        lemma_lengthened_split(scaled_budget(n_sites as nat));
    }
    let extra: usize = if n_sites > FREE_SITES {
        n_sites - FREE_SITES
    } else {
        0
    };
    let scaled: usize = BASE_ITERS + 7 * extra;
    if anchored {
        scaled + (scaled + 5) / 10
    } else {
        scaled
    }
}

/// Whether the number of steps of a run can be counted on this machine.
pub fn budget_fits(pacing: Pacing, n_sites: usize, anchored: bool) -> (fits: bool)
    ensures
        fits == (budget(pacing, n_sites as nat, anchored) <= usize::MAX),
{
    match pacing {
        Pacing::Fixed => true,
        Pacing::Adaptive => {
            proof {
                lemma_scaled_budget_linear(n_sites as nat);
                lemma_lengthened_split(scaled_budget(n_sites as nat));
            }
            let extra: usize = if n_sites > FREE_SITES {
                n_sites - FREE_SITES
            } else {
                0
            };
            let wide: u128 = BASE_ITERS as u128 + 7 * (extra as u128);
            let total: u128 = if anchored {
                wide + (wide + 5) / 10
            } else {
                wide
            };
            total <= usize::MAX as u128
        },
    }
}

impl Schedule {
    /// The phases follow one another within the run.
    pub open spec fn wf(self) -> bool {
        self.warmup <= self.decay_start <= self.n_iter
    }

    /// Phase of the step length at step `t`.
    pub open spec fn rate_phase(self, t: nat) -> RatePhase {
        if t < self.warmup {
            RatePhase::Ramp { step: t as usize, span: self.warmup }
        } else if t < self.decay_start {
            RatePhase::Peak
        } else {
            match self.pacing {
                Pacing::Adaptive => RatePhase::Decay {
                    step: (t - self.decay_start) as usize,
                    span: (self.n_iter - self.decay_start) as usize,
                },
                Pacing::Fixed => RatePhase::Floor,
            }
        }
    }

    /// Phase of the adjacency weight at step `t`.
    pub open spec fn weight_phase(self, t: nat) -> WeightPhase {
        match self.pacing {
            Pacing::Adaptive => if t < self.decay_start {
                WeightPhase::Ramp { step: t as usize, span: self.decay_start }
            } else {
                WeightPhase::Plateau
            },
            Pacing::Fixed => WeightPhase::Plateau,
        }
    }

    /// What step `t` is to do.
    pub open spec fn step_plan(self, t: nat) -> StepPlan {
        StepPlan {
            rate: self.rate_phase(t),
            adjacency: self.weight_phase(t),
            capture: t + 1 == self.n_iter,
        }
    }

    /// The schedule of a run over `n_sites` sites; `anchored` says whether any
    /// coordinate of any site is held by a non-zero anchor weight.
    pub fn new(pacing: Pacing, n_sites: usize, anchored: bool) -> (s: Schedule)
        requires
            budget(pacing, n_sites as nat, anchored) <= usize::MAX,
        ensures
            s == schedule_of(pacing, n_sites as nat, anchored),
            s.wf(),
    {
        match pacing {
            Pacing::Fixed => Schedule {
                pacing,
                n_iter: BASE_ITERS,
                warmup: 0,
                decay_start: FIXED_DROP,
            },
            Pacing::Adaptive => {
                let n_iter = iteration_budget(n_sites, anchored);
                Schedule { pacing, n_iter, warmup: n_iter / 20, decay_start: n_iter / 6 }
            },
        }
    }

    /// Phase of the step length at step `t` of the run.
    pub fn rate_at(&self, t: usize) -> (phase: RatePhase)
        requires
            self.wf(),
            t < self.n_iter,
        ensures
            phase == self.rate_phase(t as nat),
    {
        if t < self.warmup {
            RatePhase::Ramp { step: t, span: self.warmup }
        } else if t < self.decay_start {
            RatePhase::Peak
        } else {
            match self.pacing {
                Pacing::Adaptive => RatePhase::Decay {
                    step: t - self.decay_start,
                    span: self.n_iter - self.decay_start,
                },
                Pacing::Fixed => RatePhase::Floor,
            }
        }
    }

    /// Phase of the adjacency weight at step `t` of the run.
    pub fn weight_at(&self, t: usize) -> (phase: WeightPhase)
        requires
            self.wf(),
            t < self.n_iter,
        ensures
            phase == self.weight_phase(t as nat),
    {
        match self.pacing {
            Pacing::Adaptive => if t < self.decay_start {
                WeightPhase::Ramp { step: t, span: self.decay_start }
            } else {
                WeightPhase::Plateau
            },
            Pacing::Fixed => WeightPhase::Plateau,
        }
    }

    /// What step `t` of the run is to do: its phases, and whether its mesh is
    /// the one to keep, which holds of the last step alone.
    pub fn plan_step(&self, t: usize) -> (plan: StepPlan)
        requires
            self.wf(),
            t < self.n_iter,
        ensures
            plan == self.step_plan(t as nat),
            plan.capture <==> t == self.n_iter - 1,
    {
        StepPlan {
            rate: self.rate_at(t),
            adjacency: self.weight_at(t),
            capture: t == self.n_iter - 1,
        }
    }
}

/// A run under way: its schedule and the number of steps already handed out.
#[derive(Clone, Copy, Debug, PartialEq, Eq, Structural)]
pub struct Run {
    pub schedule: Schedule,
    pub done: usize,
}

impl Run {
    /// The steps handed out are steps of the schedule.
    pub open spec fn wf(self) -> bool {
        self.schedule.wf() && self.done <= self.schedule.n_iter
    }

    /// Number of steps still to be handed out.
    pub open spec fn left(self) -> nat {
        (self.schedule.n_iter - self.done) as nat
    }

    /// A run of `schedule` of which no step has been taken.
    pub fn start(schedule: Schedule) -> (run: Run)
        requires
            schedule.wf(),
        ensures
            run.schedule == schedule,
            run.done == 0,
            run.wf(),
    {
        Run { schedule, done: 0 }
    }

    /// Hands out the next step of the run, or nothing once all steps of the
    /// schedule have been handed out.
    pub fn advance(&mut self) -> (plan: Option<StepPlan>)
        requires
            old(self).wf(),
        ensures
            final(self).wf(),
            final(self).schedule == old(self).schedule,
            old(self).left() > 0 ==> plan == Some(
                old(self).schedule.step_plan(old(self).done as nat),
            ) && final(self).done == old(self).done + 1,
            old(self).left() == 0 ==> plan is None && final(self).done == old(self).done,
    {
        if self.done < self.schedule.n_iter {
            let plan = self.schedule.plan_step(self.done);
            self.done = self.done + 1;
            Some(plan)
        } else {
            None
        }
    }
}

/// A run hands out as many steps as its schedule has, one after the other:
/// with `k` steps handed out, a further step is handed out exactly when `k` is
/// below the number of steps, it is step `k`, and it is to be captured exactly
/// when it is the last.
pub proof fn lemma_run_takes_every_step_once(run: Run)
    requires
        run.wf(),
    ensures
        run.left() > 0 <==> run.done < run.schedule.n_iter,
        run.left() > 0 ==> (run.schedule.step_plan(run.done as nat).capture <==> run.left() == 1),
{
}

/// Fraction of a phase that lies behind a step.
pub open spec fn progress(step: nat, span: nat) -> real {
    (step as real) / (span as real)
}

/// The step length that a phase stands for, given the three rates of the run
/// and the shape of the decay: a function on `[0, 1]` that gives the share of
/// the way from floor to peak left at a given progress. The decay that
/// `RatePhase::Decay` describes has the shape `(1 + cos(pi * x)) / 2`.
pub open spec fn rate_value(
    phase: RatePhase,
    start: real,
    peak: real,
    floor: real,
    shape: spec_fn(real) -> real,
) -> real {
    match phase {
        RatePhase::Ramp { step, span } => start + (peak - start) * progress(
            step as nat,
            span as nat,
        ),
        RatePhase::Peak => peak,
        RatePhase::Decay { step, span } => floor + (peak - floor) * shape(
            progress(step as nat, span as nat),
        ),
        RatePhase::Floor => floor,
    }
}

/// A decay shape starts at one, ends at zero and never rises on `[0, 1]`.
pub open spec fn is_decay_shape(shape: spec_fn(real) -> real) -> bool {
    &&& shape(0 as real) == 1 as real
    &&& shape(1 as real) == 0 as real
    &&& forall|u: real, v: real|
        (0 as real) <= u <= v <= (1 as real) ==> #[trigger] shape(v) <= #[trigger] shape(u)
}

/// Progress grows with the step, is zero at the start of a phase and one at
/// its end.
pub proof fn lemma_progress(a: nat, b: nat, span: nat)
    requires
        a <= b,
        span > 0,
    ensures
        progress(a, span) <= progress(b, span),
        progress(0, span) == 0 as real,
        progress(span, span) == 1 as real,
{
    assert((a as real) / (span as real) <= (b as real) / (span as real)) by (nonlinear_arith)
        requires
            a as real <= b as real,
            span as real > 0 as real,
    ;
    assert((0 as real) / (span as real) == 0 as real) by (nonlinear_arith)
        requires
            span as real > 0 as real,
    ;
    assert((span as real) / (span as real) == 1 as real) by (nonlinear_arith)
        requires
            span as real > 0 as real,
    ;
}

/// The same inputs give the same schedule: the number of steps, and with it
/// the whole course of a run, is a function of the pacing, the number of sites
/// and whether anything is anchored.
pub proof fn lemma_budget_is_a_function(
    pacing: Pacing,
    n_sites: nat,
    anchored: bool,
    a: Schedule,
    b: Schedule,
)
    requires
        a == schedule_of(pacing, n_sites, anchored),
        b == schedule_of(pacing, n_sites, anchored),
    ensures
        a.n_iter == b.n_iter,
        a == b,
        forall|t: nat| a.step_plan(t) == b.step_plan(t),
{
}

/// More sites never shorten an adaptive run, and anchoring never shortens it.
pub proof fn lemma_budget_monotone(n: nat, m: nat, anchored: bool)
    requires
        n <= m,
    ensures
        adaptive_budget(n, anchored) <= adaptive_budget(m, anchored),
        adaptive_budget(n, false) <= adaptive_budget(n, true),
        BASE_ITERS <= adaptive_budget(n, anchored),
{
    lemma_scaled_budget_linear(n);
    lemma_scaled_budget_linear(m);
    lemma_lengthened_split(scaled_budget(n));
    lemma_lengthened_split(scaled_budget(m));
}

/// The ramp ends where the peak begins. Up to the last step of the warm-up the
/// rate lies on the line from the start rate towards the peak; continued to
/// step `warmup` that line gives the peak rate, and the rate at step `warmup`
/// is the peak rate.
pub proof fn lemma_rate_joins_at_warmup(
    s: Schedule,
    start: real,
    peak: real,
    floor: real,
    shape: spec_fn(real) -> real,
)
    requires
        s.wf(),
        s.pacing == Pacing::Adaptive,
        0 < s.warmup < s.n_iter,
        is_decay_shape(shape),
    ensures
        forall|t: nat|
            t < s.warmup ==> #[trigger] s.rate_phase(t) == (RatePhase::Ramp {
                step: t as usize,
                span: s.warmup,
            }),
        rate_value(
            RatePhase::Ramp { step: s.warmup, span: s.warmup },
            start,
            peak,
            floor,
            shape,
        ) == peak,
        rate_value(s.rate_phase(s.warmup as nat), start, peak, floor, shape) == peak,
{
    lemma_progress(0, s.warmup as nat, s.warmup as nat);
    let one = progress(s.warmup as nat, s.warmup as nat);
    assert(start + (peak - start) * one == peak) by (nonlinear_arith)
        requires
            one == 1 as real,
    ;
    if s.warmup == s.decay_start {
        let span = (s.n_iter - s.decay_start) as nat;
        lemma_progress(0, 0, span);
        let zero = shape(progress(0, span));
        assert(floor + (peak - floor) * zero == peak) by (nonlinear_arith)
            requires
                zero == 1 as real,
        ;
    }
}

/// The decay begins at the peak: at step `decay_start` the rate is the peak
/// rate, as it is at every step of the hold before it.
pub proof fn lemma_rate_joins_at_decay_start(
    s: Schedule,
    start: real,
    peak: real,
    floor: real,
    shape: spec_fn(real) -> real,
)
    requires
        s.wf(),
        s.pacing == Pacing::Adaptive,
        s.decay_start < s.n_iter,
        is_decay_shape(shape),
    ensures
        rate_value(s.rate_phase(s.decay_start as nat), start, peak, floor, shape) == peak,
        forall|t: nat|
            s.warmup <= t < s.decay_start ==> rate_value(
                #[trigger] s.rate_phase(t),
                start,
                peak,
                floor,
                shape,
            ) == peak,
{
    let span = (s.n_iter - s.decay_start) as nat;
    lemma_progress(0, 0, span);
    let zero = shape(progress(0, span));
    assert(floor + (peak - floor) * zero == peak) by (nonlinear_arith)
        requires
            zero == 1 as real,
    ;
}

/// From `decay_start` on the rate never rises, and it stays between the floor
/// and the peak. The decay, continued to the end of the run, gives the floor.
pub proof fn lemma_rate_never_rises_in_decay(
    s: Schedule,
    t1: nat,
    t2: nat,
    start: real,
    peak: real,
    floor: real,
    shape: spec_fn(real) -> real,
)
    requires
        s.wf(),
        s.decay_start <= t1 <= t2 < s.n_iter,
        floor <= peak,
        is_decay_shape(shape),
    ensures
        rate_value(s.rate_phase(t2), start, peak, floor, shape) <= rate_value(
            s.rate_phase(t1),
            start,
            peak,
            floor,
            shape,
        ),
        floor <= rate_value(s.rate_phase(t1), start, peak, floor, shape) <= peak,
        rate_value(
            RatePhase::Decay {
                step: (s.n_iter - s.decay_start) as usize,
                span: (s.n_iter - s.decay_start) as usize,
            },
            start,
            peak,
            floor,
            shape,
        ) == floor,
{
    let whole = (s.n_iter - s.decay_start) as nat;
    lemma_progress(0, whole, whole);
    let none = shape(progress(whole, whole));
    assert(floor + (peak - floor) * none == floor) by (nonlinear_arith)
        requires
            none == 0 as real,
    ;
    if s.pacing == Pacing::Adaptive {
        let span = (s.n_iter - s.decay_start) as nat;
        let a = (t1 - s.decay_start) as nat;
        let b = (t2 - s.decay_start) as nat;
        lemma_progress(a, b, span);
        lemma_progress(0, a, span);
        lemma_progress(b, span, span);
        let k = peak - floor;
        let ya = shape(progress(a, span));
        let yb = shape(progress(b, span));
        assert(yb <= ya);
        assert(ya <= 1 as real);
        assert(floor + k * yb <= floor + k * ya) by (nonlinear_arith)
            requires
                k >= 0 as real,
                yb <= ya,
        ;
        assert(floor + k * ya <= peak) by (nonlinear_arith)
            requires
                k == peak - floor,
                k >= 0 as real,
                ya <= 1 as real,
        ;
        lemma_progress(a, span, span);
        assert(ya >= 0 as real);
        assert(floor <= floor + k * ya) by (nonlinear_arith)
            requires
                k >= 0 as real,
                ya >= 0 as real,
        ;
    }
}

/// The adjacency weight that a phase stands for, given the weight at the start
/// of the ramp and the weight of the plateau.
pub open spec fn weight_value(phase: WeightPhase, low: real, plateau: real) -> real {
    match phase {
        WeightPhase::Ramp { step, span } => low + (plateau - low) * progress(
            step as nat,
            span as nat,
        ),
        WeightPhase::Plateau => plateau,
    }
}

/// The adjacency weight never falls in the course of a run, and its ramp,
/// continued to the step at which the plateau begins, gives the plateau.
pub proof fn lemma_weight_never_falls(s: Schedule, t1: nat, t2: nat, low: real, plateau: real)
    requires
        s.wf(),
        t1 <= t2 < s.n_iter,
        low <= plateau,
    ensures
        weight_value(s.weight_phase(t1), low, plateau) <= weight_value(
            s.weight_phase(t2),
            low,
            plateau,
        ),
        low <= weight_value(s.weight_phase(t1), low, plateau) <= plateau,
        s.decay_start > 0 ==> weight_value(
            WeightPhase::Ramp { step: s.decay_start, span: s.decay_start },
            low,
            plateau,
        ) == plateau,
{
    let span = s.decay_start as nat;
    let k = plateau - low;
    if span > 0 {
        lemma_progress(0, span, span);
        let one = progress(span, span);
        assert(low + k * one == plateau) by (nonlinear_arith)
            requires
                one == 1 as real,
                k == plateau - low,
        ;
    }
    if s.pacing == Pacing::Adaptive && t1 < span {
        let a = progress(t1, span);
        lemma_progress(0, t1, span);
        lemma_progress(t1, span, span);
        assert(low <= low + k * a <= plateau) by (nonlinear_arith)
            requires
                k == plateau - low,
                k >= 0 as real,
                0 as real <= a <= 1 as real,
        ;
        if t2 < span {
            let b = progress(t2, span);
            lemma_progress(t1, t2, span);
            assert(low + k * a <= low + k * b) by (nonlinear_arith)
                requires
                    k >= 0 as real,
                    a <= b,
            ;
        }
    }
}

} // verus!
