//! Flow-matching samplers: which solver a name selects, and which noise levels and earlier estimates
//! each step of a solver combines.

use vstd::prelude::*;
use crate::error::Error;
use crate::numeric::smaller;
use crate::text::{ascii_lowered, decimal, decimal_text, join2, join3, same_text, to_ascii_lower};

verus! {

/// The solver of a denoise loop.
#[derive(Debug, Clone, Copy, PartialEq, Eq, Structural)]
pub enum SolverKind {
    Euler,
    Dpmpp2m,
    UniPC,
}

/// The solver that a name selects.
pub open spec fn solver_named(name: Seq<char>) -> SolverKind {
    let n = ascii_lowered(name);
    if n == "euler"@ {
        SolverKind::Euler
    } else if n == "dpm++"@ || n == "dpmpp"@ || n == "dpmpp2m"@ || n == "dpm++2m"@
        || n == "dpmpp_2m"@ {
        SolverKind::Dpmpp2m
    } else {
        SolverKind::UniPC
    }
}

impl SolverKind {
    /// The solver that a sampler's name selects, whatever its case. A name that selects none gives
    /// the default solver.
    pub fn from_name(name: &str) -> (r: SolverKind)
        ensures
            r == solver_named(name@),
    {
        let n = to_ascii_lower(name);
        let s = n.as_str();
        if same_text(s, "euler") {
            SolverKind::Euler
        } else if same_text(s, "dpm++") || same_text(s, "dpmpp") || same_text(s, "dpmpp2m")
            || same_text(s, "dpm++2m") || same_text(s, "dpmpp_2m") {
            SolverKind::Dpmpp2m
        } else {
            SolverKind::UniPC
        }
    }
}

/// What a step past the end of a schedule is answered.
pub open spec fn over_stepped(step_index: int, sigmas_len: int) -> Seq<char> {
    "WanScheduler::step over-stepped: step_index "@ + decimal(step_index as nat)
        + " but the schedule has "@ + (decimal(
        if sigmas_len > 0 {
            (sigmas_len - 1) as nat
        } else {
            0
        },
    ) + " step(s) ("@ + (decimal(sigmas_len as nat)
        + " sigmas) — call set_timesteps and run exactly that many steps"@))
}

/// Whether a step may be taken: a schedule of `n` steps has `n + 1` noise levels, and a step needs
/// the level it starts from and the one it leads to.
pub fn ensure_step_in_range(step_index: usize, sigmas_len: usize) -> (r: Result<(), Error>)
    requires
        step_index < usize::MAX,
    ensures
        match r {
            Ok(()) => step_index + 1 < sigmas_len,
            Err(e) => step_index + 1 >= sigmas_len && e is Msg && e.text() == over_stepped(
                step_index as int,
                sigmas_len as int,
            ),
        },
{
    if step_index + 1 >= sigmas_len {
        let steps: usize = if sigmas_len > 0 {
            sigmas_len - 1
        } else {
            0
        };
        let tail = join2(
            decimal_text(sigmas_len).as_str(),
            " sigmas) — call set_timesteps and run exactly that many steps",
        );
        let middle = join3(decimal_text(steps).as_str(), " step(s) (", tail.as_str());
        let head = join3(
            "WanScheduler::step over-stepped: step_index ",
            decimal_text(step_index).as_str(),
            " but the schedule has ",
        );
        return Err(Error::Msg(join2(head.as_str(), middle.as_str())));
    }
    Ok(())
}

/// An earlier estimate that a step combines: the noise level it belongs to and the step that made it.
#[derive(Debug, Clone, Copy, PartialEq, Eq, Structural)]
pub struct Term {
    pub sigma: usize,
    pub estimate: usize,
}

/// A predictor or corrector: it leads from one noise level to another, based on the newest estimate
/// and corrected by earlier ones.
#[derive(Debug, PartialEq, Eq)]
pub struct Multistep {
    pub from: usize,
    pub to: usize,
    pub base: usize,
    pub earlier: Vec<Term>,
}

/// What one step of a solver combines. Noise levels and estimates are given by their step.
#[derive(Debug, PartialEq, Eq)]
pub enum StepPlan {
    /// Along the velocity from one noise level to another.
    Euler { from: usize, to: usize },
    /// From one noise level to another, with the estimate of the step before where it is second
    /// order. A step that leads `to_clean`, to a level without noise, gives its own estimate as it
    /// is.
    Dpmpp2m { from: usize, to: usize, previous: Option<usize>, to_clean: bool },
    /// Correct the sample, where there is one to correct, then predict the next. A step that leads
    /// `to_clean`, to a level without noise, gives its own estimate as it is.
    UniPC { corrector: Option<Multistep>, predictor: Multistep, to_clean: bool },
}

/// The step whose estimate a multistep solver's plan gives as it is, with no other estimate and no
/// sample in it.
pub open spec fn plain_estimate(plan: StepPlan) -> Option<int> {
    match plan {
        StepPlan::Euler { from: _, to: _ } => None,
        StepPlan::Dpmpp2m { from, to: _, previous: _, to_clean } => if to_clean {
            Some(from as int)
        } else {
            None
        },
        StepPlan::UniPC { corrector: _, predictor, to_clean } => if to_clean {
            Some(predictor.base as int)
        } else {
            None
        },
    }
}

/// The terms of a multistep of order `order` whose base is estimate `base`: the estimates before it,
/// newest first.
pub open spec fn terms_before(base: int, order: int) -> Seq<(int, int)> {
    Seq::new(
        if order > 1 {
            (order - 1) as nat
        } else {
            0
        },
        |k: int| (base - (k + 1), base - (k + 1)),
    )
}

/// Terms as pairs of a noise level and an estimate.
pub open spec fn term_views(terms: Seq<Term>) -> Seq<(int, int)> {
    Seq::new(terms.len(), |k: int| (terms[k].sigma as int, terms[k].estimate as int))
}

/// The order of the predictor at step `i` of `steps`: no more than the solver's order, than the
/// steps that are left, and than the estimates there are.
pub open spec fn predictor_order(solver_order: int, steps: int, i: int) -> int {
    smaller(smaller(solver_order, steps - i), i + 1)
}

/// Whether a multistep leads to noise level `to` from the one before it, based on the estimate that
/// belongs to that level, with the earlier estimates that an order allows.
pub open spec fn is_multistep(m: Multistep, to: int, order: int) -> bool {
    &&& m.to == to
    &&& m.from == to - 1
    &&& m.base == to - 1
    &&& term_views(m.earlier@) =~= terms_before(to - 1, order)
}

/// A solver's schedule: how many steps it has, and how many are done.
pub trait WanScheduler {
    /// Whether the state is one that the solver can be in.
    spec fn wf(&self) -> bool;

    /// How many steps are done.
    spec fn done(&self) -> int;

    /// The noise levels of the schedule, as whether each has noise: one more than it has steps, the
    /// last without noise, and none before a schedule is set.
    spec fn levels(&self) -> Seq<bool>;

    /// What does not change over the life of the solver.
    spec fn settings(&self) -> (int, int);

    /// Whether a plan is what the next step is to do.
    spec fn next_is(&self, plan: StepPlan) -> bool;

    /// Sets a schedule and starts over. It has a step for every level in `noisy`, which says whether
    /// the level that the step starts from has noise; the last step leads to no noise.
    fn set_timesteps(&mut self, noisy: Vec<bool>)
        requires
            old(self).wf(),
        ensures
            final(self).wf(),
            final(self).done() == 0,
            final(self).levels() == noisy@.push(false),
            final(self).settings() == old(self).settings(),
    ;

    /// Plans the next step and counts it as done. Past the end of the schedule it is an error and
    /// nothing changes.
    fn step(&mut self) -> (r: Result<StepPlan, Error>)
        requires
            old(self).wf(),
        ensures
            final(self).wf(),
            final(self).levels() == old(self).levels(),
            final(self).settings() == old(self).settings(),
            match r {
                Ok(plan) => {
                    &&& old(self).done() + 1 < old(self).levels().len()
                    &&& final(self).done() == old(self).done() + 1
                    &&& old(self).next_is(plan)
                },
                Err(e) => {
                    &&& old(self).done() + 1 >= old(self).levels().len()
                    &&& final(self).done() == old(self).done()
                    &&& e is Msg
                    &&& e.text() == over_stepped(
                        old(self).done(),
                        old(self).levels().len() as int,
                    )
                },
            },
    ;

    /// Starts the schedule over.
    fn reset(&mut self)
        requires
            old(self).wf(),
        ensures
            final(self).wf(),
            final(self).done() == 0,
            final(self).levels() == old(self).levels(),
            final(self).settings() == old(self).settings(),
    ;
}

/// Whether noise levels are those of a schedule, or of none, of which so many steps are done.
pub open spec fn is_schedule(levels: Seq<bool>, done: int) -> bool {
    &&& levels.len() > 0 ==> !levels.last()
    &&& done == 0 || 0 < done < levels.len()
}

/// The levels that the steps of a schedule start from, followed by the level without noise.
fn with_clean_end(noisy: Vec<bool>) -> (r: Vec<bool>)
    ensures
        r@ == noisy@.push(false),
{
    let mut out = noisy;
    out.push(false);
    out
}

/// The first-order solver.
#[derive(Debug)]
pub struct FlowMatchEuler {
    num_train_timesteps: usize,
    sigmas: Vec<bool>,
    step_index: usize,
}

impl FlowMatchEuler {
    /// A solver without a schedule.
    pub fn new(num_train_timesteps: usize) -> (r: FlowMatchEuler)
        ensures
            r.wf(),
            r.done() == 0,
            r.levels() == Seq::<bool>::empty(),
            r.settings() == (num_train_timesteps as int, 1int),
    {
        FlowMatchEuler { num_train_timesteps, sigmas: Vec::new(), step_index: 0 }
    }
}

impl WanScheduler for FlowMatchEuler {
    closed spec fn wf(&self) -> bool {
        is_schedule(self.sigmas@, self.step_index as int)
    }

    closed spec fn done(&self) -> int {
        self.step_index as int
    }

    closed spec fn levels(&self) -> Seq<bool> {
        self.sigmas@
    }

    closed spec fn settings(&self) -> (int, int) {
        (self.num_train_timesteps as int, 1)
    }

    open spec fn next_is(&self, plan: StepPlan) -> bool {
        plan == (StepPlan::Euler { from: self.done() as usize, to: (self.done() + 1) as usize })
    }

    fn set_timesteps(&mut self, noisy: Vec<bool>) {
        self.sigmas = with_clean_end(noisy);
        self.step_index = 0;
    }

    fn step(&mut self) -> (r: Result<StepPlan, Error>) {
        let i: usize = self.step_index;
        match ensure_step_in_range(i, self.sigmas.len()) {
            Err(e) => Err(e),
            Ok(()) => {
                self.step_index = i + 1;
                Ok(StepPlan::Euler { from: i, to: i + 1 })
            },
        }
    }

    fn reset(&mut self) {
        self.step_index = 0;
    }
}

/// The second-order multistep solver.
#[derive(Debug)]
pub struct FlowDpmpp2m {
    num_train_timesteps: usize,
    sigmas: Vec<bool>,
    step_index: usize,
    prev_x0: Option<usize>,
}

/// Whether step `i` of a schedule is second order: it is not the first, and leads to a level with
/// noise.
pub open spec fn second_order(levels: Seq<bool>, i: int) -> bool {
    0 < i && levels[i + 1]
}

impl FlowDpmpp2m {
    /// A solver without a schedule.
    pub fn new(num_train_timesteps: usize) -> (r: FlowDpmpp2m)
        ensures
            r.wf(),
            r.done() == 0,
            r.levels() == Seq::<bool>::empty(),
            r.settings() == (num_train_timesteps as int, 2int),
    {
        FlowDpmpp2m { num_train_timesteps, sigmas: Vec::new(), step_index: 0, prev_x0: None }
    }
}

impl WanScheduler for FlowDpmpp2m {
    closed spec fn wf(&self) -> bool {
        &&& is_schedule(self.sigmas@, self.step_index as int)
        &&& self.prev_x0 == if self.step_index == 0 {
            None
        } else {
            Some((self.step_index - 1) as usize)
        }
    }

    closed spec fn done(&self) -> int {
        self.step_index as int
    }

    closed spec fn levels(&self) -> Seq<bool> {
        self.sigmas@
    }

    closed spec fn settings(&self) -> (int, int) {
        (self.num_train_timesteps as int, 2)
    }

    open spec fn next_is(&self, plan: StepPlan) -> bool {
        plan == (StepPlan::Dpmpp2m {
            from: self.done() as usize,
            to: (self.done() + 1) as usize,
            previous: if second_order(self.levels(), self.done()) {
                Some((self.done() - 1) as usize)
            } else {
                None
            },
            to_clean: !self.levels()[self.done() + 1],
        })
    }

    fn set_timesteps(&mut self, noisy: Vec<bool>) {
        self.sigmas = with_clean_end(noisy);
        self.step_index = 0;
        self.prev_x0 = None;
    }

    fn step(&mut self) -> (r: Result<StepPlan, Error>) {
        let i: usize = self.step_index;
        match ensure_step_in_range(i, self.sigmas.len()) {
            Err(e) => Err(e),
            Ok(()) => {
                let to_clean: bool = !self.sigmas[i + 1];
                let previous: Option<usize> = if to_clean {
                    None
                } else {
                    self.prev_x0
                };
                self.prev_x0 = Some(i);
                self.step_index = i + 1;
                Ok(StepPlan::Dpmpp2m { from: i, to: i + 1, previous, to_clean })
            },
        }
    }

    fn reset(&mut self) {
        self.step_index = 0;
        self.prev_x0 = None;
    }
}

/// The default solver: a predictor and a corrector of order `solver_order`.
#[derive(Debug)]
pub struct FlowUniPC {
    num_train_timesteps: usize,
    solver_order: usize,
    sigmas: Vec<bool>,
    step_index: usize,
    lower_order_nums: usize,
    model_outputs: Vec<Option<usize>>,
    last_sample: bool,
    this_order: usize,
}

/// Whether step `i` of a schedule corrects its sample: it is not the first, and starts from a level
/// with noise.
pub open spec fn corrected(levels: Seq<bool>, i: int) -> bool {
    0 < i && levels[i]
}

/// The history after `done` steps, newest last: the last estimates, and nothing where there are
/// fewer than slots.
spec fn history_is(history: Seq<Option<usize>>, slots: int, done: int) -> bool {
    &&& history.len() == slots
    &&& forall|j: int|
        0 <= j < slots ==> #[trigger] history[j] == if done - (slots - j) >= 0 {
            Some((done - (slots - j)) as usize)
        } else {
            None::<usize>
        }
}

/// A history without an estimate.
fn empty_history(slots: usize) -> (r: Vec<Option<usize>>)
    ensures
        history_is(r@, slots as int, 0),
{
    let mut out: Vec<Option<usize>> = Vec::new();
    let mut i: usize = 0;
    while i < slots
        invariant
            i <= slots,
            out.len() == i,
            forall|j: int| 0 <= j < i ==> #[trigger] out@[j] is None,
        decreases slots - i,
    {
        out.push(None);
        i += 1;
    }
    out
}

/// The terms that a multistep of an order takes from the history: for each earlier estimate the one
/// in its slot, until one is missing. `base` is the step of the newest estimate in the history.
fn collect_terms(history: &Vec<Option<usize>>, base: usize, order: usize) -> (r: Vec<Term>)
    requires
        history.len() > 0,
        base < usize::MAX,
        history_is(history@, history.len() as int, base + 1),
        order <= history.len(),
        order <= base + 1,
    ensures
        term_views(r@) =~= terms_before(base as int, order as int),
{
    let slots: usize = history.len();
    let mut out: Vec<Term> = Vec::new();
    let mut k: usize = 1;
    while k < order
        invariant
            1 <= k,
            k <= order || order == 0 && k == 1,
            slots == history.len(),
            order <= slots,
            order <= base + 1,
            base < usize::MAX,
            history_is(history@, slots as int, base + 1),
            out.len() == k - 1,
            forall|j: int|
                0 <= j < k - 1 ==> (#[trigger] out@[j]).sigma == base - (j + 1) && out@[j].estimate
                    == base - (j + 1),
        decreases order - k,
    {
        let slot: usize = slots - 1 - k;
        match history[slot] {
            Some(estimate) => {
                out.push(Term { sigma: base - k, estimate });
            },
            None => {
                assert(false);
            },
        }
        k += 1;
    }
    out
}

impl FlowUniPC {
    /// A solver without a schedule.
    pub fn new(num_train_timesteps: usize, solver_order: usize) -> (r: FlowUniPC)
        requires
            solver_order > 0,
        ensures
            r.wf(),
            r.done() == 0,
            r.levels() == Seq::<bool>::empty(),
            r.settings() == (num_train_timesteps as int, solver_order as int),
    {
        FlowUniPC {
            num_train_timesteps,
            solver_order,
            sigmas: Vec::new(),
            step_index: 0,
            lower_order_nums: 0,
            model_outputs: empty_history(solver_order),
            last_sample: false,
            this_order: 1,
        }
    }

    /// Plans the corrector, with the order of the predictor of the step before. It leads to the
    /// current noise level from the one before it.
    fn uni_c_bh2(&self) -> (r: Multistep)
        requires
            self.wf(),
            0 < self.done() < self.levels().len() - 1,
        ensures
            is_multistep(
                r,
                self.done(),
                predictor_order(self.settings().1, self.levels().len() - 1, self.done() - 1),
            ),
    {
        let i: usize = self.step_index;
        let earlier = collect_terms(&self.model_outputs, i - 1, self.this_order);
        Multistep { from: i - 1, to: i, base: i - 1, earlier }
    }

    /// Drops the oldest estimate of the history and appends the current step's.
    fn shift_history(&mut self)
        requires
            old(self).solver_order > 0,
            history_is(
                old(self).model_outputs@,
                old(self).solver_order as int,
                old(self).step_index as int,
            ),
            old(self).step_index < usize::MAX,
        ensures
            history_is(
                final(self).model_outputs@,
                old(self).solver_order as int,
                old(self).step_index + 1,
            ),
            final(self).num_train_timesteps == old(self).num_train_timesteps,
            final(self).solver_order == old(self).solver_order,
            final(self).sigmas@ == old(self).sigmas@,
            final(self).step_index == old(self).step_index,
            final(self).lower_order_nums == old(self).lower_order_nums,
            final(self).last_sample == old(self).last_sample,
            final(self).this_order == old(self).this_order,
    {
        let mut shifted: Vec<Option<usize>> = Vec::new();
        let mut k: usize = 0;
        let slots: usize = self.solver_order;
        while k < slots - 1
            invariant
                slots > 0,
                k <= slots - 1,
                slots == self.solver_order,
                slots == self.model_outputs.len(),
                shifted.len() == k,
                forall|j: int| 0 <= j < k ==> #[trigger] shifted@[j] == self.model_outputs@[j + 1],
                *self == *old(self),
            decreases slots - k,
        {
            shifted.push(self.model_outputs[k + 1]);
            k += 1;
        }
        shifted.push(Some(self.step_index));
        self.model_outputs = shifted;
    }
}

impl WanScheduler for FlowUniPC {
    closed spec fn wf(&self) -> bool {
        &&& self.solver_order > 0
        &&& is_schedule(self.sigmas@, self.step_index as int)
        &&& self.lower_order_nums == smaller(self.step_index as int, self.solver_order as int)
        &&& history_is(self.model_outputs@, self.solver_order as int, self.step_index as int)
        &&& self.last_sample == (self.step_index > 0)
        &&& self.this_order == if self.step_index == 0 {
            1
        } else {
            predictor_order(
                self.solver_order as int,
                self.sigmas@.len() - 1,
                self.step_index - 1,
            )
        }
    }

    closed spec fn done(&self) -> int {
        self.step_index as int
    }

    closed spec fn levels(&self) -> Seq<bool> {
        self.sigmas@
    }

    closed spec fn settings(&self) -> (int, int) {
        (self.num_train_timesteps as int, self.solver_order as int)
    }

    open spec fn next_is(&self, plan: StepPlan) -> bool {
        match plan {
            StepPlan::UniPC { corrector, predictor, to_clean } => {
                &&& to_clean == !self.levels()[self.done() + 1]
                &&& match corrector {
                    Some(c) => corrected(self.levels(), self.done()) && is_multistep(
                        c,
                        self.done(),
                        predictor_order(self.settings().1, self.levels().len() - 1, self.done() - 1),
                    ),
                    None => !corrected(self.levels(), self.done()),
                }
                &&& is_multistep(
                    predictor,
                    self.done() + 1,
                    predictor_order(self.settings().1, self.levels().len() - 1, self.done()),
                )
            },
            _ => false,
        }
    }

    fn set_timesteps(&mut self, noisy: Vec<bool>) {
        self.sigmas = with_clean_end(noisy);
        self.step_index = 0;
        self.lower_order_nums = 0;
        self.model_outputs = empty_history(self.solver_order);
        self.last_sample = false;
        self.this_order = 1;
    }

    fn step(&mut self) -> (r: Result<StepPlan, Error>) {
        let i: usize = self.step_index;
        match ensure_step_in_range(i, self.sigmas.len()) {
            Err(e) => {
                return Err(e);
            },
            Ok(()) => {},
        }
        let corrector: Option<Multistep> = if i > 0 && self.last_sample && self.sigmas[i] {
            Some(self.uni_c_bh2())
        } else {
            None
        };
        self.shift_history();
        let to_clean: bool = !self.sigmas[i + 1];
        let left: usize = self.sigmas.len() - 1 - i;
        let capped: usize = if self.solver_order <= left {
            self.solver_order
        } else {
            left
        };
        let known: usize = if capped <= self.lower_order_nums {
            capped
        } else {
            self.lower_order_nums + 1
        };
        self.this_order = if capped <= known {
            capped
        } else {
            known
        };
        self.last_sample = true;
        let earlier = collect_terms(&self.model_outputs, i, self.this_order);
        let predictor = Multistep { from: i, to: i + 1, base: i, earlier };
        if self.lower_order_nums < self.solver_order {
            self.lower_order_nums = self.lower_order_nums + 1;
        }
        self.step_index = i + 1;
        Ok(StepPlan::UniPC { corrector, predictor, to_clean })
    }

    fn reset(&mut self) {
        self.step_index = 0;
        self.lower_order_nums = 0;
        self.model_outputs = empty_history(self.solver_order);
        self.last_sample = false;
        self.this_order = 1;
    }
}

/// The weights of the terms of a multistep.
#[derive(Debug, Clone, Copy, PartialEq, Eq, Structural)]
pub enum Weights {
    /// One term, of weight one half.
    Half,
    /// The weights solve a square system of so many rows.
    Solve { rows: usize },
}

/// How a predictor weighs its terms: up to one earlier estimate has weight one half, more are solved
/// for.
pub fn predictor_weights(earlier: usize) -> (r: Weights)
    ensures
        r == if earlier <= 1 {
            Weights::Half
        } else {
            Weights::Solve { rows: earlier }
        },
        predicts_with(r, earlier as int),
{
    if earlier <= 1 {
        Weights::Half
    } else {
        Weights::Solve { rows: earlier }
    }
}

/// How a corrector weighs its terms: the fresh estimate alone has weight one half, with earlier
/// estimates all are solved for.
pub fn corrector_weights(earlier: usize) -> (r: Weights)
    requires
        earlier < usize::MAX,
    ensures
        r == if earlier == 0 {
            Weights::Half
        } else {
            Weights::Solve { rows: (earlier + 1) as usize }
        },
        corrects_with(r, earlier as int),
{
    if earlier == 0 {
        Weights::Half
    } else {
        Weights::Solve { rows: earlier + 1 }
    }
}

/// A solver of any kind.
#[derive(Debug)]
pub enum Scheduler {
    Euler(FlowMatchEuler),
    Dpmpp2m(FlowDpmpp2m),
    UniPC(FlowUniPC),
}

impl Scheduler {
    /// The kind of the solver.
    pub open spec fn kind(&self) -> SolverKind {
        match self {
            Scheduler::Euler(_) => SolverKind::Euler,
            Scheduler::Dpmpp2m(_) => SolverKind::Dpmpp2m,
            Scheduler::UniPC(_) => SolverKind::UniPC,
        }
    }
}

/// The order of the solver of a kind.
pub open spec fn order_of(kind: SolverKind) -> int {
    match kind {
        SolverKind::Euler => 1,
        SolverKind::Dpmpp2m => 2,
        SolverKind::UniPC => 2,
    }
}

/// A solver of a kind, without a schedule.
pub fn make_scheduler(kind: SolverKind, num_train_timesteps: usize) -> (r: Scheduler)
    ensures
        r.wf(),
        r.kind() == kind,
        r.done() == 0,
        r.levels() == Seq::<bool>::empty(),
        r.settings() == (num_train_timesteps as int, order_of(kind)),
{
    match kind {
        SolverKind::Euler => Scheduler::Euler(FlowMatchEuler::new(num_train_timesteps)),
        SolverKind::Dpmpp2m => Scheduler::Dpmpp2m(FlowDpmpp2m::new(num_train_timesteps)),
        SolverKind::UniPC => Scheduler::UniPC(FlowUniPC::new(num_train_timesteps, 2)),
    }
}

impl WanScheduler for Scheduler {
    open spec fn wf(&self) -> bool {
        match self {
            Scheduler::Euler(s) => s.wf(),
            Scheduler::Dpmpp2m(s) => s.wf(),
            Scheduler::UniPC(s) => s.wf(),
        }
    }

    open spec fn done(&self) -> int {
        match self {
            Scheduler::Euler(s) => s.done(),
            Scheduler::Dpmpp2m(s) => s.done(),
            Scheduler::UniPC(s) => s.done(),
        }
    }

    open spec fn levels(&self) -> Seq<bool> {
        match self {
            Scheduler::Euler(s) => s.levels(),
            Scheduler::Dpmpp2m(s) => s.levels(),
            Scheduler::UniPC(s) => s.levels(),
        }
    }

    open spec fn settings(&self) -> (int, int) {
        match self {
            Scheduler::Euler(s) => s.settings(),
            Scheduler::Dpmpp2m(s) => s.settings(),
            Scheduler::UniPC(s) => s.settings(),
        }
    }

    open spec fn next_is(&self, plan: StepPlan) -> bool {
        match self {
            Scheduler::Euler(s) => s.next_is(plan),
            Scheduler::Dpmpp2m(s) => s.next_is(plan),
            Scheduler::UniPC(s) => s.next_is(plan),
        }
    }

    fn set_timesteps(&mut self, noisy: Vec<bool>)
        ensures
            final(self).kind() == old(self).kind(),
    {
        match self {
            Scheduler::Euler(s) => s.set_timesteps(noisy),
            Scheduler::Dpmpp2m(s) => s.set_timesteps(noisy),
            Scheduler::UniPC(s) => s.set_timesteps(noisy),
        }
    }

    fn step(&mut self) -> (r: Result<StepPlan, Error>)
        ensures
            final(self).kind() == old(self).kind(),
    {
        match self {
            Scheduler::Euler(s) => s.step(),
            Scheduler::Dpmpp2m(s) => s.step(),
            Scheduler::UniPC(s) => s.step(),
        }
    }

    fn reset(&mut self)
        ensures
            final(self).kind() == old(self).kind(),
    {
        match self {
            Scheduler::Euler(s) => s.reset(),
            Scheduler::Dpmpp2m(s) => s.reset(),
            Scheduler::UniPC(s) => s.reset(),
        }
    }
}

/// The predictor's order is at least one and at most the solver's, it uses no estimate that was not
/// made yet, the first and the last step are first order, and in between it is the full order wherever
/// there are enough estimates and enough steps left.
pub proof fn law_predictor_order(solver_order: int, steps: int, i: int)
    requires
        solver_order > 0,
        0 <= i < steps,
    ensures
        1 <= predictor_order(solver_order, steps, i) <= solver_order,
        predictor_order(solver_order, steps, i) - 1 <= i,
        i == 0 || i == steps - 1 ==> predictor_order(solver_order, steps, i) == 1,
        i + 1 >= solver_order && steps - i >= solver_order ==> predictor_order(
            solver_order,
            steps,
            i,
        ) == solver_order,
{
}

/// A step of a multistep solver that leads to a level without noise gives its own estimate as it is,
/// and no other step does.
pub proof fn law_clean_step_gives_its_estimate(s: Scheduler, plan: StepPlan)
    requires
        s.wf(),
        s.kind() != SolverKind::Euler,
        s.done() + 1 < s.levels().len(),
        s.next_is(plan),
    ensures
        plain_estimate(plan) == if s.levels()[s.done() + 1] {
            None
        } else {
            Some(s.done())
        },
{
    match s {
        Scheduler::Euler(_) => {},
        Scheduler::Dpmpp2m(d) => {
            assert(d.done() >= 0);
        },
        Scheduler::UniPC(u) => {
            assert(u.wf());
        },
    }
}

/// The last step of a multistep solver gives its own estimate as it is, and is first order.
pub proof fn law_last_step_gives_its_estimate(s: Scheduler, plan: StepPlan)
    requires
        s.wf(),
        s.kind() != SolverKind::Euler,
        s.done() + 2 == s.levels().len(),
        s.next_is(plan),
    ensures
        plain_estimate(plan) == Some(s.done()),
        match plan {
            StepPlan::Euler { from: _, to: _ } => false,
            StepPlan::Dpmpp2m { from: _, to: _, previous, to_clean: _ } => previous is None,
            StepPlan::UniPC { corrector: _, predictor, to_clean: _ } => predictor.earlier@.len() == 0,
        },
{
    law_clean_step_gives_its_estimate(s, plan);
    match s {
        Scheduler::Euler(_) => {},
        Scheduler::Dpmpp2m(d) => {
            assert(d.done() >= 0);
        },
        Scheduler::UniPC(u) => {
            assert(u.wf());
            if let StepPlan::UniPC { corrector: _, predictor, to_clean: _ } = plan {
                let order = predictor_order(u.settings().1, u.levels().len() - 1, u.done());
                assert(term_views(predictor.earlier@).len() == predictor.earlier@.len());
                assert(term_views(predictor.earlier@) =~= terms_before(u.done(), order));
            }
        },
    }
}

/// With a solver of order two, every step but the first and the last predicts from two estimates.
pub proof fn law_default_solver_is_second_order(steps: int, i: int)
    requires
        0 < i < steps - 1,
    ensures
        predictor_order(order_of(SolverKind::UniPC), steps, i) == 2,
        terms_before(i, 2) == seq![(i - 1, i - 1)],
{
    assert(terms_before(i, 2) =~= seq![(i - 1, i - 1)]);
}

/// A corrector leads where the predictor of the step before led, from the same base and with the same
/// terms.
pub proof fn law_corrector_repeats_predictor(
    before: Multistep,
    corrector: Multistep,
    solver_order: int,
    steps: int,
    i: int,
)
    requires
        0 < i < steps,
        is_multistep(before, i, predictor_order(solver_order, steps, i - 1)),
        is_multistep(corrector, i, predictor_order(solver_order, steps, i - 1)),
    ensures
        before.from == corrector.from,
        before.to == corrector.to,
        before.base == corrector.base,
        before.earlier@ == corrector.earlier@,
{
    let a = before.earlier@;
    let b = corrector.earlier@;
    assert(term_views(a) == term_views(b));
    assert(a.len() == term_views(a).len());
    assert(b.len() == term_views(b).len());
    assert forall|k: int| 0 <= k < a.len() implies a[k] == b[k] by {
        assert(term_views(a)[k] == term_views(b)[k]);
    }
    assert(a =~= b);
}

/// Two multisteps to the same level of the same order are the same multistep.
proof fn lemma_same_multistep(a: Multistep, b: Multistep, to: int, order: int)
    requires
        is_multistep(a, to, order),
        is_multistep(b, to, order),
    ensures
        a.from == b.from,
        a.to == b.to,
        a.base == b.base,
        a.earlier@ == b.earlier@,
{
    let (x, y) = (a.earlier@, b.earlier@);
    assert(term_views(x) == term_views(y));
    assert(x.len() == term_views(x).len());
    assert(y.len() == term_views(y).len());
    assert forall|k: int| 0 <= k < x.len() implies x[k] == y[k] by {
        assert(term_views(x)[k] == term_views(y)[k]);
    }
    assert(x =~= y);
}

/// A corrector goes over the predictor of the step before again: of two steps of one solver, one after
/// the other, the second corrects its sample from the level, to the level, from the base and with the
/// terms that the first predicted with. It leads to the level that the second step starts from, and does
/// so wherever that level has noise.
pub proof fn law_corrector_goes_over_the_prediction_again(
    before: FlowUniPC,
    after: FlowUniPC,
    first: StepPlan,
    second: StepPlan,
)
    requires
        before.wf(),
        after.wf(),
        after.levels() == before.levels(),
        after.settings() == before.settings(),
        after.done() == before.done() + 1,
        after.done() + 1 < after.levels().len(),
        before.next_is(first),
        after.next_is(second),
        after.levels()[after.done()],
    ensures
        first is UniPC,
        second is UniPC,
        second->corrector is Some,
        ({
            let (p, c) = (first->UniPC_predictor, second->corrector->Some_0);
            &&& c.from == p.from
            &&& c.to == p.to
            &&& c.base == p.base
            &&& c.earlier@ == p.earlier@
            &&& c.to == after.done()
            &&& c.from == after.done() - 1
            &&& c.base == after.done() - 1
        }),
{
    let i = after.done();
    let order = predictor_order(after.settings().1, after.levels().len() - 1, i - 1);
    lemma_same_multistep(first->UniPC_predictor, second->corrector->Some_0, i, order);
}

/// A step of the default solver predicts from the level it starts from to the next one, based on its own
/// estimate. The terms are the estimates of the steps right before it, newest first, each with the level
/// of its own step. There are as many as the solver's order asks for beside the base, but no more than
/// steps lie before it, and no more than steps come after it.
pub proof fn law_predictor_takes_the_newest_estimates(s: FlowUniPC, plan: StepPlan)
    requires
        s.wf(),
        s.done() + 1 < s.levels().len(),
        s.next_is(plan),
    ensures
        plan is UniPC,
        ({
            let p = plan->UniPC_predictor;
            let i = s.done();
            let left = s.levels().len() - 2 - i;
            &&& p.from == i
            &&& p.to == i + 1
            &&& p.base == i
            &&& p.earlier@.len() <= i
            &&& p.earlier@.len() <= left
            &&& p.earlier@.len() <= s.settings().1 - 1
            &&& p.earlier@.len() == i || p.earlier@.len() == left || p.earlier@.len()
                == s.settings().1 - 1
            &&& forall|k: int|
                0 <= k < p.earlier@.len() ==> (#[trigger] p.earlier@[k]).sigma + (k + 1) == i
                    && p.earlier@[k].estimate == p.earlier@[k].sigma
        }),
{
    let p = plan->UniPC_predictor;
    let i = s.done();
    let order = predictor_order(s.settings().1, s.levels().len() - 1, i);
    let v = term_views(p.earlier@);
    assert(v.len() == p.earlier@.len());
    assert(v =~= terms_before(i, order));
    assert forall|k: int| 0 <= k < p.earlier@.len() implies (#[trigger] p.earlier@[k]).sigma + (k
        + 1) == i && p.earlier@[k].estimate == p.earlier@[k].sigma by {
        assert(v[k] == (p.earlier@[k].sigma as int, p.earlier@[k].estimate as int));
        assert(v[k] == (i - (k + 1), i - (k + 1)));
    }
}

/// A corrector is left out at the first step, and wherever the step starts from a level without noise,
/// and nowhere else. A step gives its own estimate as it is where it leads to a level without noise, and
/// nowhere else.
pub proof fn law_levels_decide_what_a_step_does(s: FlowUniPC, plan: StepPlan)
    requires
        s.wf(),
        s.done() + 1 < s.levels().len(),
        s.next_is(plan),
    ensures
        plan is UniPC,
        plan->corrector is None <==> s.done() == 0 || !s.levels()[s.done()],
        plan->UniPC_to_clean <==> !s.levels()[s.done() + 1],
{
}

/// The second-order solver goes from level to level. A step that is not the first and leads to a level
/// with noise takes the estimate of the step before, where that one started from; other steps take none.
pub proof fn law_second_order_takes_the_step_before(
    before: FlowDpmpp2m,
    after: FlowDpmpp2m,
    first: StepPlan,
    second: StepPlan,
)
    requires
        before.wf(),
        after.wf(),
        after.levels() == before.levels(),
        after.done() == before.done() + 1,
        after.done() + 1 < after.levels().len(),
        before.next_is(first),
        after.next_is(second),
    ensures
        first is Dpmpp2m,
        second is Dpmpp2m,
        first->Dpmpp2m_from == before.done(),
        second->Dpmpp2m_from == first->Dpmpp2m_to,
        second->Dpmpp2m_to == second->Dpmpp2m_from + 1,
        before.done() == 0 ==> first->previous is None,
        second->previous == if after.levels()[after.done() + 1] {
            Some(first->Dpmpp2m_from)
        } else {
            None
        },
        second->Dpmpp2m_to_clean == !after.levels()[after.done() + 1],
{
    assert(after.sigmas.len() == after.levels().len());
}

/// The first-order solver goes from the level that a step starts from to the next one.
pub proof fn law_first_order_goes_level_by_level(s: FlowMatchEuler, plan: StepPlan)
    requires
        s.wf(),
        s.done() + 1 < s.levels().len(),
        s.next_is(plan),
    ensures
        plan is Euler,
        plan->Euler_from == s.done(),
        plan->Euler_to == plan->Euler_from + 1,
{
    assert(s.sigmas.len() == s.levels().len());
}

/// A sampler's name selects its solver whatever its case: that of the first-order solver, the five of the
/// second-order one, and any other name the default.
pub proof fn law_names_select_whatever_their_case(name: Seq<char>)
    ensures
        ({
            let n = ascii_lowered(name);
            let second = n == "dpm++"@ || n == "dpmpp"@ || n == "dpmpp2m"@ || n == "dpm++2m"@ || n
                == "dpmpp_2m"@;
            &&& n == "euler"@ ==> solver_named(name) == SolverKind::Euler
            &&& second && n != "euler"@ ==> solver_named(name) == SolverKind::Dpmpp2m
            &&& n != "euler"@ && !second ==> solver_named(name) == SolverKind::UniPC
        }),
        "dpmpp"@ != "euler"@,
{
    reveal_strlit("dpmpp");
    reveal_strlit("euler");
    assert("dpmpp"@[0] != "euler"@[0]);
}

/// Whether a predictor with so many earlier estimates weighs its terms so.
pub open spec fn predicts_with(w: Weights, earlier: int) -> bool {
    w == if earlier <= 1 {
        Weights::Half
    } else {
        Weights::Solve { rows: earlier as usize }
    }
}

/// Whether a corrector with so many earlier estimates weighs its terms so.
pub open spec fn corrects_with(w: Weights, earlier: int) -> bool {
    w == if earlier == 0 {
        Weights::Half
    } else {
        Weights::Solve { rows: (earlier + 1) as usize }
    }
}

/// A corrector has one estimate more than a predictor with as many earlier ones, the fresh one: it weighs its
/// terms as a predictor with one more does. A single term has weight one half, and only more are solved for,
/// in as many rows as there are terms.
pub proof fn law_corrector_has_one_term_more(p: Weights, c: Weights, earlier: int)
    requires
        0 <= earlier < usize::MAX,
        predicts_with(p, earlier + 1),
        corrects_with(c, earlier),
    ensures
        p == c,
        earlier == 0 ==> c == Weights::Half,
        earlier > 0 ==> (c matches Weights::Solve { rows } && rows == earlier + 1),
{
}

} // verus!
