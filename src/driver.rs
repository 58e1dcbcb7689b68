use vstd::prelude::*;

verus! {

/// The tick counter's largest value: once a tick takes it past this, manual
/// control is asserted again and the counter starts over, so that happens
/// every `REASSERT_AFTER + 1` ticks.
pub const REASSERT_AFTER: u8 = 20;

/// The two states of the control loop. `Stopped` is final.
#[derive(Clone, Copy, Debug, PartialEq, Eq, Structural)]
pub enum Phase {
    Running,
    Stopped,
}

/// What the loop is to do in one iteration.
#[derive(Clone, Copy, Debug, PartialEq, Eq, Structural)]
pub enum Action {
    /// Give the fan back to the EC, then end the loop.
    Shutdown,
    /// Sense, compute and write the duty; when `reassert` holds, then also
    /// assert manual control again and refresh the power-source mode.
    Tick { reassert: bool },
    /// The loop has already stopped: do nothing.
    Halted,
}

/// The decisions of the control loop, apart from the work they order.
#[derive(Clone, Copy, Debug, PartialEq, Eq, Structural)]
pub struct LoopDriver {
    pub phase: Phase,
    pub curr_tick: u8,
}

/// The driver's next state, and its action, when the stop request reads
/// `stop_requested` at the start of an iteration.
pub open spec fn next(d: LoopDriver, stop_requested: bool) -> (LoopDriver, Action) {
    match d.phase {
        Phase::Stopped => (d, Action::Halted),
        Phase::Running => {
            if stop_requested {
                (LoopDriver { phase: Phase::Stopped, curr_tick: d.curr_tick }, Action::Shutdown)
            } else if d.curr_tick + 1 > REASSERT_AFTER {
                (LoopDriver { phase: Phase::Running, curr_tick: 0 }, Action::Tick { reassert: true })
            } else {
                (
                    LoopDriver { phase: Phase::Running, curr_tick: (d.curr_tick + 1) as u8 },
                    Action::Tick { reassert: false },
                )
            }
        },
    }
}

/// The actions of the driver over iterations whose stop requests read `stops`.
pub open spec fn run(d: LoopDriver, stops: Seq<bool>) -> Seq<Action>
    decreases stops.len(),
{
    if stops.len() == 0 {
        Seq::empty()
    } else {
        let (d2, a) = next(d, stops[0]);
        seq![a] + run(d2, stops.drop_first())
    }
}

impl LoopDriver {
    /// The counter never passes its largest value.
    pub open spec fn wf(&self) -> bool {
        self.curr_tick <= REASSERT_AFTER
    }

    /// A running loop whose counter is at zero.
    pub fn new() -> (r: LoopDriver)
        ensures
            r.phase == Phase::Running,
            r.curr_tick == 0,
            r.wf(),
    {
        LoopDriver { phase: Phase::Running, curr_tick: 0 }
    }

    /// Whether the loop still runs.
    pub fn is_running(&self) -> (r: bool)
        ensures
            r == (self.phase == Phase::Running),
    {
        match self.phase {
            Phase::Running => true,
            Phase::Stopped => false,
        }
    }

    /// Decides one iteration, given whether a stop was requested.
    pub fn step(&mut self, stop_requested: bool) -> (a: Action)
        requires
            old(self).wf(),
        ensures
            (*final(self), a) == next(*old(self), stop_requested),
            final(self).wf(),
    {
        match self.phase {
            Phase::Stopped => Action::Halted,
            Phase::Running => {
                if stop_requested {
                    self.phase = Phase::Stopped;
                    Action::Shutdown
                } else if self.curr_tick + 1 > REASSERT_AFTER {
                    self.curr_tick = 0;
                    Action::Tick { reassert: true }
                } else {
                    self.curr_tick = self.curr_tick + 1;
                    Action::Tick { reassert: false }
                }
            },
        }
    }
}

/// One action per iteration.
pub proof fn lemma_run_len(d: LoopDriver, stops: Seq<bool>)
    ensures
        run(d, stops).len() == stops.len(),
    decreases stops.len(),
{
    if stops.len() > 0 {
        lemma_run_len(next(d, stops[0]).0, stops.drop_first());
    }
}

/// A stopped loop does nothing more, whatever is requested.
pub proof fn lemma_stopped_halts(d: LoopDriver, stops: Seq<bool>, i: int)
    requires
        d.phase == Phase::Stopped,
        0 <= i < stops.len(),
    ensures
        run(d, stops)[i] == Action::Halted,
    decreases stops.len(),
{
    lemma_run_len(d, stops.drop_first());
    if i > 0 {
        lemma_stopped_halts(d, stops.drop_first(), i - 1);
    }
}

/// Once the loop has shut down, every later iteration does nothing: the fan
/// is given back at most once, and no duty is written after that.
pub proof fn lemma_single_shutdown(d: LoopDriver, stops: Seq<bool>, i: int, j: int)
    requires
        0 <= i < j < stops.len(),
        run(d, stops)[i] == Action::Shutdown,
    ensures
        run(d, stops)[j] == Action::Halted,
    decreases stops.len(),
{
    let (d2, a) = next(d, stops[0]);
    let tail = stops.drop_first();
    lemma_run_len(d2, tail);
    if i == 0 {
        assert(a == Action::Shutdown);
        lemma_stopped_halts(d2, tail, j - 1);
    } else {
        assert(run(d, stops)[i] == run(d2, tail)[i - 1]);
        lemma_single_shutdown(d2, tail, i - 1, j - 1);
    }
}

/// A running loop keeps ticking until the first iteration that sees a stop
/// request, and that iteration shuts down.
pub proof fn lemma_stop_honoured(d: LoopDriver, stops: Seq<bool>, k: int)
    requires
        d.phase == Phase::Running,
        0 <= k < stops.len(),
        stops[k],
        forall|i: int| 0 <= i < k ==> !stops[i],
    ensures
        run(d, stops)[k] == Action::Shutdown,
        forall|i: int| 0 <= i < k ==> (#[trigger] run(d, stops)[i] matches Action::Tick { .. }),
    decreases stops.len(),
{
    let (d2, a) = next(d, stops[0]);
    let tail = stops.drop_first();
    lemma_run_len(d2, tail);
    if k > 0 {
        assert forall|i: int| 0 <= i < k - 1 implies !tail[i] by {
            assert(tail[i] == stops[i + 1]);
        }
        lemma_stop_honoured(d2, tail, k - 1);
        assert forall|i: int| 0 <= i < k implies (#[trigger] run(d, stops)[i] matches Action::Tick { .. }) by {
            if i > 0 {
                assert(run(d, stops)[i] == run(d2, tail)[i - 1]);
            }
        }
    }
}

/// While no stop is requested, manual control is asserted again on every
/// `REASSERT_AFTER + 1`-th tick counted from the start, and on no other.
pub proof fn lemma_reassert_period(stops: Seq<bool>, i: int)
    requires
        0 <= i < stops.len(),
        forall|k: int| 0 <= k <= i ==> !stops[k],
    ensures
        run(LoopDriver { phase: Phase::Running, curr_tick: 0 }, stops)[i] == (Action::Tick {
            reassert: (i + 1) % (REASSERT_AFTER + 1) == 0,
        }),
{
    lemma_reassert_from(LoopDriver { phase: Phase::Running, curr_tick: 0 }, stops, i);
}

proof fn lemma_reassert_from(d: LoopDriver, stops: Seq<bool>, i: int)
    requires
        d.phase == Phase::Running,
        d.wf(),
        0 <= i < stops.len(),
        forall|k: int| 0 <= k <= i ==> !stops[k],
    ensures
        run(d, stops)[i] == (Action::Tick {
            reassert: (d.curr_tick + i + 1) % (REASSERT_AFTER + 1) == 0,
        }),
    decreases i,
{
    let (d2, a) = next(d, stops[0]);
    let tail = stops.drop_first();
    lemma_run_len(d2, tail);
    if i > 0 {
        assert forall|k: int| 0 <= k <= i - 1 implies !tail[k] by {
            assert(tail[k] == stops[k + 1]);
        }
        lemma_reassert_from(d2, tail, i - 1);
        assert(run(d, stops)[i] == run(d2, tail)[i - 1]);
        if d.curr_tick == REASSERT_AFTER {
            assert((d.curr_tick + i + 1) % (REASSERT_AFTER + 1) == i % (REASSERT_AFTER + 1));
        }
    }
}

} // verus!
