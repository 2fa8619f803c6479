use vstd::prelude::*;

verus! {

/// `t + q`, saturating at the end of the clock's range.
pub open spec fn deadline_after(t: u64, q: u64) -> u64 {
    if t + q > u64::MAX {
        u64::MAX
    } else {
        (t + q) as u64
    }
}

/// Handle to a scheduled deactivation of the indicator. A handle is live
/// until it fires or is cancelled.
#[derive(Clone, Copy, Debug, PartialEq, Eq, Structural)]
pub struct ClearHandle {
    /// Time at which the deactivation is due.
    pub deadline: u64,
    pub live: bool,
}

impl ClearHandle {
    pub open spec fn cancel_spec(self) -> (ClearHandle, bool) {
        (ClearHandle { live: false, ..self }, self.live)
    }

    /// Cancels the scheduled deactivation. Returns whether it was still
    /// pending; cancelling a handle that fired or was cancelled does nothing.
    pub fn cancel(&mut self) -> (r: bool)
        ensures
            (*final(self), r) == old(self).cancel_spec(),
    {
        let was = self.live;
        self.live = false;
        was
    }
}

/// An indicator that turns active on each event and idle again once a quiet
/// interval has passed with no further event. It holds at most one scheduled
/// deactivation: a new event cancels the one pending and schedules another.
#[derive(Clone, Copy, Debug, PartialEq, Eq, Structural)]
pub struct Indicator {
    pub active: bool,
    /// The quiet interval, in clock ticks.
    pub quiet: u64,
    /// The single slot for the scheduled deactivation.
    pub pending: Option<ClearHandle>,
}

impl Indicator {
    /// A live deactivation is only ever pending for an active indicator.
    pub open spec fn wf(self) -> bool {
        match self.pending {
            Some(h) => h.live ==> self.active,
            None => true,
        }
    }

    /// Whether a deactivation is scheduled and not yet fired or cancelled.
    pub open spec fn armed(self) -> bool {
        self.pending matches Some(h) && h.live
    }

    pub fn new(quiet: u64) -> (r: Indicator)
        ensures
            r == (Indicator { active: false, quiet, pending: None }),
            r.wf(),
    {
        Indicator { active: false, quiet, pending: None }
    }

    /// An event at `now`: the indicator is active, and the deactivation is
    /// due one quiet interval from now. Returns whether it turned active.
    pub open spec fn event_spec(self, now: u64) -> (Indicator, bool) {
        (
            Indicator {
                active: true,
                pending: Some(ClearHandle { deadline: deadline_after(now, self.quiet), live: true }),
                ..self
            },
            !self.active,
        )
    }

    pub fn on_event(&mut self, now: u64) -> (r: bool)
        requires
            old(self).wf(),
        ensures
            final(self).wf(),
            (*final(self), r) == old(self).event_spec(now),
    {
        if let Some(mut previous) = self.pending.take() {
            previous.cancel();
        }
        let deadline: u64 = if now > u64::MAX - self.quiet {
            u64::MAX
        } else {
            now + self.quiet
        };
        let turned_on = !self.active;
        self.active = true;
        self.pending = Some(ClearHandle { deadline, live: true });
        turned_on
    }

    /// The background check at `now`: a live deactivation that is due fires,
    /// and the indicator turns idle. Returns whether it did.
    pub open spec fn poll_spec(self, now: u64) -> (Indicator, bool) {
        match self.pending {
            Some(h) => if h.live && h.deadline <= now {
                (Indicator { active: false, pending: Some(ClearHandle { live: false, ..h }), ..self }, true)
            } else {
                (self, false)
            },
            None => (self, false),
        }
    }

    /// Cancels the pending deactivation, if any; the indicator keeps its level.
    pub open spec fn cancel_pending_spec(self) -> (Indicator, bool) {
        match self.pending {
            Some(h) => (Indicator { pending: Some(h.cancel_spec().0), ..self }, h.live),
            None => (self, false),
        }
    }

    pub fn cancel_pending(&mut self) -> (r: bool)
        requires
            old(self).wf(),
        ensures
            final(self).wf(),
            (*final(self), r) == old(self).cancel_pending_spec(),
    {
        match self.pending {
            Some(mut h) => {
                let r = h.cancel();
                self.pending = Some(h);
                r
            },
            None => false,
        }
    }
}

/// What runs when no other work is pending: fires the indicator's scheduled
/// deactivation once it is due. Returns whether the indicator turned idle.
pub fn idle(indicator: &mut Indicator, now: u64) -> (r: bool)
    requires
        old(indicator).wf(),
    ensures
        final(indicator).wf(),
        (*final(indicator), r) == old(indicator).poll_spec(now),
{
    match indicator.pending {
        Some(h) => if h.live && h.deadline <= now {
            indicator.active = false;
            indicator.pending = Some(ClearHandle { deadline: h.deadline, live: false });
            true
        } else {
            false
        },
        None => false,
    }
}

/// One thing that happens to the indicator: an event, or a background check,
/// at a time.
#[derive(Clone, Copy, Debug, PartialEq, Eq, Structural)]
pub struct Action {
    pub time: u64,
    pub event: bool,
}

pub open spec fn apply(s: Indicator, a: Action) -> (Indicator, bool) {
    if a.event {
        s.event_spec(a.time)
    } else {
        s.poll_spec(a.time)
    }
}

/// The indicator after the actions `acts`, in order.
pub open spec fn run_actions(s: Indicator, acts: Seq<Action>) -> Indicator
    decreases acts.len(),
{
    if acts.len() == 0 {
        s
    } else {
        apply(run_actions(s, acts.drop_last()), acts.last()).0
    }
}

/// How often the indicator turned active during `acts`.
pub open spec fn activations(s: Indicator, acts: Seq<Action>) -> nat
    decreases acts.len(),
{
    if acts.len() == 0 {
        0
    } else {
        activations(s, acts.drop_last()) + if acts.last().event && apply(
            run_actions(s, acts.drop_last()),
            acts.last(),
        ).1 {
            1nat
        } else {
            0nat
        }
    }
}

/// How often the indicator turned idle during `acts`.
pub open spec fn deactivations(s: Indicator, acts: Seq<Action>) -> nat
    decreases acts.len(),
{
    if acts.len() == 0 {
        0
    } else {
        deactivations(s, acts.drop_last()) + if !acts.last().event && apply(
            run_actions(s, acts.drop_last()),
            acts.last(),
        ).1 {
            1nat
        } else {
            0nat
        }
    }
}

/// Time of the latest event among the first `n` actions (0 if none).
pub open spec fn latest_event(acts: Seq<Action>, n: int) -> u64
    decreases n,
{
    if n <= 0 {
        0
    } else if acts[n - 1].event {
        acts[n - 1].time
    } else {
        latest_event(acts, n - 1)
    }
}

/// A burst of events, each less than the quiet interval after the one before,
/// with background checks in between and ending with its last event: the indicator turns active once, on the
/// first event, stays active throughout, never turns idle during the burst,
/// and its one pending deactivation is due a quiet interval after the last
/// event.
pub proof fn lemma_burst_stays_active(s: Indicator, acts: Seq<Action>)
    requires
        s.wf(),
        !s.active,
        acts.len() > 0,
        acts[0].event,
        acts.last().event,
        forall|i: int| 0 < i < acts.len() ==> acts[i - 1].time <= #[trigger] acts[i].time,
        forall|i: int|
            0 < i < acts.len() && acts[i].event ==> #[trigger] acts[i].time < latest_event(acts, i)
                + s.quiet,
        forall|i: int| 0 <= i < acts.len() ==> #[trigger] acts[i].time + s.quiet <= u64::MAX,
    ensures
        activations(s, acts) == 1,
        deactivations(s, acts) == 0,
        forall|n: int| 0 < n <= acts.len() ==> (#[trigger] run_actions(s, acts.take(n))).active,
        run_actions(s, acts).pending == Some(
            ClearHandle { deadline: deadline_after(latest_event(acts, acts.len() as int), s.quiet), live: true },
        ),
{
    assert forall|i: int| 0 < i < acts.len() implies #[trigger] acts[i].time < latest_event(acts, i)
        + s.quiet by {
        if !acts[i].event {
            lemma_next_event(acts, i);
            let j = choose|j: int|
                i < j < acts.len() && acts[j].event && latest_event(acts, j) == latest_event(acts, i)
                    && acts[i].time <= acts[j].time;
        }
    }
    lemma_burst_prefix(s, acts, acts.len() as int);
    assert(acts.take(acts.len() as int) =~= acts);
    assert forall|n: int| 0 < n <= acts.len() implies (#[trigger] run_actions(s, acts.take(n))).active by {
        lemma_burst_prefix(s, acts, n);
    }
}

/// After a check at `i` comes an event, with the same latest event before it.
proof fn lemma_next_event(acts: Seq<Action>, i: int)
    requires
        0 <= i < acts.len(),
        !acts[i].event,
        acts.last().event,
        forall|k: int| 0 < k < acts.len() ==> acts[k - 1].time <= #[trigger] acts[k].time,
    ensures
        exists|j: int|
            i < j < acts.len() && acts[j].event && latest_event(acts, j) == latest_event(acts, i)
                && acts[i].time <= acts[j].time,
    decreases acts.len() - i,
{
    assert(latest_event(acts, i + 1) == latest_event(acts, i));
    assert(acts[i].time <= acts[i + 1].time);
    if acts[i + 1].event {
        assert(i + 1 < acts.len() && acts[i + 1].event && latest_event(acts, i + 1) == latest_event(acts, i)
            && acts[i].time <= acts[i + 1].time);
    } else {
        lemma_next_event(acts, i + 1);
        let j = choose|j: int|
            i + 1 < j < acts.len() && acts[j].event && latest_event(acts, j) == latest_event(acts, i + 1)
                && acts[i + 1].time <= acts[j].time;
        assert(i < j < acts.len() && acts[j].event && latest_event(acts, j) == latest_event(acts, i)
            && acts[i].time <= acts[j].time);
    }
}

proof fn lemma_latest_is_some_time(acts: Seq<Action>, n: int)
    requires
        0 < n <= acts.len(),
        acts[0].event,
    ensures
        exists|i: int| 0 <= i < n && acts[i].time == latest_event(acts, n),
    decreases n,
{
    if acts[n - 1].event {
        assert(acts[n - 1].time == latest_event(acts, n));
    } else {
        lemma_latest_is_some_time(acts, n - 1);
        let i = choose|i: int| 0 <= i < n - 1 && acts[i].time == latest_event(acts, n - 1);
        assert(acts[i].time == latest_event(acts, n));
    }
}

proof fn lemma_burst_prefix(s: Indicator, acts: Seq<Action>, n: int)
    requires
        s.wf(),
        !s.active,
        0 < n <= acts.len(),
        acts[0].event,
        forall|i: int| 0 < i < acts.len() ==> acts[i - 1].time <= #[trigger] acts[i].time,
        forall|i: int|
            0 < i < acts.len() ==> #[trigger] acts[i].time < latest_event(acts, i) + s.quiet,
        forall|i: int| 0 <= i < acts.len() ==> #[trigger] acts[i].time + s.quiet <= u64::MAX,
    ensures
        ({
            let r = run_actions(s, acts.take(n));
            &&& r.active
            &&& r.quiet == s.quiet
            &&& r.pending == Some(
                ClearHandle { deadline: deadline_after(latest_event(acts, n), s.quiet), live: true },
            )
        }),
        activations(s, acts.take(n)) == 1,
        deactivations(s, acts.take(n)) == 0,
    decreases n,
{
    assert(acts.take(n).drop_last() =~= acts.take(n - 1));
    assert(acts.take(n).last() == acts[n - 1]);
    if n == 1 {
        assert(acts.take(0) =~= Seq::<Action>::empty());
        assert(activations(s, acts.take(0)) == 0);
        assert(deactivations(s, acts.take(0)) == 0);
        assert(run_actions(s, acts.take(0)) == s);
    } else {
        lemma_burst_prefix(s, acts, n - 1);
        let a = acts[n - 1];
        assert(a.time < latest_event(acts, n - 1) + s.quiet);
        assert(latest_event(acts, n - 1) + s.quiet <= u64::MAX) by {
            lemma_latest_is_some_time(acts, n - 1);
        }
    }
}

/// After a burst, background checks at the times `ts` turn the indicator idle
/// exactly once if one of them comes at or after the pending deadline, and
/// never otherwise.
pub proof fn lemma_quiet_then_idle(s: Indicator, ts: Seq<u64>)
    requires
        s.active,
        s.pending matches Some(h) && h.live,
    ensures
        ({
            let acts = Seq::new(ts.len(), |i: int| Action { time: ts[i], event: false });
            let due = exists|i: int| 0 <= i < ts.len() && ts[i] >= s.pending->0.deadline;
            &&& deactivations(s, acts) == if due { 1nat } else { 0nat }
            &&& run_actions(s, acts).active == !due
            &&& run_actions(s, acts) == if due { s.poll_spec(u64::MAX).0 } else { s }
            &&& activations(s, acts) == 0
        }),
    decreases ts.len(),
{
    let acts = Seq::new(ts.len(), |i: int| Action { time: ts[i], event: false });
    if ts.len() > 0 {
        let rest = ts.drop_last();
        lemma_quiet_then_idle(s, rest);
        let racts = Seq::new(rest.len(), |i: int| Action { time: rest[i], event: false });
        assert(acts.drop_last() =~= racts);
        let d = s.pending->0.deadline;
        if exists|i: int| 0 <= i < rest.len() && rest[i] >= d {
            let i = choose|i: int| 0 <= i < rest.len() && rest[i] >= d;
            assert(ts[i] >= d);
        } else {
            assert forall|i: int| 0 <= i < rest.len() implies !(ts[i] >= d) by {
                assert(ts[i] == rest[i]);
            }
            if ts.last() >= d {
                assert(ts[ts.len() - 1] >= d);
            }
        }
    }
}

/// Cancelling is idempotent: cancelling a second time, or after the
/// deactivation fired, reports that nothing was pending and changes nothing,
/// and a background check afterwards never turns the indicator idle again.
pub proof fn lemma_cancel_idempotent(s: Indicator, now: u64, later: u64)
    requires
        s.wf(),
    ensures
        ({
            let once = s.cancel_pending_spec().0;
            &&& once.cancel_pending_spec() == (once, false)
            &&& !once.poll_spec(later).1
            &&& once.poll_spec(later).0 == once
        }),
        ({
            let fired = s.poll_spec(now);
            fired.1 ==> {
                &&& fired.0.cancel_pending_spec() == (fired.0, false)
                &&& fired.0.poll_spec(later) == (fired.0, false)
            }
        }),
{
}

} // verus!
