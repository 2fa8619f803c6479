use vstd::prelude::*;
use crate::decoder::{checksum_ok, Decoder, DecoderState};
use crate::frame::{is_frame_of, outputs, lemma_valid_frame_decodes, run};
use crate::timing::{PeriodicSampler, Pulse};

verus! {

/// The sampler after the samples `levels`, in order.
pub open spec fn sampled(s: PeriodicSampler, levels: Seq<bool>) -> PeriodicSampler
    decreases levels.len(),
{
    if levels.len() == 0 {
        s
    } else {
        sampled(s, levels.drop_last()).sample_spec(levels.last()).0
    }
}

/// The intervals the sampler handed out for the samples `levels`.
pub open spec fn sampled_pulses(s: PeriodicSampler, levels: Seq<bool>) -> Seq<Pulse>
    decreases levels.len(),
{
    if levels.len() == 0 {
        Seq::empty()
    } else {
        sampled_pulses(s, levels.drop_last()) + match sampled(s, levels.drop_last()).sample_spec(
            levels.last(),
        ).1 {
            Some(p) => seq![p],
            None => Seq::empty(),
        }
    }
}

/// The samples of a signal made of `runs`: each run is a level held for a
/// number of sampling periods.
pub open spec fn expand(runs: Seq<(bool, nat)>) -> Seq<bool>
    decreases runs.len(),
{
    if runs.len() == 0 {
        Seq::empty()
    } else {
        expand(runs.drop_last()) + Seq::new(runs.last().1, |i: int| runs.last().0)
    }
}

/// The intervals of the same signal, as an interrupt-driven source would
/// measure them, quantized to the sampling period.
pub open spec fn quantized(runs: Seq<(bool, nat)>, period: u32) -> Seq<Pulse> {
    Seq::new(runs.len(), |i: int| Pulse { mark: runs[i].0, duration: (runs[i].1 * period) as u32 })
}

/// Runs that a sampler can measure exactly: alternating levels, each held at
/// least one period and short enough for its length to fit.
pub open spec fn runs_ok(runs: Seq<(bool, nat)>, period: u32) -> bool {
    &&& forall|i: int| 0 < i < runs.len() ==> runs[i - 1].0 != #[trigger] runs[i].0
    &&& forall|i: int|
        0 <= i < runs.len() ==> 1 <= #[trigger] runs[i].1 && runs[i].1 < u32::MAX && runs[i].1
            * period <= u32::MAX
}

proof fn lemma_sampled_concat(s: PeriodicSampler, a: Seq<bool>, b: Seq<bool>)
    ensures
        sampled(s, a + b) == sampled(sampled(s, a), b),
        sampled_pulses(s, a + b) == sampled_pulses(s, a) + sampled_pulses(sampled(s, a), b),
    decreases b.len(),
{
    if b.len() == 0 {
        assert(a + b =~= a);
        assert(sampled_pulses(s, a) + sampled_pulses(sampled(s, a), b) =~= sampled_pulses(s, a));
    } else {
        lemma_sampled_concat(s, a, b.drop_last());
        assert((a + b).drop_last() =~= a + b.drop_last());
        assert(sampled_pulses(s, a + b) =~= sampled_pulses(s, a) + sampled_pulses(sampled(s, a), b));
    }
}

/// Samples equal to the current level only lengthen the run.
proof fn lemma_hold(s: PeriodicSampler, n: nat)
    requires
        s.run + n <= u32::MAX,
    ensures
        sampled(s, Seq::new(n, |i: int| s.level)) == (PeriodicSampler {
            run: (s.run + n) as u32,
            ..s
        }),
        sampled_pulses(s, Seq::new(n, |i: int| s.level)) == Seq::<Pulse>::empty(),
    decreases n,
{
    if n > 0 {
        let l = s.level;
        lemma_hold(s, (n - 1) as nat);
        assert(Seq::new(n, |i: int| l).drop_last() =~= Seq::new((n - 1) as nat, |i: int| l));
    } else {
        assert(Seq::new(n, |i: int| s.level) =~= Seq::<bool>::empty());
    }
}

/// A change of level closes the run, then the new level is held.
proof fn lemma_switch(s: PeriodicSampler, n: nat)
    requires
        1 <= n < u32::MAX,
    ensures
        sampled(s, Seq::new(n, |i: int| !s.level)) == (PeriodicSampler {
            level: !s.level,
            run: n as u32,
            period: s.period,
        }),
        sampled_pulses(s, Seq::new(n, |i: int| !s.level)) == seq![s.sample_spec(!s.level).1->0],
{
    let l = !s.level;
    let first = seq![l];
    let rest = Seq::new((n - 1) as nat, |i: int| l);
    assert(Seq::new(n, |i: int| l) =~= first + rest);
    lemma_sampled_concat(s, first, rest);
    assert(first.drop_last() =~= Seq::<bool>::empty());
    assert(sampled(s, Seq::<bool>::empty()) == s);
    assert(sampled_pulses(s, Seq::<bool>::empty()) == Seq::<Pulse>::empty());
    assert(first.last() == l);
    let t = sampled(s, first);
    assert(t == PeriodicSampler { level: l, run: 1, period: s.period });
    assert(sampled_pulses(s, first) =~= seq![s.sample_spec(l).1->0]);
    lemma_hold(t, (n - 1) as nat);
    assert(sampled_pulses(s, Seq::new(n, |i: int| l)) =~= seq![s.sample_spec(l).1->0]);
}

proof fn lemma_runs_prefix(s: PeriodicSampler, runs: Seq<(bool, nat)>, k: int)
    requires
        runs_ok(runs, s.period),
        s.run == 0,
        runs.len() > 0,
        s.level == runs[0].0,
        1 <= k <= runs.len(),
    ensures
        sampled(s, expand(runs.take(k))) == (PeriodicSampler {
            level: runs[k - 1].0,
            run: runs[k - 1].1 as u32,
            period: s.period,
        }),
        sampled_pulses(s, expand(runs.take(k))) == quantized(runs.take(k - 1), s.period),
    decreases k,
{
    assert(runs.take(k).drop_last() =~= runs.take(k - 1));
    let r = runs[k - 1];
    if k == 1 {
        assert(runs.take(0) =~= Seq::<(bool, nat)>::empty());
        assert(expand(runs.take(1)) =~= Seq::new(r.1, |i: int| s.level));
        lemma_hold(s, r.1);
        assert(quantized(runs.take(0), s.period) =~= Seq::<Pulse>::empty());
    } else {
        lemma_runs_prefix(s, runs, k - 1);
        let a = expand(runs.take(k - 1));
        let t = sampled(s, a);
        assert(expand(runs.take(k)) == a + Seq::new(r.1, |i: int| r.0));
        assert(r.0 == !t.level);
        lemma_sampled_concat(s, a, Seq::new(r.1, |i: int| r.0));
        lemma_switch(t, r.1);
        assert(Seq::new(r.1, |i: int| r.0) =~= Seq::new(r.1, |i: int| !t.level));
        assert(quantized(runs.take(k - 1), s.period) =~= quantized(runs.take(k - 2), s.period).push(
            t.sample_spec(!t.level).1->0,
        ));
    }
}

/// A sampler that starts at the level of the first run hands out, once the
/// last run has been closed by a change of level, exactly the intervals an
/// interrupt-driven source would measure, quantized to the sampling period.
pub proof fn lemma_sampler_matches_intervals(s: PeriodicSampler, runs: Seq<(bool, nat)>)
    requires
        runs_ok(runs, s.period),
        s.run == 0,
        runs.len() > 0,
        s.level == runs[0].0,
    ensures
        sampled_pulses(s, expand(runs).push(!runs.last().0)) == quantized(runs, s.period),
{
    lemma_runs_prefix(s, runs, runs.len() as int);
    assert(runs.take(runs.len() as int) =~= runs);
    let e = expand(runs);
    assert(e.push(!runs.last().0).drop_last() =~= e);
    let t = sampled(s, e);
    assert(quantized(runs, s.period) =~= quantized(runs.take(runs.len() - 1), s.period).push(
        t.sample_spec(!t.level).1->0,
    ));
}

/// The periodic source decodes as the interrupt-driven one: when the quantized
/// intervals of a sampled signal form a frame of the same word as the intervals
/// `ps` measured by edges, both decode to the same command, at the same place.
pub proof fn lemma_periodic_decodes_alike(
    s: PeriodicSampler,
    runs: Seq<(bool, nat)>,
    ps: Seq<Pulse>,
    word: u32,
    d: Decoder,
)
    requires
        runs_ok(runs, s.period),
        s.run == 0,
        runs.len() > 0,
        s.level == runs[0].0,
        d.state == DecoderState::Idle,
        is_frame_of(ps, word),
        is_frame_of(quantized(runs, s.period), word),
        checksum_ok(word),
    ensures
        outputs(d, sampled_pulses(s, expand(runs).push(!runs.last().0))) == outputs(d, ps),
        run(d, sampled_pulses(s, expand(runs).push(!runs.last().0))).last == run(d, ps).last,
{
    lemma_sampler_matches_intervals(s, runs);
    lemma_valid_frame_decodes(d, ps, word);
    lemma_valid_frame_decodes(d, quantized(runs, s.period), word);
}

} // verus!
