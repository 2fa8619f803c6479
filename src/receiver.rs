use vstd::prelude::*;
use crate::decoder::{CommandWord, Decoder};
use crate::indicator::Indicator;
use crate::remote::{button_spec, decode_button, RemoteButton};
use crate::timing::{EdgeClock, PeriodicSampler, Pulse};

verus! {

/// A command that was received, with the button it stands for on the
/// supported remote, if any.
pub type Received = Option<(CommandWord, Option<RemoteButton>)>;

/// The reception pipeline of one input: timing source, decoder, button
/// table and indicator. Every command, known button or not, blinks the
/// indicator.
#[derive(Clone, Copy, Debug, PartialEq, Eq, Structural)]
pub struct Receiver {
    pub decoder: Decoder,
    pub indicator: Indicator,
    pub edges: EdgeClock,
    pub sampler: PeriodicSampler,
}

impl Receiver {
    pub open spec fn wf(self) -> bool {
        self.decoder.wf() && self.indicator.wf()
    }

    /// `repeat_window` in decoder time units, `quiet` in microseconds,
    /// `period` (of the periodic source) in decoder time units.
    pub fn new(repeat_window: u32, quiet: u64, period: u32) -> (r: Receiver)
        ensures
            r.wf(),
            r.decoder == Decoder::new_spec(repeat_window),
            r.indicator == (Indicator { active: false, quiet, pending: None }),
            r.edges.previous.is_none(),
            r.sampler == (PeriodicSampler { level: false, run: 0, period }),
    {
        Receiver {
            decoder: Decoder::new(repeat_window),
            indicator: Indicator::new(quiet),
            edges: EdgeClock::new(),
            sampler: PeriodicSampler::new(period),
        }
    }

    /// The response to one interval, at time `now`: the decoder steps, and a
    /// command drives the indicator and is looked up in the button table.
    pub open spec fn react_spec(self, p: Pulse, now: u64) -> (Receiver, Received) {
        let (d, out) = self.decoder.step(p);
        match out {
            Some(Ok(c)) => (
                Receiver { decoder: d, indicator: self.indicator.event_spec(now).0, ..self },
                Some((c, button_spec(c.address, c.command))),
            ),
            _ => (Receiver { decoder: d, ..self }, None),
        }
    }

    pub fn react(&mut self, p: Pulse, now: u64) -> (r: Received)
        requires
            old(self).wf(),
        ensures
            final(self).wf(),
            (*final(self), r) == old(self).react_spec(p, now),
    {
        match self.decoder.feed(p) {
            Some(Ok(c)) => {
                self.indicator.on_event(now);
                Some((c, decode_button(c.address, c.command)))
            },
            _ => None,
        }
    }

    /// An edge at `now_us`, after which a mark is present if `mark_now`: the
    /// interval that the edge closes has the other level.
    pub fn on_edge(&mut self, now_us: u64, mark_now: bool) -> (r: Received)
        requires
            old(self).wf(),
        ensures
            final(self).wf(),
            final(self).edges.previous == Some(now_us),
            ({
                let p = Pulse {
                    mark: !mark_now,
                    duration: EdgeClock::interval_spec(old(self).edges.previous, now_us),
                };
                let (s, out) = old(self).react_spec(p, now_us);
                &&& r == out
                &&& final(self).decoder == s.decoder
                &&& final(self).indicator == s.indicator
                &&& final(self).sampler == old(self).sampler
            }),
    {
        let duration = self.edges.edge(now_us);
        self.react(Pulse { mark: !mark_now, duration }, now_us)
    }

    /// A periodic sample at `now_us`: a change of level hands the closed
    /// interval to the decoder.
    pub fn on_sample(&mut self, now_us: u64, mark: bool) -> (r: Received)
        requires
            old(self).wf(),
        ensures
            final(self).wf(),
            final(self).sampler == old(self).sampler.sample_spec(mark).0,
            final(self).edges == old(self).edges,
            match old(self).sampler.sample_spec(mark).1 {
                Some(p) => {
                    let (s, out) = old(self).react_spec(p, now_us);
                    &&& r == out
                    &&& final(self).decoder == s.decoder
                    &&& final(self).indicator == s.indicator
                },
                None => r.is_none() && final(self).decoder == old(self).decoder
                    && final(self).indicator == old(self).indicator,
            },
    {
        match self.sampler.sample(mark) {
            Some(p) => self.react(p, now_us),
            None => None,
        }
    }
}

} // verus!
