use vstd::prelude::*;

verus! {

/// Length, in decoder time units, of one unit: ten microseconds.
pub const MICROS_PER_UNIT: u64 = 10;

/// One interval of the received signal: a mark (carrier present) or a space,
/// and how long it lasted, in decoder time units.
#[derive(Clone, Copy, Debug, PartialEq, Eq, Structural)]
pub struct Pulse {
    pub mark: bool,
    pub duration: u32,
}

/// `x` clamped to the range of `u32`.
pub open spec fn clamp_u32(x: int) -> u32 {
    if x > u32::MAX as int {
        u32::MAX
    } else {
        x as u32
    }
}

/// Interrupt-driven timing source: remembers the time of the previous edge
/// and turns each new edge into the length of the interval it closes.
#[derive(Clone, Copy, Debug, PartialEq, Eq, Structural)]
pub struct EdgeClock {
    pub previous: Option<u64>,
}

impl EdgeClock {
    pub fn new() -> (r: EdgeClock)
        ensures
            r.previous.is_none(),
    {
        EdgeClock { previous: None }
    }

    /// Length of the interval closed by an edge at `now_us` (microseconds of a
    /// monotonic clock), floor-divided into decoder time units. The first edge,
    /// and an edge whose time runs backwards, give 0.
    pub open spec fn interval_spec(previous: Option<u64>, now_us: u64) -> u32 {
        match previous {
            Some(p) => if now_us >= p {
                clamp_u32((now_us - p) as int / MICROS_PER_UNIT as int)
            } else {
                0
            },
            None => 0,
        }
    }

    pub fn edge(&mut self, now_us: u64) -> (r: u32)
        ensures
            r == Self::interval_spec(old(self).previous, now_us),
            final(self).previous == Some(now_us),
    {
        let r: u32 = match self.previous {
            Some(p) => if now_us >= p {
                let units: u64 = (now_us - p) / MICROS_PER_UNIT;
                if units > u32::MAX as u64 {
                    u32::MAX
                } else {
                    units as u32
                }
            } else {
                0
            },
            None => 0,
        };
        self.previous = Some(now_us);
        r
    }
}

/// Periodic timing source: samples whether a mark is present once every
/// `period` decoder time units, and rebuilds intervals from runs of equal
/// samples.
#[derive(Clone, Copy, Debug, PartialEq, Eq, Structural)]
pub struct PeriodicSampler {
    /// Level of the current run (true: mark).
    pub level: bool,
    /// Number of samples taken in the current run.
    pub run: u32,
    /// Sampling period, in decoder time units.
    pub period: u32,
}

impl PeriodicSampler {
    /// A sampler that has seen only space so far.
    pub fn new(period: u32) -> (r: PeriodicSampler)
        ensures
            r == (PeriodicSampler { level: false, run: 0, period }),
    {
        PeriodicSampler { level: false, run: 0, period }
    }

    /// One sample: a sample equal to the current run extends it; a change of
    /// level closes the run and hands back its interval.
    pub open spec fn sample_spec(self, mark: bool) -> (PeriodicSampler, Option<Pulse>) {
        if mark == self.level {
            (PeriodicSampler { run: clamp_u32(self.run + 1), ..self }, None)
        } else {
            (
                PeriodicSampler { level: mark, run: 1, period: self.period },
                Some(Pulse { mark: self.level, duration: clamp_u32(self.run * self.period) }),
            )
        }
    }

    pub fn sample(&mut self, mark: bool) -> (r: Option<Pulse>)
        ensures
            (*final(self), r) == old(self).sample_spec(mark),
    {
        if mark == self.level {
            if self.run < u32::MAX {
                self.run = self.run + 1;
            }
            None
        } else {
            proof {
                let (a, b) = (self.run as int, self.period as int);
                assert(0 <= a * b <= 0xffff_ffffint * 0xffff_ffffint) by (nonlinear_arith)
                    requires
                        0 <= a <= 0xffff_ffff,
                        0 <= b <= 0xffff_ffff,
                ;
            }
            let prod: u64 = self.run as u64 * self.period as u64;
            let duration: u32 = if prod > u32::MAX as u64 {
                u32::MAX
            } else {
                prod as u32
            };
            let closed = Pulse { mark: self.level, duration };
            self.level = mark;
            self.run = 1;
            Some(closed)
        }
    }
}

} // verus!
