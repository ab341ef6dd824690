use vstd::prelude::*;

verus! {

/// The bit timing unit: counts sample ticks within the current bit time,
/// applies hard synchronization on a recessive-to-dominant edge while the
/// bus is idle (the start-of-frame edge) and a bounded soft correction on
/// the first such edge inside a bit, and marks the sample point at the
/// middle of the bit.
///
/// The timing parameters chosen here are a synchronization segment of one
/// tick, the sample point at `period / 2`, and a synchronization jump
/// width of at most a quarter period.
#[derive(Clone, Copy, PartialEq, Eq, Structural, Debug)]
pub struct BitTiming {
    pub period: u32,
    pub sjw: u32,
    pub phase: u32,
    pub last_level: bool,
    pub synced: bool,
}

pub open spec fn min_u32(a: u32, b: u32) -> u32 {
    if a < b {
        a
    } else {
        b
    }
}

impl BitTiming {
    /// Counters stay within one bit period.
    pub open spec fn wf(self) -> bool {
        &&& 4 <= self.period
        &&& 1 <= self.sjw
        &&& self.sjw <= self.period / 4
        &&& self.phase < self.period
    }

    pub fn new(period: u32, sjw: u32) -> (r: BitTiming)
        requires
            4 <= period,
            1 <= sjw <= period / 4,
        ensures
            r == (BitTiming { period, sjw, phase: 0, last_level: true, synced: false }),
            r.wf(),
    {
        BitTiming { period, sjw, phase: 0, last_level: true, synced: false }
    }
}

/// One sample tick. A recessive-to-dominant edge while the bus is idle
/// hard-synchronizes: the phase resets to zero, making this tick the bit
/// start. Within a frame, the first such edge inside a bit applies a soft
/// correction toward the nearest bit boundary, bounded by the jump width;
/// later edges in the same bit are ignored for synchronization. Then the
/// tick advances the phase; the returned level, when present, is the bit
/// sampled at the sample point in the middle of the bit time.
pub open spec fn timing_step(t: BitTiming, level: bool, bus_idle: bool) -> (
    BitTiming,
    Option<bool>,
) {
    let edge = level != t.last_level && !level;
    let ph0 = if edge && bus_idle {
        0
    } else if edge && !t.synced {
        if t.phase <= t.period / 2 {
            (t.phase - min_u32(t.phase, t.sjw)) as u32
        } else {
            (t.phase + min_u32((t.period - 1 - t.phase) as u32, t.sjw)) as u32
        }
    } else {
        t.phase
    };
    let syn0 = if edge {
        true
    } else {
        t.synced
    };
    let ph1 = (ph0 + 1) as u32;
    let sample = if ph1 == t.period / 2 {
        Some(level)
    } else {
        None
    };
    if ph1 >= t.period {
        (BitTiming { phase: 0, synced: false, last_level: level, ..t }, sample)
    } else {
        (BitTiming { phase: ph1, synced: syn0, last_level: level, ..t }, sample)
    }
}

impl BitTiming {
    /// Advance one sample tick with the current line level; `bus_idle`
    /// says whether the receiver is between frames, so that a dominant
    /// edge is the start-of-frame edge and hard-synchronizes.
    pub fn tick(&mut self, level: bool, bus_idle: bool) -> (r: Option<bool>)
        requires
            old(self).wf(),
        ensures
            *final(self) == timing_step(*old(self), level, bus_idle).0,
            r == timing_step(*old(self), level, bus_idle).1,
            final(self).wf(),
    {
        let edge: bool = level != self.last_level && !level;
        if edge && bus_idle {
            self.phase = 0;
        } else if edge && !self.synced {
            if self.phase <= self.period / 2 {
                let j: u32 = if self.phase < self.sjw {
                    self.phase
                } else {
                    self.sjw
                };
                self.phase = self.phase - j;
            } else {
                let left: u32 = self.period - 1 - self.phase;
                let j: u32 = if left < self.sjw {
                    left
                } else {
                    self.sjw
                };
                self.phase = self.phase + j;
            }
        }
        if edge {
            self.synced = true;
        }
        self.phase = self.phase + 1;
        let r: Option<bool> = if self.phase == self.period / 2 {
            Some(level)
        } else {
            None
        };
        if self.phase >= self.period {
            self.phase = 0;
            self.synced = false;
        }
        self.last_level = level;
        r
    }
}

} // verus!
