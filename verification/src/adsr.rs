//! The stage machine of the ADSR envelope.
//!
//! Which stage the envelope is in, and when it moves on, depends only on
//! sample counts: the attack, decay and release lengths and the samples spent
//! in the current stage. Each sample the clock says what the level does; the
//! level itself (a real number shaped by the envelope curve) is computed by
//! the caller from that.

use vstd::prelude::*;

verus! {

#[derive(Debug, Clone, Copy, PartialEq, Eq, Structural)]
pub enum Stage {
    Idle,
    Attack,
    Decay,
    Sustain,
    Release,
    Done,
}

/// A timed part of the envelope.
#[derive(Debug, Clone, Copy, PartialEq, Eq, Structural)]
pub enum Segment {
    Attack,
    Decay,
    Release,
}

/// A level the envelope settles on: full scale, the sustain level, or zero.
#[derive(Debug, Clone, Copy, PartialEq, Eq, Structural)]
pub enum Target {
    Peak,
    Sustain,
    Zero,
}

/// What one sample of the envelope is.
#[derive(Debug, Clone, Copy, PartialEq, Eq, Structural)]
pub enum EnvelopeOutput {
    /// Idle or done: the sample is zero and the level is left as it is.
    Silent,
    /// Sustaining: the sample is the current level.
    Hold,
    /// The level follows `segment`'s curve at `elapsed / length`, and is the sample.
    Ramp { segment: Segment, elapsed: u32, length: u32 },
    /// The level becomes `target`, and is the sample.
    Settle { target: Target },
}

/// The integer state of an envelope.
#[derive(Debug, Clone, Copy, PartialEq, Eq, Structural)]
pub struct EnvelopeClock {
    pub stage: Stage,
    pub elapsed: u32,
    pub attack: u32,
    pub decay: u32,
    pub release: u32,
}

/// In a timed stage of positive length the elapsed count is below the length.
pub open spec fn clock_wf(c: EnvelopeClock) -> bool {
    &&& (c.stage == Stage::Attack && c.attack > 0) ==> c.elapsed < c.attack
    &&& (c.stage == Stage::Decay && c.decay > 0) ==> c.elapsed < c.decay
    &&& (c.stage == Stage::Release && c.release > 0) ==> c.elapsed < c.release
}

pub open spec fn decay_step(c: EnvelopeClock) -> (EnvelopeClock, EnvelopeOutput) {
    if c.decay == 0 {
        (EnvelopeClock { stage: Stage::Sustain, ..c }, EnvelopeOutput::Settle { target: Target::Sustain })
    } else if c.elapsed + 1 >= c.decay {
        (
            EnvelopeClock { stage: Stage::Sustain, elapsed: (c.elapsed + 1) as u32, ..c },
            EnvelopeOutput::Settle { target: Target::Sustain },
        )
    } else {
        (
            EnvelopeClock { elapsed: (c.elapsed + 1) as u32, ..c },
            EnvelopeOutput::Ramp { segment: Segment::Decay, elapsed: (c.elapsed + 1) as u32, length: c.decay },
        )
    }
}

/// One sample of the envelope: the next clock and what the sample is.
pub open spec fn clock_step(c: EnvelopeClock) -> (EnvelopeClock, EnvelopeOutput) {
    match c.stage {
        Stage::Idle | Stage::Done => (c, EnvelopeOutput::Silent),
        Stage::Sustain => (c, EnvelopeOutput::Hold),
        Stage::Attack => if c.attack == 0 {
            decay_step(EnvelopeClock { stage: Stage::Decay, elapsed: 0, ..c })
        } else if c.elapsed + 1 >= c.attack {
            (EnvelopeClock { stage: Stage::Decay, elapsed: 0, ..c }, EnvelopeOutput::Settle { target: Target::Peak })
        } else {
            (
                EnvelopeClock { elapsed: (c.elapsed + 1) as u32, ..c },
                EnvelopeOutput::Ramp { segment: Segment::Attack, elapsed: (c.elapsed + 1) as u32, length: c.attack },
            )
        },
        Stage::Decay => decay_step(c),
        Stage::Release => if c.release == 0 {
            (EnvelopeClock { stage: Stage::Done, ..c }, EnvelopeOutput::Settle { target: Target::Zero })
        } else if c.elapsed + 1 >= c.release {
            (
                EnvelopeClock { stage: Stage::Done, elapsed: (c.elapsed + 1) as u32, ..c },
                EnvelopeOutput::Settle { target: Target::Zero },
            )
        } else {
            (
                EnvelopeClock { elapsed: (c.elapsed + 1) as u32, ..c },
                EnvelopeOutput::Ramp { segment: Segment::Release, elapsed: (c.elapsed + 1) as u32, length: c.release },
            )
        },
    }
}

/// The clock after `n` samples.
pub open spec fn clock_after(c: EnvelopeClock, n: nat) -> EnvelopeClock
    decreases n,
{
    if n == 0 {
        c
    } else {
        clock_after(clock_step(c).0, (n - 1) as nat)
    }
}

/// Every sample keeps the clock well formed.
pub proof fn lemma_step_wf(c: EnvelopeClock)
    requires
        clock_wf(c),
    ensures
        clock_wf(clock_step(c).0),
{
}

proof fn lemma_release_countdown(c: EnvelopeClock, n: nat)
    requires
        clock_wf(c),
        c.stage == Stage::Release,
        c.release > 0,
        c.elapsed + n == c.release,
    ensures
        clock_after(c, n).stage == Stage::Done,
        forall|k: nat| k < n ==> #[trigger] clock_after(c, k).stage == Stage::Release,
    decreases n,
{
    let next = clock_step(c).0;
    if n == 1 {
        assert(clock_after(next, 0) == next);
        assert forall|k: nat| k < n implies #[trigger] clock_after(c, k).stage == Stage::Release by {
            assert(k == 0);
        }
    } else {
        lemma_release_countdown(next, (n - 1) as nat);
        assert forall|k: nat| k < n implies #[trigger] clock_after(c, k).stage == Stage::Release by {
            if k > 0 {
                assert(clock_after(c, k) == clock_after(next, (k - 1) as nat));
            }
        }
    }
}

/// A released envelope with a positive release length is done after exactly
/// that many samples, and releasing until then.
pub proof fn lemma_release_takes_release_samples(c: EnvelopeClock)
    requires
        c.stage == Stage::Release,
        c.elapsed == 0,
        c.release > 0,
    ensures
        clock_after(c, c.release as nat).stage == Stage::Done,
        forall|k: nat| k < c.release ==> #[trigger] clock_after(c, k).stage == Stage::Release,
{
    lemma_release_countdown(c, c.release as nat);
}

/// With a zero release length, the first sample after the release is the
/// silent end of the envelope.
pub proof fn lemma_zero_release_is_immediate(c: EnvelopeClock)
    requires
        c.stage == Stage::Release,
        c.release == 0,
    ensures
        clock_step(c).0.stage == Stage::Done,
        clock_step(c).1 == (EnvelopeOutput::Settle { target: Target::Zero }),
{
}

proof fn lemma_attack_countdown(c: EnvelopeClock, n: nat)
    requires
        clock_wf(c),
        c.stage == Stage::Attack,
        c.attack > 0,
        c.elapsed + n == c.attack,
    ensures
        clock_after(c, n).stage == Stage::Decay,
        clock_after(c, n).elapsed == 0,
        clock_after(c, n).decay == c.decay,
        forall|k: nat| k < n ==> #[trigger] clock_after(c, k).stage == Stage::Attack,
    decreases n,
{
    let next = clock_step(c).0;
    if n == 1 {
        assert(clock_after(next, 0) == next);
        assert forall|k: nat| k < n implies #[trigger] clock_after(c, k).stage == Stage::Attack by {
            assert(k == 0);
        }
    } else {
        lemma_attack_countdown(next, (n - 1) as nat);
        assert forall|k: nat| k < n implies #[trigger] clock_after(c, k).stage == Stage::Attack by {
            if k > 0 {
                assert(clock_after(c, k) == clock_after(next, (k - 1) as nat));
            }
        }
    }
}

proof fn lemma_decay_countdown(c: EnvelopeClock, n: nat)
    requires
        clock_wf(c),
        c.stage == Stage::Decay,
        c.decay > 0,
        c.elapsed + n == c.decay,
    ensures
        clock_after(c, n).stage == Stage::Sustain,
        forall|k: nat| k < n ==> #[trigger] clock_after(c, k).stage == Stage::Decay,
    decreases n,
{
    let next = clock_step(c).0;
    if n == 1 {
        assert(clock_after(next, 0) == next);
        assert forall|k: nat| k < n implies #[trigger] clock_after(c, k).stage == Stage::Decay by {
            assert(k == 0);
        }
    } else {
        lemma_decay_countdown(next, (n - 1) as nat);
        assert forall|k: nat| k < n implies #[trigger] clock_after(c, k).stage == Stage::Decay by {
            if k > 0 {
                assert(clock_after(c, k) == clock_after(next, (k - 1) as nat));
            }
        }
    }
}

proof fn lemma_clock_after_add(c: EnvelopeClock, a: nat, b: nat)
    ensures
        clock_after(c, a + b) == clock_after(clock_after(c, a), b),
    decreases a,
{
    if a > 0 {
        lemma_clock_after_add(clock_step(c).0, (a - 1) as nat, b);
        assert((a + b - 1) as nat == ((a - 1) as nat + b));
    }
}

/// A note started with positive attack and decay lengths attacks for
/// `attack` samples, decays for `decay` more, and then sustains.
pub proof fn lemma_note_reaches_sustain(c: EnvelopeClock)
    requires
        c.stage == Stage::Attack,
        c.elapsed == 0,
        c.attack > 0,
        c.decay > 0,
    ensures
        clock_after(c, (c.attack + c.decay) as nat).stage == Stage::Sustain,
        forall|k: nat| k < c.attack ==> #[trigger] clock_after(c, k).stage == Stage::Attack,
        forall|k: nat| c.attack <= k < c.attack + c.decay ==> #[trigger] clock_after(c, k).stage == Stage::Decay,
{
    lemma_attack_countdown(c, c.attack as nat);
    let mid = clock_after(c, c.attack as nat);
    lemma_decay_countdown(mid, c.decay as nat);
    lemma_clock_after_add(c, c.attack as nat, c.decay as nat);
    assert forall|k: nat| c.attack <= k < c.attack + c.decay implies #[trigger] clock_after(c, k).stage == Stage::Decay by {
        lemma_clock_after_add(c, c.attack as nat, (k - c.attack) as nat);
        assert(clock_after(mid, (k - c.attack) as nat).stage == Stage::Decay);
    }
}

impl EnvelopeClock {
    /// An idle envelope with the given stage lengths, in samples.
    pub fn new(attack: u32, decay: u32, release: u32) -> (r: Self)
        ensures
            r == (EnvelopeClock { stage: Stage::Idle, elapsed: 0, attack, decay, release }),
            clock_wf(r),
    {
        EnvelopeClock { stage: Stage::Idle, elapsed: 0, attack, decay, release }
    }

    /// Starts the attack.
    pub fn note_on(&mut self)
        ensures
            *final(self) == (EnvelopeClock { stage: Stage::Attack, elapsed: 0, ..*old(self) }),
    {
        self.stage = Stage::Attack;
        self.elapsed = 0;
    }

    /// Starts the release unless the envelope is idle or done; says whether
    /// it did.
    pub fn note_off(&mut self) -> (released: bool)
        ensures
            released == !(old(self).stage == Stage::Idle || old(self).stage == Stage::Done),
            *final(self) == if released {
                EnvelopeClock { stage: Stage::Release, elapsed: 0, ..*old(self) }
            } else {
                *old(self)
            },
    {
        match self.stage {
            Stage::Idle | Stage::Done => false,
            _ => {
                self.stage = Stage::Release;
                self.elapsed = 0;
                true
            },
        }
    }

    pub fn stage(&self) -> (r: Stage)
        ensures
            r == self.stage,
    {
        self.stage
    }

    /// Advances by one sample and says what the sample is.
    pub fn advance(&mut self) -> (out: EnvelopeOutput)
        requires
            clock_wf(*old(self)),
        ensures
            (*final(self), out) == clock_step(*old(self)),
            clock_wf(*final(self)),
    {
        match self.stage {
            Stage::Idle | Stage::Done => EnvelopeOutput::Silent,
            Stage::Sustain => EnvelopeOutput::Hold,
            Stage::Attack => {
                if self.attack == 0 {
                    self.stage = Stage::Decay;
                    self.elapsed = 0;
                    self.advance_decay()
                } else {
                    self.elapsed = self.elapsed + 1;
                    if self.elapsed >= self.attack {
                        self.stage = Stage::Decay;
                        self.elapsed = 0;
                        EnvelopeOutput::Settle { target: Target::Peak }
                    } else {
                        EnvelopeOutput::Ramp { segment: Segment::Attack, elapsed: self.elapsed, length: self.attack }
                    }
                }
            },
            Stage::Decay => self.advance_decay(),
            Stage::Release => {
                if self.release == 0 {
                    self.stage = Stage::Done;
                    EnvelopeOutput::Settle { target: Target::Zero }
                } else {
                    self.elapsed = self.elapsed + 1;
                    if self.elapsed >= self.release {
                        self.stage = Stage::Done;
                        EnvelopeOutput::Settle { target: Target::Zero }
                    } else {
                        EnvelopeOutput::Ramp { segment: Segment::Release, elapsed: self.elapsed, length: self.release }
                    }
                }
            },
        }
    }

    fn advance_decay(&mut self) -> (out: EnvelopeOutput)
        requires
            old(self).stage == Stage::Decay,
            old(self).decay > 0 ==> old(self).elapsed < old(self).decay,
        ensures
            (*final(self), out) == decay_step(*old(self)),
    {
        if self.decay == 0 {
            self.stage = Stage::Sustain;
            EnvelopeOutput::Settle { target: Target::Sustain }
        } else {
            self.elapsed = self.elapsed + 1;
            if self.elapsed >= self.decay {
                self.stage = Stage::Sustain;
                EnvelopeOutput::Settle { target: Target::Sustain }
            } else {
                EnvelopeOutput::Ramp { segment: Segment::Decay, elapsed: self.elapsed, length: self.decay }
            }
        }
    }
}

} // verus!
