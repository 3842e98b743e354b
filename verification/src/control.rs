//! Shared control state between the input dispatcher and the realtime
//! engine: the interactive loudness level and the shutdown flag.
//!
//! The loudness level is kept as the exact dyadic rational `num / 2^exp`,
//! so that the two interactive operations (doubling capped at full volume,
//! and halving) are exact, and a positive level stays positive under any
//! number of halvings.

use vstd::prelude::*;
use vstd::arithmetic::power2::{pow2, lemma2_to64, lemma_pow2_strictly_increases, lemma_pow2_unfold, lemma_pow2_pos};

verus! {

/// An output level in `(0, 1]`, represented exactly as `num / 2^exp`.
#[derive(Clone, Copy, PartialEq, Eq, Structural, Debug)]
pub struct Loudness {
    pub num: u64,
    pub exp: u64,
}

impl Loudness {
    /// The represented rational lies in `(0, 1]`.
    pub open spec fn wf(self) -> bool {
        1 <= self.num && self.num <= pow2(self.exp as nat)
    }

    /// The represented rational is exactly `1`.
    pub open spec fn is_one(self) -> bool {
        self.num == pow2(self.exp as nat)
    }

    /// The represented rational is strictly positive.
    pub open spec fn is_positive(self) -> bool {
        self.num >= 1
    }

    /// `self <= other` as rationals, by cross-multiplication.
    pub open spec fn le(self, other: Loudness) -> bool {
        self.num * pow2(other.exp as nat) <= other.num * pow2(self.exp as nat)
    }

    /// `self < other` as rationals, by cross-multiplication.
    pub open spec fn lt(self, other: Loudness) -> bool {
        self.num * pow2(other.exp as nat) < other.num * pow2(self.exp as nat)
    }

    /// `self == 2 * other` as rationals.
    pub open spec fn is_double_of(self, other: Loudness) -> bool {
        self.num * pow2(other.exp as nat) == 2 * other.num * pow2(self.exp as nat)
    }

    /// `self == other / 2` as rationals.
    pub open spec fn is_half_of(self, other: Loudness) -> bool {
        2 * self.num * pow2(other.exp as nat) == other.num * pow2(self.exp as nat)
    }

    /// A level given directly as `num / 2^exp`.
    pub fn new(num: u64, exp: u64) -> (r: Loudness)
        requires
            1 <= num,
            num <= pow2(exp as nat),
        ensures
            r.wf(),
            r.num == num,
            r.exp == exp,
    {
        Loudness { num, exp }
    }

    /// Full volume.
    pub fn full() -> (r: Loudness)
        ensures
            r.wf(),
            r.is_one(),
    {
        proof {
            lemma2_to64();
        }
        Loudness { num: 1, exp: 0 }
    }

    /// `2^e` as a machine word.
    fn pow2_u64(e: u64) -> (r: u64)
        requires
            e <= 63,
        ensures
            r == pow2(e as nat),
    {
        let mut r: u64 = 1;
        let mut i: u64 = 0;
        proof {
            lemma2_to64();
        }
        while i < e
            invariant
                i <= e,
                e <= 63,
                r == pow2(i as nat),
            decreases e - i,
        {
            proof {
                lemma_pow2_strictly_increases(i as nat, 63);
                lemma2_to64();
                lemma2_to64_rest_values();
                lemma_pow2_unfold((i + 1) as nat);
            }
            r = r * 2;
            i = i + 1;
        }
        r
    }

    /// Volume-up: the new level is `min(2 * old, 1)`.
    ///
    /// The level therefore never exceeds full volume, no matter how many
    /// up-events occur.
    pub fn volume_up(&mut self)
        requires
            old(self).wf(),
        ensures
            final(self).wf(),
            2 * old(self).num >= pow2(old(self).exp as nat) ==> final(self).is_one(),
            2 * old(self).num < pow2(old(self).exp as nat) ==> final(self).is_double_of(*old(self)),
    {
        proof {
            lemma2_to64();
        }
        if self.exp == 0 {
            // num <= 2^0 and num >= 1, so the level is already exactly 1.
        } else if self.exp >= 65 {
            proof {
                lemma_pow2_unfold(65);
                if self.exp > 65 {
                    lemma_pow2_strictly_increases(65, self.exp as nat);
                }
                lemma_pow2_unfold(self.exp as nat);
                let p = pow2((self.exp - 1) as nat);
                assert(self.num * (2 * p) == (2 * self.num) * p) by (nonlinear_arith);
            }
            self.exp = self.exp - 1;
        } else {
            let half = Self::pow2_u64(self.exp - 1);
            proof {
                lemma_pow2_unfold(self.exp as nat);
                let p = pow2((self.exp - 1) as nat);
                assert(self.num * (2 * p) == (2 * self.num) * p) by (nonlinear_arith);
            }
            if self.num >= half {
                self.num = 1;
                self.exp = 0;
            } else {
                self.exp = self.exp - 1;
            }
        }
    }

    /// Volume-down: the new level is exactly half the old one.
    ///
    /// There is no floor: the level approaches but never reaches zero.
    pub fn volume_down(&mut self)
        requires
            old(self).wf(),
            old(self).exp < u64::MAX,
        ensures
            final(self).wf(),
            final(self).is_half_of(*old(self)),
    {
        proof {
            lemma_pow2_unfold((self.exp + 1) as nat);
            let p = pow2(self.exp as nat);
            assert(self.num * (2 * p) == 2 * (self.num * p)) by (nonlinear_arith);
            assert(2 * self.num * p == 2 * (self.num * p)) by (nonlinear_arith);
        }
        self.exp = self.exp + 1;
    }
}

/// Helper: concrete values of `pow2` above 32 that the level arithmetic needs.
proof fn lemma2_to64_rest_values()
    ensures
        pow2(63) == 0x8000000000000000,
{
    vstd::arithmetic::power2::lemma2_to64_rest();
}

/// Law: a well-formed level is at most full volume. Together with the
/// contracts of `volume_up` and `volume_down`, which both return
/// well-formed levels, the level never exceeds `1` after any sequence of
/// events.
pub proof fn lemma_level_at_most_one(l: Loudness)
    requires
        l.wf(),
    ensures
        l.le(Loudness { num: 1, exp: 0 }),
{
    lemma2_to64();
    assert(l.num * pow2(0) == l.num);
}

/// Law: halving a well-formed level keeps it strictly positive and makes
/// it strictly smaller; so the level never reaches zero after any sequence
/// of down-events from a positive level.
pub proof fn lemma_half_strictly_below(after: Loudness, before: Loudness)
    requires
        before.wf(),
        after.wf(),
        after.is_half_of(before),
    ensures
        after.is_positive(),
        after.lt(before),
{
    lemma_pow2_pos(before.exp as nat);
    let p = pow2(before.exp as nat);
    assert(after.num * p >= 1) by (nonlinear_arith)
        requires
            after.num >= 1,
            p >= 1,
    ;
    assert(2 * after.num * p == 2 * (after.num * p)) by (nonlinear_arith);
}

/// Which update an input event asks of the control state.
#[derive(Clone, Copy, PartialEq, Eq, Structural, Debug)]
pub enum InputEvent {
    /// Double the loudness, capped at full volume.
    VolumeUp,
    /// Halve the loudness.
    VolumeDown,
    /// Request shutdown (quit key or process interrupt).
    Quit,
    /// Anything else: ignored.
    Other,
}

/// The shared state block read by the realtime engine and written by the
/// input dispatcher: current loudness and the shutdown flag.
#[derive(Clone, Copy, PartialEq, Eq, Structural, Debug)]
pub struct ControlChannel {
    pub loudness: Loudness,
    pub shutdown: bool,
}

impl ControlChannel {
    pub open spec fn wf(self) -> bool {
        self.loudness.wf()
    }

    pub fn new(initial: Loudness) -> (r: ControlChannel)
        requires
            initial.wf(),
        ensures
            r.wf(),
            r.loudness == initial,
            !r.shutdown,
    {
        ControlChannel { loudness: initial, shutdown: false }
    }

    /// The input dispatcher's decision table: what one input event does to
    /// the control state.
    ///
    /// A halving event at the representation's precision limit leaves the
    /// state unchanged; every reachable state is far from that limit.
    pub fn apply(&mut self, ev: InputEvent)
        requires
            old(self).wf(),
        ensures
            final(self).wf(),
            old(self).shutdown ==> final(self).shutdown,
            ev == InputEvent::Quit ==> final(self).shutdown
                && final(self).loudness == old(self).loudness,
            ev == InputEvent::Other ==> *final(self) == *old(self),
            ev == InputEvent::VolumeUp ==> {
                &&& final(self).shutdown == old(self).shutdown
                &&& (2 * old(self).loudness.num >= pow2(old(self).loudness.exp as nat)
                    ==> final(self).loudness.is_one())
                &&& (2 * old(self).loudness.num < pow2(old(self).loudness.exp as nat)
                    ==> final(self).loudness.is_double_of(old(self).loudness))
            },
            ev == InputEvent::VolumeDown ==> {
                &&& final(self).shutdown == old(self).shutdown
                &&& (old(self).loudness.exp < u64::MAX
                    ==> final(self).loudness.is_half_of(old(self).loudness))
                &&& (old(self).loudness.exp == u64::MAX
                    ==> final(self).loudness == old(self).loudness)
            },
    {
        match ev {
            InputEvent::VolumeUp => {
                self.loudness.volume_up();
            }
            InputEvent::VolumeDown => {
                if self.loudness.exp < u64::MAX {
                    self.loudness.volume_down();
                }
            }
            InputEvent::Quit => {
                self.shutdown = true;
            }
            InputEvent::Other => {
            }
        }
    }
}

} // verus!
