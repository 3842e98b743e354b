//! Interleaved fan-out of stereo frames into a device buffer.
//!
//! The device hands a flat buffer of `frames * channels` slots; each
//! frame's stereo pair is spread across the channels by parity — even
//! channel index takes the left sample, odd the right — replicating as
//! needed beyond stereo. Every slot is written.

use vstd::prelude::*;
use vstd::pervasive::VecAdditionalExecFns;

verus! {

/// The value slot `i` of the buffer must hold: the left or right sample
/// of its frame, by channel parity.
pub open spec fn slot_value<T>(frames: Seq<(T, T)>, channels: int, i: int) -> T {
    if (i % channels) % 2 == 0 {
        frames[i / channels].0
    } else {
        frames[i / channels].1
    }
}

/// Fill the whole output buffer from the given stereo frames: exactly
/// `frames.len() * channels` samples are written, none left unwritten.
pub fn write_data<T: Copy>(output: &mut Vec<T>, channels: usize, frames: &Vec<(T, T)>)
    requires
        channels >= 1,
        old(output).len() == frames.len() * channels,
    ensures
        final(output).len() == old(output).len(),
        forall|i: int|
            0 <= i < final(output).len() ==> final(output)@[i] == slot_value(
                frames@,
                channels as int,
                i,
            ),
{
    let n = output.len();
    let mut i: usize = 0;
    while i < n
        invariant
            i <= n,
            channels >= 1,
            output.len() == n,
            n == frames@.len() * channels,
            forall|k: int|
                0 <= k < i ==> output@[k] == slot_value(frames@, channels as int, k),
        decreases n - i,
    {
        let f = i / channels;
        let c = i % channels;
        proof {
            assert((i as int) / (channels as int) < frames@.len()) by (nonlinear_arith)
                requires
                    0 <= (i as int) < frames@.len() * (channels as int),
                    channels >= 1,
            ;
        }
        let pair = frames[f];
        if c % 2 == 0 {
            output.set(i, pair.0);
        } else {
            output.set(i, pair.1);
        }
        i = i + 1;
    }
}

} // verus!
