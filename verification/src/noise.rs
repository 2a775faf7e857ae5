//! The source of the small offsets that break ties between equal scores.

use vstd::prelude::*;

verus! {

/// One step of the generator: a linear congruential step on 64 bits.
pub open spec fn scramble(x: int) -> int {
    (x * 6364136223846793005 + 1442695040888963407) % 0x1_0000_0000_0000_0000
}

/// The offset that a source of the given seed and scale gives for draw
/// number `draw`: nothing at scale 0, and otherwise a number below the
/// scale that depends on the seed and the draw alone.
pub open spec fn offset(seed: u64, scale: u64, draw: int) -> int {
    if scale == 0 {
        0
    } else {
        (scramble(scramble(seed as int) + draw % 0x1_0000_0000_0000_0000) / 0x1_0000_0000) % (
        scale as int)
    }
}

/// A source of offsets in `[0, scale)`. Every worker gets one of its own;
/// what it gives depends on nothing but its seed, its scale and the number
/// of the draw, so no state is shared and a conversion can be repeated.
#[derive(Clone, Copy, Debug)]
pub struct NoiseSource {
    pub seed: u64,
    pub scale: u64,
}

fn scramble_word(x: u128) -> (r: u64)
    requires
        x < 0x2_0000_0000_0000_0000,
    ensures
        r == scramble(x as int),
{
    assert(x * 6364136223846793005 <= 0x2_0000_0000_0000_0000 * 6364136223846793005)
        by (nonlinear_arith)
        requires
            0 <= x < 0x2_0000_0000_0000_0000,
    ;
    let y: u128 = (x * 6364136223846793005 + 1442695040888963407) % 0x1_0000_0000_0000_0000;
    y as u64
}

impl NoiseSource {
    pub fn new(seed: u64, scale: u64) -> (r: NoiseSource)
        ensures
            r.seed == seed,
            r.scale == scale,
    {
        NoiseSource { seed, scale }
    }

    /// A source that always gives 0.
    pub fn silent() -> (r: NoiseSource)
        ensures
            r.scale == 0,
            r.seed == 0,
    {
        NoiseSource { seed: 0, scale: 0 }
    }

    /// The source of the worker that takes slice number `slice`.
    pub fn for_slice(&self, slice: usize) -> (r: NoiseSource)
        ensures
            r.scale == self.scale,
            r.seed == worker_seed(self.seed, slice as int),
    {
        let mixed: u64 = scramble_word((self.seed as u128) + ((slice as u128) % 0x1_0000_0000_0000_0000));
        NoiseSource { seed: mixed, scale: self.scale }
    }

    /// The offset for draw number `draw`.
    pub fn sample(&self, draw: u128) -> (r: u64)
        ensures
            r == offset(self.seed, self.scale, draw as int),
            self.scale == 0 ==> r == 0,
            self.scale > 0 ==> r < self.scale,
    {
        if self.scale == 0 {
            return 0;
        }
        let first: u64 = scramble_word(self.seed as u128);
        let second: u64 = scramble_word((first as u128) + (draw % 0x1_0000_0000_0000_0000));
        (second / 0x1_0000_0000) % self.scale
    }
}

/// The seed of the source of the worker that takes slice number `slice`.
pub open spec fn worker_seed(seed: u64, slice: int) -> u64 {
    scramble(seed as int + slice % 0x1_0000_0000_0000_0000) as u64
}

} // verus!
