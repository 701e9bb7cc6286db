//! A small, fast, deterministic pseudo-random generator.
//!
//! The search engine and the card game draw every random number from a
//! [`WeakRng`], a 128-bit xorshift generator.  Its transition function is
//! fully specified, so everything built on top of it is a deterministic
//! function of the seed: searches and simulations can be reproduced exactly
//! by reusing a seed.  `randomly_seeded_weak_rng` draws a fresh seed from the
//! operating system's entropy for callers that do not care about replay.

use vstd::prelude::*;

verus! {

/// Xorshift generator state.  Every state is usable, but the all-zero state
/// is a fixed point of the transition (it only ever yields zero), so
/// constructors refuse it.
#[derive(Clone, Copy, Debug, PartialEq, Eq, Structural)]
pub struct WeakRng {
    pub x: u32,
    pub y: u32,
    pub z: u32,
    pub w: u32,
}

impl WeakRng {
    /// The xorshift128 transition: the next generator state.
    pub open spec fn step(self) -> WeakRng {
        let t = self.x ^ (self.x << 11u32);
        WeakRng {
            x: self.y,
            y: self.z,
            z: self.w,
            w: self.w ^ (self.w >> 19u32) ^ (t ^ (t >> 8u32)),
        }
    }

    /// The output produced together with the transition to `step`.
    pub open spec fn output(self) -> u32 {
        self.step().w
    }

    /// The state after two transitions, and the 64-bit output assembled from
    /// them: high word first, then low word.
    pub open spec fn step2(self) -> WeakRng {
        self.step().step()
    }

    pub open spec fn output64(self) -> u64 {
        ((self.output() as u64) << 32u64) | (self.step().output() as u64)
    }

    /// The index drawn for a collection of `n` elements: the next 64-bit
    /// output reduced modulo `n`.  Advances the state twice.
    pub open spec fn output_index(self, n: nat) -> nat
        recommends
            n >= 1,
    {
        self.output64() as nat % n
    }

    pub fn from_seed(x: u32, y: u32, z: u32, w: u32) -> (r: WeakRng)
        requires
            !(x == 0 && y == 0 && z == 0 && w == 0),
        ensures
            r == (WeakRng { x, y, z, w }),
    {
        WeakRng { x, y, z, w }
    }

    pub fn next_u32(&mut self) -> (r: u32)
        ensures
            *final(self) == old(self).step(),
            r == old(self).output(),
    {
        let x = self.x;
        let t = x ^ (x << 11u32);
        self.x = self.y;
        self.y = self.z;
        self.z = self.w;
        let w = self.w;
        self.w = w ^ (w >> 19u32) ^ (t ^ (t >> 8u32));
        self.w
    }

    pub fn next_u64(&mut self) -> (r: u64)
        ensures
            *final(self) == old(self).step2(),
            r == old(self).output64(),
    {
        let hi = self.next_u32();
        let lo = self.next_u32();
        ((hi as u64) << 32u64) | (lo as u64)
    }

    /// Draws an index in `0 .. n`.
    pub fn gen_index(&mut self, n: usize) -> (r: usize)
        requires
            n >= 1,
        ensures
            *final(self) == old(self).step2(),
            r < n,
            r == old(self).output_index(n as nat),
    {
        let v = self.next_u64();
        (v % (n as u64)) as usize
    }
}

/// Seed material for `randomly_seeded_weak_rng`.
///
/// Relies on `rand::random` for entropy; nothing is promised of the values
/// drawn.
#[verifier::external_body]
fn random_u32() -> u32 {
    rand::random()
}

/// A generator seeded from the operating system's entropy.  Searches that
/// must be reproducible should build their generator with
/// `WeakRng::from_seed` instead.
pub fn randomly_seeded_weak_rng() -> WeakRng {
    let x = random_u32();
    let y = random_u32();
    let z = random_u32();
    let w = random_u32();
    if x == 0 && y == 0 && z == 0 && w == 0 {
        WeakRng::from_seed(0x193a6754, 0xa8a7d469, 0x97830e05, 0x113ba7bb)
    } else {
        WeakRng::from_seed(x, y, z, w)
    }
}

} // verus!
