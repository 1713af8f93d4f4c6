//! What the measurement engine measures: a function of an input word and a
//! seed word.

use vstd::prelude::*;

verus! {

/// A bit-mixing function of an input and a seed.
///
/// `mix_spec` is the function itself; `mix` computes it. Being a function,
/// it returns the same word whenever it gets the same two.
pub trait Mixer {
    /// What `mix` needs of the value it is called on.
    spec fn valid(&self) -> bool;

    /// The word that `input` is mixed into under `seed`.
    spec fn mix_spec(&self, input: u32, seed: u32) -> u32;

    /// Mixes `input` under `seed`.
    fn mix(&self, input: u32, seed: u32) -> (r: u32)
        requires
            self.valid(),
        ensures
            r == self.mix_spec(input, seed),
    ;
}

/// Whether `f` may be called on every input and seed.
pub open spec fn total_fn<F: Fn(u32, u32) -> u32>(f: F) -> bool {
    forall|input: u32, seed: u32| #[trigger] call_requires(f, (input, seed))
}

/// Whether `f` can return one word only for each input and seed.
pub open spec fn single_valued<F: Fn(u32, u32) -> u32>(f: F) -> bool {
    forall|input: u32, seed: u32, a: u32, b: u32|
        #[trigger] call_ensures(f, (input, seed), a) && #[trigger] call_ensures(f, (input, seed), b)
            ==> a == b
}

/// A closure or function taken as a `Mixer`.
pub struct FnMixer<F> {
    pub f: F,
}

impl<F: Fn(u32, u32) -> u32> FnMixer<F> {
    /// Takes `f`, which must accept every input and seed and be a function of
    /// them. What the mixer makes of an input is whatever `f` can return for
    /// it.
    pub fn new(f: F) -> (m: Self)
        requires
            total_fn(f),
            single_valued(f),
        ensures
            m.f == f,
            m.valid(),
            forall|input: u32, seed: u32, r: u32| #[trigger]
                call_ensures(f, (input, seed), r) ==> m.mix_spec(input, seed) == r,
    {
        FnMixer { f }
    }
}

impl<F: Fn(u32, u32) -> u32> Mixer for FnMixer<F> {
    open spec fn valid(&self) -> bool {
        total_fn(self.f) && single_valued(self.f)
    }

    open spec fn mix_spec(&self, input: u32, seed: u32) -> u32 {
        choose|r: u32| call_ensures(self.f, (input, seed), r)
    }

    fn mix(&self, input: u32, seed: u32) -> (r: u32)
        ensures
            call_ensures(self.f, (input, seed), r),
    {
        (self.f)(input, seed)
    }
}

} // verus!
