//! Colors drawn at random.
use vstd::prelude::*;
use rand::rngs::StdRng;
use crate::graphics::color::Color;
use crate::random::source::random_in;

verus! {

impl Color {
    /// One of the twelve colors, drawn at random.
    pub fn random(rng: &mut StdRng) -> (c: Color) {
        let candidates = Color::all();
        let i = random_in(rng, 0, candidates.len());
        candidates[i]
    }

    /// A color other than `except`, drawn at random among the eleven others.
    pub fn random_except(rng: &mut StdRng, except: Color) -> (c: Color)
        ensures
            c != except,
    {
        let all = Color::all();
        let mut candidates: Vec<Color> = Vec::new();
        let mut i: usize = 0;
        while i < all.len()
            invariant
                i <= all@.len(),
                all@.len() == 12,
                all@[0] == Color::Black,
                all@[1] == Color::White,
                forall|j: int| 0 <= j < candidates@.len() ==> candidates@[j] != except,
                i >= 1 && all@[0] != except ==> candidates@.len() > 0,
                i >= 2 ==> candidates@.len() > 0,
            decreases all@.len() - i,
        {
            if all[i] != except {
                candidates.push(all[i]);
            }
            i = i + 1;
        }
        let k = random_in(rng, 0, candidates.len());
        candidates[k]
    }
}

} // verus!
