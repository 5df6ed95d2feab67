//! Fills drawn at random.
use vstd::prelude::*;
use rand::rngs::StdRng;
use crate::graphics::color::Color;
use crate::graphics::fill::Fill;

verus! {

impl Fill {
    /// A solid fill of a color drawn at random, other than `except` when one is given.
    pub fn random_solid(rng: &mut StdRng, except: Option<Color>) -> (f: Fill)
        ensures
            f is Solid,
            except matches Some(c) ==> f != Fill::Solid(c),
    {
        Fill::Solid(
            match except {
                Some(color) => Color::random_except(rng, color),
                None => Color::random(rng),
            },
        )
    }
}

} // verus!
