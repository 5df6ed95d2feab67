//! SVG filters applied to objects.
use vstd::prelude::*;
use crate::graphics::scalar::Scalar;

verus! {

/// The kind of a filter.
#[derive(Debug, Clone, Copy, PartialEq, Eq, Structural)]
pub enum FilterType {
    Glow,
    NaturalShadow,
    Saturation,
}

/// A filter with its parameter.
#[derive(Debug, Clone, Copy, PartialEq, Eq, Structural)]
pub struct Filter {
    pub kind: FilterType,
    pub parameter: Scalar,
}

/// The name of a kind of filter.
pub open spec fn filter_name(kind: FilterType) -> Seq<char> {
    match kind {
        FilterType::Glow => seq!['g', 'l', 'o', 'w'],
        FilterType::NaturalShadow => seq![
            'n', 'a', 't', 'u', 'r', 'a', 'l', '-', 's', 'h', 'a', 'd', 'o', 'w', '-', 'f', 'i', 'l',
            't', 'e', 'r',
        ],
        FilterType::Saturation => seq!['s', 'a', 't', 'u', 'r', 'a', 't', 'i', 'o', 'n'],
    }
}

impl Filter {
    /// The name of the filter's kind: `glow`, `natural-shadow-filter` or `saturation`.
    pub fn name(&self) -> (s: String)
        ensures
            s@ == filter_name(self.kind),
    {
        let s = match self.kind {
            FilterType::Glow => "glow",
            FilterType::NaturalShadow => "natural-shadow-filter",
            FilterType::Saturation => "saturation",
        };
        proof {
            reveal_strlit("glow");
            reveal_strlit("natural-shadow-filter");
            reveal_strlit("saturation");
            assert("glow"@ =~= filter_name(FilterType::Glow));
            assert("natural-shadow-filter"@ =~= filter_name(FilterType::NaturalShadow));
            assert("saturation"@ =~= filter_name(FilterType::Saturation));
        }
        String::from_str(s)
    }

    /// A glow of the given intensity.
    pub fn glow(intensity: Scalar) -> (f: Filter)
        ensures
            f == (Filter { kind: FilterType::Glow, parameter: intensity }),
    {
        Filter { kind: FilterType::Glow, parameter: intensity }
    }
}

} // verus!
