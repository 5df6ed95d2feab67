//! Named colors and the mapping that gives each its CSS value.
use vstd::prelude::*;

verus! {

/// One of the twelve named colors of a palette.
#[derive(Debug, Clone, Copy, PartialEq, Eq, Structural)]
pub enum Color {
    Black,
    White,
    Red,
    Green,
    Blue,
    Yellow,
    Orange,
    Purple,
    Brown,
    Pink,
    Gray,
    Cyan,
}

/// The CSS value that each named color renders to.
#[derive(Debug, Clone)]
pub struct ColorMapping {
    pub black: String,
    pub white: String,
    pub red: String,
    pub green: String,
    pub blue: String,
    pub yellow: String,
    pub orange: String,
    pub purple: String,
    pub brown: String,
    pub pink: String,
    pub gray: String,
    pub cyan: String,
}

/// Each color renders to its CSS color keyword.
pub open spec fn is_default_colormap(m: ColorMapping) -> bool {
    &&& m.black@ == "black"@
    &&& m.white@ == "white"@
    &&& m.red@ == "red"@
    &&& m.green@ == "green"@
    &&& m.blue@ == "blue"@
    &&& m.yellow@ == "yellow"@
    &&& m.orange@ == "orange"@
    &&& m.purple@ == "purple"@
    &&& m.brown@ == "brown"@
    &&& m.pink@ == "pink"@
    &&& m.gray@ == "gray"@
    &&& m.cyan@ == "cyan"@
}

impl Default for ColorMapping {
    /// Each color renders to its CSS color keyword.
    fn default() -> (m: ColorMapping)
        ensures
            m.black@ == "black"@,
            m.white@ == "white"@,
            m.red@ == "red"@,
            m.green@ == "green"@,
            m.blue@ == "blue"@,
            m.yellow@ == "yellow"@,
            m.orange@ == "orange"@,
            m.purple@ == "purple"@,
            m.brown@ == "brown"@,
            m.pink@ == "pink"@,
            m.gray@ == "gray"@,
            m.cyan@ == "cyan"@,
    {
        ColorMapping {
            black: String::from_str("black"),
            white: String::from_str("white"),
            red: String::from_str("red"),
            green: String::from_str("green"),
            blue: String::from_str("blue"),
            yellow: String::from_str("yellow"),
            orange: String::from_str("orange"),
            purple: String::from_str("purple"),
            brown: String::from_str("brown"),
            pink: String::from_str("pink"),
            gray: String::from_str("gray"),
            cyan: String::from_str("cyan"),
        }
    }
}

impl Color {
    /// The CSS value of this color under `mapping`.
    pub open spec fn rendered(self, mapping: ColorMapping) -> Seq<char> {
        match self {
            Color::Black => mapping.black@,
            Color::White => mapping.white@,
            Color::Red => mapping.red@,
            Color::Green => mapping.green@,
            Color::Blue => mapping.blue@,
            Color::Yellow => mapping.yellow@,
            Color::Orange => mapping.orange@,
            Color::Purple => mapping.purple@,
            Color::Brown => mapping.brown@,
            Color::Pink => mapping.pink@,
            Color::Gray => mapping.gray@,
            Color::Cyan => mapping.cyan@,
        }
    }

    /// Renders this color to its CSS value under `mapping`.
    pub fn render(&self, mapping: &ColorMapping) -> (s: String)
        ensures
            s@ == self.rendered(*mapping),
    {
        match self {
            Color::Black => mapping.black.clone(),
            Color::White => mapping.white.clone(),
            Color::Red => mapping.red.clone(),
            Color::Green => mapping.green.clone(),
            Color::Blue => mapping.blue.clone(),
            Color::Yellow => mapping.yellow.clone(),
            Color::Orange => mapping.orange.clone(),
            Color::Purple => mapping.purple.clone(),
            Color::Brown => mapping.brown.clone(),
            Color::Pink => mapping.pink.clone(),
            Color::Gray => mapping.gray.clone(),
            Color::Cyan => mapping.cyan.clone(),
        }
    }

    /// The lower-case name of this color.
    pub open spec fn spec_name(self) -> Seq<char> {
        match self {
            Color::Black => seq!['b', 'l', 'a', 'c', 'k'],
            Color::White => seq!['w', 'h', 'i', 't', 'e'],
            Color::Red => seq!['r', 'e', 'd'],
            Color::Green => seq!['g', 'r', 'e', 'e', 'n'],
            Color::Blue => seq!['b', 'l', 'u', 'e'],
            Color::Yellow => seq!['y', 'e', 'l', 'l', 'o', 'w'],
            Color::Orange => seq!['o', 'r', 'a', 'n', 'g', 'e'],
            Color::Purple => seq!['p', 'u', 'r', 'p', 'l', 'e'],
            Color::Brown => seq!['b', 'r', 'o', 'w', 'n'],
            Color::Pink => seq!['p', 'i', 'n', 'k'],
            Color::Gray => seq!['g', 'r', 'a', 'y'],
            Color::Cyan => seq!['c', 'y', 'a', 'n'],
        }
    }

    /// The lower-case name of this color.
    pub fn name(&self) -> (s: String)
        ensures
            s@ == self.spec_name(),
    {
        let s = match self {
            Color::Black => "black",
            Color::White => "white",
            Color::Red => "red",
            Color::Green => "green",
            Color::Blue => "blue",
            Color::Yellow => "yellow",
            Color::Orange => "orange",
            Color::Purple => "purple",
            Color::Brown => "brown",
            Color::Pink => "pink",
            Color::Gray => "gray",
            Color::Cyan => "cyan",
        };
        proof {
            reveal_strlit("black");
            reveal_strlit("white");
            reveal_strlit("red");
            reveal_strlit("green");
            reveal_strlit("blue");
            reveal_strlit("yellow");
            reveal_strlit("orange");
            reveal_strlit("purple");
            reveal_strlit("brown");
            reveal_strlit("pink");
            reveal_strlit("gray");
            reveal_strlit("cyan");
        }
        String::from_str(s)
    }

    /// All twelve colors, in declaration order.
    pub fn all() -> (v: Vec<Color>)
        ensures
            v@ == seq![
                Color::Black,
                Color::White,
                Color::Red,
                Color::Green,
                Color::Blue,
                Color::Yellow,
                Color::Orange,
                Color::Purple,
                Color::Brown,
                Color::Pink,
                Color::Gray,
                Color::Cyan,
            ],
    {
        vec![
            Color::Black,
            Color::White,
            Color::Red,
            Color::Green,
            Color::Blue,
            Color::Yellow,
            Color::Orange,
            Color::Purple,
            Color::Brown,
            Color::Pink,
            Color::Gray,
            Color::Cyan,
        ]
    }
}

} // verus!
