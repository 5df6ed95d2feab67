//! The font settings a canvas renders its text with.
use vstd::prelude::*;

verus! {

/// Where fonts are looked up, and which families stand for the generic font names.
#[derive(Debug, Clone)]
pub struct FontOptions {
    pub skip_system_fonts: bool,
    pub font_files: Vec<String>,
    pub font_dirs: Vec<String>,
    pub serif_family: Option<String>,
    pub sans_serif_family: Option<String>,
    pub cursive_family: Option<String>,
    pub fantasy_family: Option<String>,
    pub monospace_family: Option<String>,
}

impl FontOptions {
    /// System fonts are loaded, no extra font file or directory, no family overridden.
    pub open spec fn is_default(&self) -> bool {
        &&& !self.skip_system_fonts
        &&& self.font_files@.len() == 0
        &&& self.font_dirs@.len() == 0
        &&& self.serif_family is None
        &&& self.sans_serif_family is None
        &&& self.cursive_family is None
        &&& self.fantasy_family is None
        &&& self.monospace_family is None
    }
}

impl Default for FontOptions {
    fn default() -> (o: FontOptions)
        ensures
            o.is_default(),
    {
        FontOptions {
            skip_system_fonts: false,
            font_files: Vec::new(),
            font_dirs: Vec::new(),
            serif_family: None,
            sans_serif_family: None,
            cursive_family: None,
            fantasy_family: None,
            monospace_family: None,
        }
    }
}

} // verus!
