//! What can be rendered as CSS.
use vstd::prelude::*;
use crate::graphics::color::ColorMapping;
use crate::text::{push_char, write_str};
use crate::ui::joined;

verus! {

/// Can be rendered as a CSS ruleset (declarations, no selector).
pub trait CSSRenderable {
    /// The declarations when the value fills a shape.
    spec fn css_filled(&self, colormap: ColorMapping) -> Seq<char>;

    /// The declarations when the value strokes a shape.
    spec fn css_stroked(&self, colormap: ColorMapping) -> Seq<char>;

    fn render_to_css_filled(&self, colormap: &ColorMapping) -> (s: String)
        ensures
            s@ == self.css_filled(*colormap),
    ;

    fn render_to_css_stroked(&self, colormap: &ColorMapping) -> (s: String)
        ensures
            s@ == self.css_stroked(*colormap),
    ;

    /// The stroked declarations when `fill_as_stroke_color`, else the filled ones.
    fn render_to_css(&self, colormap: &ColorMapping, fill_as_stroke_color: bool) -> (s: String)
        ensures
            s@ == (if fill_as_stroke_color {
                self.css_stroked(*colormap)
            } else {
                self.css_filled(*colormap)
            }),
    {
        if fill_as_stroke_color {
            self.render_to_css_stroked(colormap)
        } else {
            self.render_to_css_filled(colormap)
        }
    }
}

/// The filled declarations of each item, or the stroked ones, in order.
pub open spec fn css_items<T: CSSRenderable>(
    items: Seq<T>,
    colormap: ColorMapping,
    stroked: bool,
) -> Seq<Seq<char>> {
    items.map_values(
        |t: T|
            if stroked {
                t.css_stroked(colormap)
            } else {
                t.css_filled(colormap)
            },
    )
}

/// Renders each item, one per line.
fn render_lines<T: CSSRenderable>(items: &Vec<T>, colormap: &ColorMapping, stroked: bool) -> (s:
    String)
    ensures
        s@ == joined(css_items(items@, *colormap, stroked), seq!['\n']),
{
    let ghost all = css_items(items@, *colormap, stroked);
    let mut s = String::new();
    let mut i: usize = 0;
    while i < items.len()
        invariant
            i <= items@.len(),
            all == css_items(items@, *colormap, stroked),
            s@ == joined(all.take(i as int), seq!['\n']),
        decreases items@.len() - i,
    {
        if i > 0 {
            push_char(&mut s, '\n');
        }
        let line = if stroked {
            items[i].render_to_css_stroked(colormap)
        } else {
            items[i].render_to_css_filled(colormap)
        };
        write_str(&mut s, line.as_str());
        proof {
            assert(all.take(i + 1).drop_last() =~= all.take(i as int));
            assert(all.take(i + 1).last() == all[i as int]);
        }
        i = i + 1;
    }
    assert(all.take(items@.len() as int) =~= all);
    s
}

impl<T: CSSRenderable> CSSRenderable for Vec<T> {
    open spec fn css_filled(&self, colormap: ColorMapping) -> Seq<char> {
        joined(css_items(self@, colormap, false), seq!['\n'])
    }

    open spec fn css_stroked(&self, colormap: ColorMapping) -> Seq<char> {
        joined(css_items(self@, colormap, true), seq!['\n'])
    }

    fn render_to_css_filled(&self, colormap: &ColorMapping) -> (s: String) {
        render_lines(self, colormap, false)
    }

    fn render_to_css_stroked(&self, colormap: &ColorMapping) -> (s: String) {
        render_lines(self, colormap, true)
    }
}

} // verus!
