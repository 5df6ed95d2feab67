//! How the SVG nodes of objects, layers and the canvas are put together: which wrappers an
//! object gets, in which order a layer draws its objects and a canvas its layers, and the
//! document around them.
use vstd::prelude::*;
use crate::geometry::point::point_text;
use crate::geometry::region::Region;
use crate::graphics::canvas::Canvas;
use crate::graphics::color::Color;
use crate::graphics::layer::Layer;
use crate::graphics::objects::Object;
use crate::rendering::pairs::{key_index, pairs_view, with_pair, TextPair};
use crate::rendering::svg::{style_key, tag, Element, Node};
use crate::text::{
    decimal, decimal_text, lemma_lex_irreflexive, lemma_lex_total, lemma_lex_transitive, lex_lt, push_char, text_lt, write_decimal, write_str,
};

verus! {

impl Object {
    /// The object has transformations or filters, and is drawn in a group of its own.
    pub open spec fn has_effects(&self) -> bool {
        self.transformations@.len() > 0 || self.filters@.len() > 0
    }
}

/// `n` is the drawing of object `o` styled with `css`: for an object with effects, a group
/// with the transformations' attributes and `css` as style around the shape's node; else the
/// shape's element with `css` as style, or the shape's node as it is when not an element.
pub open spec fn styled_node(
    o: Object,
    plain: Node,
    css: Seq<char>,
    transform_attributes: Seq<TextPair>,
    n: Node,
) -> bool {
    if o.has_effects() {
        n matches Node::Element(g) && g.tag@ == seq!['g'] && pairs_view(g.attributes@) == with_pair(
            transform_attributes,
            style_key(),
            css,
        ) && g.styles@.len() == 0 && g.children@ == seq![plain]
    } else {
        match plain {
            Node::Element(el) => n matches Node::Element(e) && e.tag == el.tag && e.styles
                == el.styles && e.children == el.children && pairs_view(e.attributes@) == with_pair(
                pairs_view(el.attributes@),
                style_key(),
                css,
            ),
            _ => n == plain,
        }
    }
}

/// The id of the clip path of a region: `clip-`, its start, `-`, its end.
pub open spec fn clip_id(r: Region) -> Seq<char> {
    seq!['c', 'l', 'i', 'p', '-'] + point_text(r.start) + seq!['-'] + point_text(r.end)
}

/// `n` is `inner` clipped as object `o` asks: in a group whose `clip-path` is the clip id of
/// the object's clip region, or `inner` itself without one.
pub open spec fn clipped_node(o: Object, inner: Node, n: Node) -> bool {
    match o.clip_to {
        Some(r) => n matches Node::Element(g) && g.tag@ == seq!['g'] && pairs_view(g.attributes@)
            == seq![(seq!['c', 'l', 'i', 'p', '-', 'p', 'a', 't', 'h'], clip_id(r))]
            && g.styles@.len() == 0 && g.children@ == seq![inner],
        None => n == inner,
    }
}

impl Object {
    /// The drawing of this object from the node of its shape (see `styled_node` and
    /// `clipped_node`), given its CSS and the attributes of its transformations.
    pub fn render_node(
        &self,
        plain: Node,
        css: &str,
        transform_attributes: Vec<(String, String)>,
    ) -> (n: Node)
        ensures
            exists|inner: Node|
                #[trigger] styled_node(
                    *self,
                    plain,
                    css@,
                    pairs_view(transform_attributes@),
                    inner,
                ) && clipped_node(*self, inner, n),
    {
        let ghost p = plain;
        let ghost ta = pairs_view(transform_attributes@);
        let object_svg = if self.transformations.len() > 0 || self.filters.len() > 0 {
            let mut children: Vec<Node> = Vec::new();
            children.push(plain);
            tag("g").with_attributes(transform_attributes).wrapping(children).attr("style", css).node()
        } else {
            match plain {
                Node::Element(el) => el.attr("style", css).node(),
                other => other,
            }
        };
        proof {
            reveal_strlit("g");
            reveal_strlit("style");
            assert("g"@ =~= seq!['g']);
            assert("style"@ =~= style_key());
        }
        assert(styled_node(*self, p, css@, ta, object_svg));
        match &self.clip_to {
            Some(region) => {
                let id = region.clip_path_id();
                let mut attributes: Vec<(String, String)> = Vec::new();
                attributes.push((String::from_str("clip-path"), id));
                let mut children: Vec<Node> = Vec::new();
                children.push(object_svg);
                let n = tag("g").with_attributes(attributes).wrapping(children).node();
                proof {
                    reveal_strlit("clip-path");
                    assert("clip-path"@ =~= seq!['c', 'l', 'i', 'p', '-', 'p', 'a', 't', 'h']);
                    assert(pairs_view(attributes@) =~= seq![
                        (seq!['c', 'l', 'i', 'p', '-', 'p', 'a', 't', 'h'], clip_id(*region)),
                    ]);
                }
                n
            },
            None => object_svg,
        }
    }
}

/// The object at `a` is drawn before the one at `b`: its name sorts first, or the names are
/// the same and it comes first.
pub open spec fn drawn_before(objects: Seq<(String, Object)>, a: int, b: int) -> bool {
    ||| lex_lt(objects[a].0@, objects[b].0@)
    ||| objects[a].0@ == objects[b].0@ && a < b
}

proof fn lemma_drawn_before_transitive(objects: Seq<(String, Object)>, x: int, y: int, z: int)
    requires
        drawn_before(objects, x, y),
        drawn_before(objects, y, z),
    ensures
        drawn_before(objects, x, z),
{
    let (nx, ny, nz) = (objects[x].0@, objects[y].0@, objects[z].0@);
    if lex_lt(nx, ny) && lex_lt(ny, nz) {
        lemma_lex_transitive(nx, ny, nz);
    }
}

/// `p` lists the places of the objects in drawing order: every place once, each drawn
/// before the next.
pub open spec fn in_drawing_order(objects: Seq<(String, Object)>, p: Seq<int>) -> bool {
    &&& p.len() == objects.len()
    &&& forall|i: int| 0 <= i < p.len() ==> 0 <= #[trigger] p[i] < objects.len()
    &&& forall|i: int, j: int|
        0 <= i < j < p.len() ==> drawn_before(objects, #[trigger] p[i], #[trigger] p[j])
}

impl Layer {
    /// The places of the objects in the order they are drawn: by name (see
    /// `in_drawing_order`).
    pub fn drawing_order(&self) -> (order: Vec<usize>)
        ensures
            in_drawing_order(self.objects@, order@.map_values(|i: usize| i as int)),
    {
        let ghost objs = self.objects@;
        let n = self.objects.len();
        let mut rest: Vec<usize> = Vec::new();
        let mut t: usize = 0;
        while t < n
            invariant
                t <= n,
                n == objs.len(),
                rest@.len() == t,
                forall|j: int| 0 <= j < t ==> rest@[j] == j,
            decreases n - t,
        {
            rest.push(t);
            t = t + 1;
        }
        let mut order: Vec<usize> = Vec::new();
        while rest.len() > 0
            invariant
                objs == self.objects@,
                n == objs.len(),
                order@.len() + rest@.len() == n,
                forall|a: int| 0 <= a < rest@.len() ==> rest@[a] < n,
                forall|a: int, b: int|
                    0 <= a < rest@.len() && 0 <= b < rest@.len() && a != b ==> rest@[a]
                        != rest@[b],
                forall|a: int| 0 <= a < order@.len() ==> order@[a] < n,
                forall|a: int, b: int|
                    0 <= a < b < order@.len() ==> drawn_before(
                        objs,
                        #[trigger] order@[a] as int,
                        #[trigger] order@[b] as int,
                    ),
                forall|a: int, b: int|
                    0 <= a < order@.len() && 0 <= b < rest@.len() ==> drawn_before(
                        objs,
                        #[trigger] order@[a] as int,
                        #[trigger] rest@[b] as int,
                    ),
            decreases rest@.len(),
        {
            let mut m: usize = 0;
            let mut c: usize = 1;
            proof {
                lemma_lex_irreflexive(objs[rest@[0] as int].0@);
            }
            while c < rest.len()
                invariant
                    objs == self.objects@,
                    n == objs.len(),
                    1 <= c <= rest@.len(),
                    m < c,
                    forall|a: int| 0 <= a < rest@.len() ==> rest@[a] < n,
                    forall|a: int|
                        0 <= a < c ==> !drawn_before(
                            objs,
                            #[trigger] rest@[a] as int,
                            rest@[m as int] as int,
                        ),
                decreases rest@.len() - c,
            {
                let a = rest[c];
                let b = rest[m];
                let name_a = self.objects[a].0.as_str();
                let name_b = self.objects[b].0.as_str();
                let ghost m_old = m;
                if text_lt(name_a, name_b) || (crate::text::text_eq(name_a, name_b) && a < b) {
                    m = c;
                    proof {
                        assert(drawn_before(objs, a as int, b as int));
                        assert forall|x: int| 0 <= x < c + 1 implies !drawn_before(
                            objs,
                            #[trigger] rest@[x] as int,
                            rest@[m as int] as int,
                        ) by {
                            if x < c {
                                if drawn_before(objs, rest@[x] as int, a as int) {
                                    lemma_drawn_before_transitive(
                                        objs,
                                        rest@[x] as int,
                                        a as int,
                                        b as int,
                                    );
                                    assert(!drawn_before(
                                        objs,
                                        rest@[x] as int,
                                        rest@[m_old as int] as int,
                                    ));
                                }
                            } else {
                                lemma_lex_irreflexive(objs[a as int].0@);
                            }
                        }
                    }
                }
                c = c + 1;
            }
            let ghost chosen = rest@[m as int] as int;
            let ghost old_rest = rest@;
            proof {
                assert forall|b: int|
                    0 <= b < old_rest.len() && b != m implies drawn_before(
                    objs,
                    chosen,
                    #[trigger] old_rest[b] as int,
                ) by {
                    assert(!drawn_before(objs, old_rest[b] as int, chosen));
                    assert(old_rest[b] != old_rest[m as int]);
                    if objs[chosen].0@ != objs[old_rest[b] as int].0@ {
                        lemma_lex_total(objs[chosen].0@, objs[old_rest[b] as int].0@);
                    }
                }
            }
            let picked = rest.remove(m);
            order.push(picked);
            proof {
                assert forall|a: int, b: int|
                    0 <= a < rest@.len() && 0 <= b < rest@.len() && a != b implies rest@[a]
                    != rest@[b] by {
                    let a0 = if a < m { a } else { a + 1 };
                    let b0 = if b < m { b } else { b + 1 };
                    assert(rest@[a] == old_rest[a0]);
                    assert(rest@[b] == old_rest[b0]);
                }
                assert forall|a: int, b: int|
                    0 <= a < order@.len() && 0 <= b < rest@.len() implies drawn_before(
                    objs,
                    #[trigger] order@[a] as int,
                    #[trigger] rest@[b] as int,
                ) by {
                    let b0 = if b < m { b } else { b + 1 };
                    assert(rest@[b] == old_rest[b0]);
                }
            }
        }
        order
    }

    /// The group a layer draws in: class `layer`, the layer's name as `data-layer`, and the
    /// given children.
    pub fn group_node(&self, children: Vec<Node>) -> (n: Node)
        ensures
            n matches Node::Element(g) && g.tag@ == seq!['g'] && pairs_view(g.attributes@) == seq![
                (seq!['c', 'l', 'a', 's', 's'], seq!['l', 'a', 'y', 'e', 'r']),
                (seq!['d', 'a', 't', 'a', '-', 'l', 'a', 'y', 'e', 'r'], self.name@),
            ] && g.styles@.len() == 0 && g.children == children,
    {
        proof {
            reveal_strlit("g");
            reveal_strlit("class");
            reveal_strlit("layer");
            reveal_strlit("data-layer");
            assert("g"@ =~= seq!['g']);
            assert("class"@ =~= seq!['c', 'l', 'a', 's', 's']);
            assert("layer"@ =~= seq!['l', 'a', 'y', 'e', 'r']);
            assert("data-layer"@ =~= seq!['d', 'a', 't', 'a', '-', 'l', 'a', 'y', 'e', 'r']);
        }
        let e0 = tag("g");
        let e1 = e0.attr("class", "layer");
        assert(pairs_view(e0.attributes@) =~= Seq::<TextPair>::empty());
        assert(pairs_view(e1.attributes@) =~= seq![
            (seq!['c', 'l', 'a', 's', 's'], seq!['l', 'a', 'y', 'e', 'r']),
        ]);
        let e2 = e1.attr("data-layer", self.name.as_str());
        assert(seq!['c', 'l', 'a', 's', 's'] != seq!['d', 'a', 't', 'a', '-', 'l', 'a', 'y', 'e', 'r'])
            by {
            assert(seq!['c', 'l', 'a', 's', 's'].len() == 5);
        }
        proof {
            let s1 = pairs_view(e1.attributes@);
            assert(s1.drop_last() =~= Seq::<TextPair>::empty());
            assert(s1.last().0 == seq!['c', 'l', 'a', 's', 's']);
            assert(key_index(Seq::<TextPair>::empty(), seq!['d', 'a', 't', 'a', '-', 'l', 'a', 'y', 'e', 'r']) == -1);
            assert(key_index(s1, seq!['d', 'a', 't', 'a', '-', 'l', 'a', 'y', 'e', 'r']) == -1);
        }
        assert(pairs_view(e2.attributes@) =~= seq![
            (seq!['c', 'l', 'a', 's', 's'], seq!['l', 'a', 'y', 'e', 'r']),
            (seq!['d', 'a', 't', 'a', '-', 'l', 'a', 'y', 'e', 'r'], self.name@),
        ]);
        let e = e2.wrapping(children);
        e.node()
    }
}

/// The id of an object of a layer: the layer's id, `--`, the object's name.
pub fn object_id(layer_id: &str, object_name: &str) -> (s: String)
    ensures
        s@ == layer_id@ + seq!['-', '-'] + object_name@,
{
    let mut s = String::new();
    write_str(&mut s, layer_id);
    push_char(&mut s, '-');
    push_char(&mut s, '-');
    write_str(&mut s, object_name);
    assert(s@ =~= layer_id@ + seq!['-', '-'] + object_name@);
    s
}

/// The places of the layers that are drawn, from the bottom one up: the shown layers, last
/// first.
pub open spec fn drawn_layers_of(layers: Seq<Layer>) -> Seq<int>
    decreases layers.len(),
{
    if layers.len() == 0 {
        Seq::empty()
    } else {
        let rest = drawn_layers_of(layers.drop_last());
        if layers.last().hidden {
            rest
        } else {
            seq![layers.len() - 1] + rest
        }
    }
}

/// The text of `-n`: `0` for zero, else `-` and the digits.
pub open spec fn negated_text(n: nat) -> Seq<char> {
    if n == 0 {
        seq!['0']
    } else {
        seq!['-'] + decimal(n)
    }
}

impl Default for Color {
    /// Black.
    fn default() -> (c: Color)
        ensures
            c == Color::Black,
    {
        Color::Black
    }
}

impl Canvas {
    /// The places of the layers to draw, from the bottom one up (see `drawn_layers_of`).
    pub fn drawn_layers(&self) -> (order: Vec<usize>)
        ensures
            order@.map_values(|i: usize| i as int) == drawn_layers_of(self.layers@),
    {
        let ghost all = drawn_layers_of(self.layers@);
        let mut order: Vec<usize> = Vec::new();
        let mut i: usize = self.layers.len();
        assert(self.layers@.subrange(0, i as int) =~= self.layers@);
        while i > 0
            invariant
                i <= self.layers@.len(),
                all == drawn_layers_of(self.layers@),
                order@.map_values(|k: usize| k as int) + drawn_layers_of(
                    self.layers@.subrange(0, i as int),
                ) == all,
            decreases i,
        {
            let ghost before = order@.map_values(|k: usize| k as int);
            proof {
                let prefix = self.layers@.subrange(0, i as int);
                assert(prefix.drop_last() =~= self.layers@.subrange(0, i - 1));
                assert(prefix.last() == self.layers@[i - 1]);
            }
            if !self.layers[i - 1].hidden {
                order.push(i - 1);
                assert(order@.map_values(|k: usize| k as int) =~= before.push(i - 1));
                assert(before.push(i - 1) + drawn_layers_of(self.layers@.subrange(0, i - 1))
                    =~= before + (seq![i - 1] + drawn_layers_of(self.layers@.subrange(0, i - 1))));
            }
            i = i - 1;
        }
        assert(self.layers@.subrange(0, 0) =~= Seq::<Layer>::empty());
        assert(order@.map_values(|k: usize| k as int) + Seq::<int>::empty() =~= order@.map_values(
            |k: usize| k as int,
        ));
        order
    }
}

/// The text of `-n`.
fn negated(n: usize) -> (s: String)
    ensures
        s@ == negated_text(n as nat),
{
    let mut s = String::new();
    if n > 0 {
        push_char(&mut s, '-');
    }
    write_decimal(&mut s, n as u128);
    proof {
        if n == 0 {
            assert(decimal(0) =~= seq!['0']);
        }
    }
    assert(s@ =~= negated_text(n as nat));
    s
}

/// The attribute texts of the canvas's background: from `-padding` on both axes, the
/// canvas's pixel size, filled with the background color (black without one).
pub open spec fn background_attributes(c: Canvas, width: nat, height: nat) -> Seq<TextPair> {
    let pad = negated_text(c.canvas_outter_padding as nat);
    let color = match c.background {
        Some(b) => b,
        None => Color::Black,
    };
    seq![
        (seq!['x'], pad),
        (seq!['y'], pad),
        (seq!['w', 'i', 'd', 't', 'h'], decimal(width)),
        (seq!['h', 'e', 'i', 'g', 'h', 't'], decimal(height)),
        (seq!['f', 'i', 'l', 'l'], color.rendered(c.colormap)),
    ]
}

/// The attribute texts of the document: its namespace, its view box from `-padding` on both
/// axes over the canvas's pixel size, and that size.
pub open spec fn document_attributes(c: Canvas, width: nat, height: nat) -> Seq<TextPair> {
    let pad = negated_text(c.canvas_outter_padding as nat);
    seq![
        ("xmlns"@, "http://www.w3.org/2000/svg"@),
        (
            seq!['v', 'i', 'e', 'w', 'B', 'o', 'x'],
            pad + seq![' '] + pad + seq![' '] + decimal(width) + seq![' '] + decimal(height),
        ),
        (seq!['w', 'i', 'd', 't', 'h'], decimal(width)),
        (seq!['h', 'e', 'i', 'g', 'h', 't'], decimal(height)),
    ]
}

/// `n` is the background rectangle of the canvas (see `background_attributes`).
pub open spec fn is_background(c: Canvas, n: Node, width: nat, height: nat) -> bool {
    match n {
        Node::Element(rect) => {
            &&& rect.tag@ == seq!['r', 'e', 'c', 't']
            &&& pairs_view(rect.attributes@) == background_attributes(c, width, height)
            &&& rect.styles@.len() == 0
            &&& rect.children@.len() == 0
        },
        _ => false,
    }
}

/// `n` is the SVG document of the canvas: an `svg` element (see `document_attributes`) that
/// holds the background, then the layers' nodes, then the definitions.
pub open spec fn is_document(
    c: Canvas,
    n: Node,
    layers: Seq<Node>,
    defs: Node,
    width: nat,
    height: nat,
) -> bool {
    match n {
        Node::Element(svg) => {
            &&& svg.tag@ == seq!['s', 'v', 'g']
            &&& pairs_view(svg.attributes@) == document_attributes(c, width, height)
            &&& svg.styles@.len() == 0
            &&& svg.children@.len() == layers.len() + 2
            &&& is_background(c, svg.children@[0], width, height)
            &&& svg.children@.subrange(1, layers.len() + 1int) == layers
            &&& svg.children@.last() == defs
        },
        _ => false,
    }
}

impl Canvas {
    /// The SVG document of the canvas: a background rectangle (see `background_attributes`),
    /// then the layers' nodes, then the definitions, in an `svg` element (see
    /// `document_attributes`).
    pub fn render_document(&self, layer_nodes: Vec<Node>, defs: Node) -> (n: Node)
        requires
            self.canvas_outter_padding <= i32::MAX,
            self.world_region.end.0 - self.world_region.start.0 < usize::MAX,
            self.world_region.end.1 - self.world_region.start.1 < usize::MAX,
            self.cell_size * self.world_region.spec_width() + 2 * self.canvas_outter_padding
                <= usize::MAX,
            self.cell_size * self.world_region.spec_height() + 2 * self.canvas_outter_padding
                <= usize::MAX,
        ensures
            is_document(
                *self,
                n,
                layer_nodes@,
                defs,
                (self.cell_size * self.world_region.spec_width() + 2
                    * self.canvas_outter_padding) as nat,
                (self.cell_size * self.world_region.spec_height() + 2
                    * self.canvas_outter_padding) as nat,
            ),
    {
        let width = self.width();
        let height = self.height();
        let background_color = match self.background {
            Some(c) => c,
            None => Color::default(),
        };
        let pad = negated(self.canvas_outter_padding);
        let rect_attributes = vec![
            (String::from_str("x"), pad.clone()),
            (String::from_str("y"), pad.clone()),
            (String::from_str("width"), decimal_text(width as u128)),
            (String::from_str("height"), decimal_text(height as u128)),
            (String::from_str("fill"), background_color.render(&self.colormap)),
        ];
        let rect = tag("rect").with_attributes(rect_attributes);
        let mut view_box = pad.clone();
        push_char(&mut view_box, ' ');
        write_str(&mut view_box, pad.as_str());
        push_char(&mut view_box, ' ');
        write_decimal(&mut view_box, width as u128);
        push_char(&mut view_box, ' ');
        write_decimal(&mut view_box, height as u128);
        assert(view_box@ =~= pad@ + seq![' '] + pad@ + seq![' '] + decimal(width as nat) + seq![
            ' ',
        ] + decimal(height as nat));
        let svg_attributes = vec![
            (String::from_str("xmlns"), String::from_str("http://www.w3.org/2000/svg")),
            (String::from_str("viewBox"), view_box),
            (String::from_str("width"), decimal_text(width as u128)),
            (String::from_str("height"), decimal_text(height as u128)),
        ];
        let mut children: Vec<Node> = Vec::new();
        children.push(rect.node());
        let ghost first = children@;
        let mut layers = layer_nodes;
        children.append(&mut layers);
        children.push(defs);
        let svg = tag("svg").with_attributes(svg_attributes).wrapping(children);
        proof {
            reveal_strlit("x");
            reveal_strlit("y");
            reveal_strlit("width");
            reveal_strlit("height");
            reveal_strlit("fill");
            reveal_strlit("rect");
            reveal_strlit("svg");
            reveal_strlit("viewBox");
            assert("x"@ =~= seq!['x']);
            assert("y"@ =~= seq!['y']);
            assert("width"@ =~= seq!['w', 'i', 'd', 't', 'h']);
            assert("height"@ =~= seq!['h', 'e', 'i', 'g', 'h', 't']);
            assert("fill"@ =~= seq!['f', 'i', 'l', 'l']);
            assert("rect"@ =~= seq!['r', 'e', 'c', 't']);
            assert("svg"@ =~= seq!['s', 'v', 'g']);
            assert("viewBox"@ =~= seq!['v', 'i', 'e', 'w', 'B', 'o', 'x']);
            let w = (self.cell_size * self.world_region.spec_width() + 2
                * self.canvas_outter_padding) as nat;
            let h = (self.cell_size * self.world_region.spec_height() + 2
                * self.canvas_outter_padding) as nat;
            assert(pairs_view(rect_attributes@) =~= background_attributes(*self, w, h));
            assert(pairs_view(svg_attributes@) =~= document_attributes(*self, w, h));
            assert(svg.children@.subrange(1, layer_nodes@.len() + 1int) =~= layer_nodes@);
        }
        svg.node()
    }
}

} // verus!
