//! A small SVG document tree and its serialization to text.
use vstd::prelude::*;
use crate::graphics::color::{Color, ColorMapping};
use crate::rendering::pairs::{
    by_key, find_key, keys_distinct, lemma_key_index, lemma_with_pair_distinct, lookup,
    pairs_view, set_pair, sorted_without_key, with_pair, without_key, TextPair,
};
use crate::text::{decimal, decimal_text, push_char, text_eq, write_str};

verus! {

/// A space when `add_space`, else nothing.
pub fn space_if(add_space: bool) -> (s: &'static str)
    ensures
        s@ == (if add_space {
            seq![' ']
        } else {
            Seq::<char>::empty()
        }),
{
    proof {
        reveal_strlit(" ");
        reveal_strlit("");
    }
    if add_space {
        " "
    } else {
        ""
    }
}

/// An SVG element: a tag with attributes, inline styles and children.
/// Attribute keys are distinct, and so are style keys.
#[derive(Debug)]
pub struct Element {
    pub tag: String,
    pub attributes: Vec<(String, String)>,
    pub styles: Vec<(String, String)>,
    pub children: Vec<Node>,
}

/// A node of an SVG document: an element, escaped text, or raw SVG markup.
#[derive(Debug)]
pub enum Node {
    Element(Element),
    Text(String),
    SVG(String),
}

/// The text `style`.
pub open spec fn style_key() -> Seq<char> {
    seq!['s', 't', 'y', 'l', 'e']
}

/// Keys are distinct in an element and, recursively, in its children.
pub open spec fn node_wf(n: Node) -> bool
    decreases n, 1nat,
{
    match n {
        Node::Element(e) => element_wf(e),
        _ => true,
    }
}

/// Keys are distinct in an element and, recursively, in its children.
pub open spec fn element_wf(e: Element) -> bool
    decreases e, 0nat,
{
    &&& keys_distinct(pairs_view(e.attributes@))
    &&& keys_distinct(pairs_view(e.styles@))
    &&& children_wf(e.children@)
}

/// Every node of the list is well formed.
pub open spec fn children_wf(c: Seq<Node>) -> bool
    decreases c, c.len(),
{
    if c.len() == 0 {
        true
    } else {
        children_wf(c.drop_last()) && node_wf(c.last())
    }
}

/// How a character of an attribute value is written: `&`, `"` and `'` become entities.
pub open spec fn attr_escape_char(c: char) -> Seq<char> {
    if c == '&' {
        seq!['&', 'a', 'm', 'p', ';']
    } else if c == '"' {
        seq!['&', 'q', 'u', 'o', 't', ';']
    } else if c == '\'' {
        seq!['&', 'a', 'p', 'o', 's', ';']
    } else {
        seq![c]
    }
}

/// An attribute value with `&`, `"` and `'` replaced by their entities.
pub open spec fn attr_escape(s: Seq<char>) -> Seq<char>
    decreases s.len(),
{
    if s.len() == 0 {
        Seq::<char>::empty()
    } else {
        attr_escape(s.drop_last()) + attr_escape_char(s.last())
    }
}

/// How a character of text content is written: `<`, `>`, `&`, `'`, `"` and carriage
/// return become entities.
pub open spec fn text_escape_char(c: char) -> Seq<char> {
    if c == '<' {
        seq!['&', 'l', 't', ';']
    } else if c == '>' {
        seq!['&', 'g', 't', ';']
    } else if c == '&' {
        seq!['&', 'a', 'm', 'p', ';']
    } else if c == '\'' {
        seq!['&', 'a', 'p', 'o', 's', ';']
    } else if c == '"' {
        seq!['&', 'q', 'u', 'o', 't', ';']
    } else if c == '\r' {
        seq!['&', '#', '1', '3', ';']
    } else {
        seq![c]
    }
}

/// Text content with the XML special characters replaced by entities.
pub open spec fn text_escape(s: Seq<char>) -> Seq<char>
    decreases s.len(),
{
    if s.len() == 0 {
        Seq::<char>::empty()
    } else {
        text_escape(s.drop_last()) + text_escape_char(s.last())
    }
}

/// `quick_xml::escape::escape`: the text with `<`, `>`, `&`, `'`, `"` and carriage return
/// replaced by `&lt;`, `&gt;`, `&amp;`, `&apos;`, `&quot;` and `&#13;`, every other character
/// kept.
#[verifier::external_body]
fn xml_escape(s: &str) -> (r: String)
    ensures
        r@ == text_escape(s@),
{
    quick_xml::escape::escape(s).into_owned()
}

/// One attribute as written in a start tag, preceded by a space unless it is the first.
pub open spec fn render_attribute(p: TextPair, first: bool) -> Seq<char> {
    (if first {
        Seq::<char>::empty()
    } else {
        seq![' ']
    }) + p.0 + seq!['=', '"'] + attr_escape(p.1) + seq!['"']
}

/// Attributes as written in a start tag, in the given order.
pub open spec fn render_attributes(s: Seq<TextPair>) -> Seq<char>
    decreases s.len(),
{
    if s.len() == 0 {
        Seq::<char>::empty()
    } else {
        render_attributes(s.drop_last()) + render_attribute(s.last(), s.len() == 1)
    }
}

/// One inline style as written in a `style` attribute: `key: value;`.
pub open spec fn style_entry(p: TextPair) -> Seq<char> {
    p.0 + seq![':', ' '] + p.1 + seq![';']
}

/// Texts joined by single spaces.
pub open spec fn join_spaced(items: Seq<Seq<char>>) -> Seq<char>
    decreases items.len(),
{
    if items.len() == 0 {
        Seq::<char>::empty()
    } else if items.len() == 1 {
        items[0]
    } else {
        join_spaced(items.drop_last()) + seq![' '] + items.last()
    }
}

/// The parts of an element's `style` attribute: each inline style, then the value of a
/// `style` attribute if the element has one.
pub open spec fn style_items(e: Element) -> Seq<Seq<char>> {
    pairs_view(e.styles@).map_values(|p: TextPair| style_entry(p)) + match lookup(
        pairs_view(e.attributes@),
        style_key(),
    ) {
        Some(v) => seq![v],
        None => Seq::<Seq<char>>::empty(),
    }
}

/// The `style` attribute of an element as written in its start tag, if it has styles.
pub open spec fn render_style(e: Element, after_attributes: bool) -> Seq<char> {
    if lookup(pairs_view(e.attributes@), style_key()) is Some || e.styles@.len() > 0 {
        (if after_attributes {
            seq![' ']
        } else {
            Seq::<char>::empty()
        }) + style_key() + seq!['=', '"'] + join_spaced(style_items(e)) + seq!['"']
    } else {
        Seq::<char>::empty()
    }
}

/// The attributes other than `style`, sorted by key.
pub open spec fn plain_attributes(e: Element) -> Seq<TextPair> {
    by_key(without_key(pairs_view(e.attributes@), style_key()))
}

/// The text of a node: text content is escaped, raw SVG is kept, and an element is
/// `<tag ` then its attributes other than `style` sorted by key, then its `style` attribute,
/// then `/>` and a newline when it has no children, or else `>`, a newline, its children and
/// `</tag>`.
pub open spec fn render_node(n: Node) -> Seq<char>
    decreases n, 1nat,
{
    match n {
        Node::Text(t) => text_escape(t@),
        Node::SVG(s) => s@,
        Node::Element(e) => render_element(e),
    }
}

/// The text of an element (see `render_node`).
pub open spec fn render_element(e: Element) -> Seq<char>
    decreases e, 0nat,
{
    let attrs = plain_attributes(e);
    seq!['<'] + e.tag@ + seq![' '] + render_attributes(attrs) + render_style(e, attrs.len() > 0)
        + if e.children@.len() == 0 {
        seq!['/', '>', '\n']
    } else {
        seq!['>', '\n'] + render_children(e.children@) + seq!['<', '/'] + e.tag@ + seq!['>']
    }
}

/// The texts of a list of nodes, one after the other.
pub open spec fn render_children(c: Seq<Node>) -> Seq<char>
    decreases c, c.len(),
{
    if c.len() == 0 {
        Seq::<char>::empty()
    } else {
        render_children(c.drop_last()) + render_node(c.last())
    }
}

proof fn lemma_children_wf(c: Seq<Node>, i: int)
    requires
        children_wf(c),
        0 <= i < c.len(),
    ensures
        node_wf(c[i]),
    decreases c.len(),
{
    if i < c.len() - 1 {
        lemma_children_wf(c.drop_last(), i);
        assert(c.drop_last()[i] == c[i]);
    }
}

proof fn lemma_children_wf_all(c: Seq<Node>)
    requires
        forall|i: int| 0 <= i < c.len() ==> node_wf(#[trigger] c[i]),
    ensures
        children_wf(c),
    decreases c.len(),
{
    if c.len() > 0 {
        let d = c.drop_last();
        assert forall|i: int| 0 <= i < d.len() implies node_wf(#[trigger] d[i]) by {
            assert(d[i] == c[i]);
        }
        lemma_children_wf_all(d);
    }
}

/// Appends an attribute value with `&`, `"` and `'` replaced by their entities.
fn write_attr_escaped(out: &mut String, s: &str)
    ensures
        final(out)@ == old(out)@ + attr_escape(s@),
{
    let n = s.unicode_len();
    let mut i: usize = 0;
    while i < n
        invariant
            n == s@.len(),
            i <= n,
            out@ == old(out)@ + attr_escape(s@.subrange(0, i as int)),
        decreases n - i,
    {
        let c = s.get_char(i);
        let ghost before = out@;
        if c == '&' {
            push_char(out, '&');
            push_char(out, 'a');
            push_char(out, 'm');
            push_char(out, 'p');
            push_char(out, ';');
        } else if c == '"' {
            push_char(out, '&');
            push_char(out, 'q');
            push_char(out, 'u');
            push_char(out, 'o');
            push_char(out, 't');
            push_char(out, ';');
        } else if c == '\'' {
            push_char(out, '&');
            push_char(out, 'a');
            push_char(out, 'p');
            push_char(out, 'o');
            push_char(out, 's');
            push_char(out, ';');
        } else {
            push_char(out, c);
        }
        assert(out@ =~= before + attr_escape_char(c));
        assert(s@.subrange(0, i + 1).drop_last() =~= s@.subrange(0, i as int));
        i = i + 1;
    }
    assert(s@.subrange(0, n as int) =~= s@);
}

/// Appends `text` given as characters.
fn write_chars(out: &mut String, text: &[char])
    ensures
        final(out)@ == old(out)@ + text@,
{
    let mut i: usize = 0;
    while i < text.len()
        invariant
            i <= text@.len(),
            out@ == old(out)@ + text@.subrange(0, i as int),
        decreases text@.len() - i,
    {
        push_char(out, text[i]);
        assert(text@.subrange(0, i + 1) =~= text@.subrange(0, i as int).push(text@[i as int]));
        i = i + 1;
    }
    assert(text@.subrange(0, text@.len() as int) =~= text@);
}

/// Creates an element with no attributes, styles or children.
pub fn tag(name: &str) -> (e: Element)
    ensures
        e.tag@ == name@,
        e.attributes@.len() == 0,
        e.styles@.len() == 0,
        e.children@.len() == 0,
{
    Element::new(name)
}

impl Element {
    /// This element as a node.
    pub fn node(self) -> (n: Node)
        ensures
            n == Node::Element(self),
    {
        Node::Element(self)
    }

    /// Creates an element with no attributes, styles or children.
    pub fn new(tag: &str) -> (e: Element)
        ensures
            e.tag@ == tag@,
            e.attributes@.len() == 0,
            e.styles@.len() == 0,
            e.children@.len() == 0,
    {
        Element {
            tag: String::from_str(tag),
            attributes: Vec::new(),
            styles: Vec::new(),
            children: Vec::new(),
        }
    }

    /// Sets the attribute `key` to `value`, replacing any previous value.
    pub fn attr(self, key: &str, value: &str) -> (e: Element)
        ensures
            e.tag == self.tag,
            e.styles == self.styles,
            e.children == self.children,
            pairs_view(e.attributes@) == with_pair(pairs_view(self.attributes@), key@, value@),
            element_wf(self) ==> element_wf(e),
    {
        let mut e = self;
        set_pair(&mut e.attributes, key, String::from_str(value));
        proof {
            if element_wf(self) {
                lemma_with_pair_distinct(pairs_view(self.attributes@), key@, value@);
            }
        }
        e
    }

    /// Sets the `fill` attribute to the CSS value of color `c` under `colormap`.
    pub fn fill(self, c: Color, colormap: &ColorMapping) -> (e: Element)
        ensures
            e.tag == self.tag,
            e.styles == self.styles,
            e.children == self.children,
            pairs_view(e.attributes@) == with_pair(
                pairs_view(self.attributes@),
                seq!['f', 'i', 'l', 'l'],
                c.rendered(*colormap),
            ),
            element_wf(self) ==> element_wf(e),
    {
        let value = c.render(colormap);
        proof {
            reveal_strlit("fill");
            assert("fill"@ =~= seq!['f', 'i', 'l', 'l']);
        }
        self.attr("fill", value.as_str())
    }

    /// Sets the `width` and `height` attributes to the decimal texts of `p.0` and `p.1`.
    pub fn dimensions(self, p: (usize, usize)) -> (e: Element)
        ensures
            e.tag == self.tag,
            e.styles == self.styles,
            e.children == self.children,
            pairs_view(e.attributes@) == with_pair(
                with_pair(
                    pairs_view(self.attributes@),
                    seq!['w', 'i', 'd', 't', 'h'],
                    decimal(p.0 as nat),
                ),
                seq!['h', 'e', 'i', 'g', 'h', 't'],
                decimal(p.1 as nat),
            ),
            element_wf(self) ==> element_wf(e),
    {
        let (w, h) = p;
        let ws = decimal_text(w as u128);
        let hs = decimal_text(h as u128);
        proof {
            reveal_strlit("width");
            assert("width"@ =~= seq!['w', 'i', 'd', 't', 'h']);
            reveal_strlit("height");
            assert("height"@ =~= seq!['h', 'e', 'i', 'g', 'h', 't']);
        }
        self.attr("width", ws.as_str()).attr("height", hs.as_str())
    }

    /// Sets the inline style `key` to `value`, replacing any previous value.
    pub fn style(self, key: &str, value: &str) -> (e: Element)
        ensures
            e.tag == self.tag,
            e.attributes == self.attributes,
            e.children == self.children,
            pairs_view(e.styles@) == with_pair(pairs_view(self.styles@), key@, value@),
            element_wf(self) ==> element_wf(e),
    {
        let mut e = self;
        set_pair(&mut e.styles, key, String::from_str(value));
        proof {
            if element_wf(self) {
                lemma_with_pair_distinct(pairs_view(self.styles@), key@, value@);
            }
        }
        e
    }

    /// Sets the attribute `data-` followed by `key` to `value`.
    pub fn dataset(self, key: &str, value: &str) -> (e: Element)
        ensures
            e.tag == self.tag,
            e.styles == self.styles,
            e.children == self.children,
            pairs_view(e.attributes@) == with_pair(
                pairs_view(self.attributes@),
                seq!['d', 'a', 't', 'a', '-'] + key@,
                value@,
            ),
            element_wf(self) ==> element_wf(e),
    {
        let mut name = String::new();
        write_chars(&mut name, &['d', 'a', 't', 'a', '-']);
        write_str(&mut name, key);
        self.attr(name.as_str(), value)
    }

    /// Sets the `class` attribute.
    pub fn class(self, class: &str) -> (e: Element)
        ensures
            e.tag == self.tag,
            e.styles == self.styles,
            e.children == self.children,
            pairs_view(e.attributes@) == with_pair(
                pairs_view(self.attributes@),
                seq!['c', 'l', 'a', 's', 's'],
                class@,
            ),
            element_wf(self) ==> element_wf(e),
    {
        proof {
            reveal_strlit("class");
            assert("class"@ =~= seq!['c', 'l', 'a', 's', 's']);
        }
        self.attr("class", class)
    }

    /// Appends a child node, and gives the element back for further calls.
    pub fn add(&mut self, child: Node) -> (e: &mut Element)
        ensures
            e.tag == old(self).tag,
            e.attributes == old(self).attributes,
            e.styles == old(self).styles,
            e.children@ == old(self).children@.push(child),
            element_wf(*old(self)) && node_wf(child) ==> element_wf(*e),
            *final(self) == *final(e),
    {
        let ghost c0 = self.children@;
        self.children.push(child);
        proof {
            if element_wf(*old(self)) && node_wf(child) {
                assert(self.children@.drop_last() =~= c0);
            }
        }
        self
    }

    /// Replaces all attributes.
    pub fn with_attributes(self, attributes: Vec<(String, String)>) -> (e: Element)
        ensures
            e.tag == self.tag,
            e.styles == self.styles,
            e.children == self.children,
            e.attributes == attributes,
    {
        Element { attributes, ..self }
    }

    /// Replaces all children.
    pub fn wrapping(self, children: Vec<Node>) -> (e: Element)
        ensures
            e.tag == self.tag,
            e.attributes == self.attributes,
            e.styles == self.styles,
            e.children == children,
    {
        Element { children, ..self }
    }

    /// A new element with tag `tag` and attributes `attrs`, no styles, and this element as
    /// its only child.
    pub fn wrap(self, tag: &str, attrs: Vec<(String, String)>) -> (e: Element)
        ensures
            e.tag@ == tag@,
            e.attributes == attrs,
            e.styles@.len() == 0,
            e.children@ == seq![Node::Element(self)],
            element_wf(self) && keys_distinct(pairs_view(attrs@)) ==> element_wf(e),
    {
        let ghost me = self;
        let mut children: Vec<Node> = Vec::new();
        children.push(Node::Element(self));
        let e = Element {
            tag: String::from_str(tag),
            styles: Vec::new(),
            attributes: attrs,
            children,
        };
        proof {
            assert(e.children@ =~= seq![Node::Element(me)]);
            assert(e.children@.drop_last() =~= Seq::<Node>::empty());
            assert(pairs_view(e.styles@) =~= Seq::<TextPair>::empty());
        }
        e
    }
}

proof fn lemma_join_push(items: Seq<Seq<char>>, x: Seq<char>)
    ensures
        join_spaced(items.push(x)) == if items.len() == 0 {
            x
        } else {
            join_spaced(items) + seq![' '] + x
        },
{
    assert(items.push(x).drop_last() =~= items);
    if items.len() == 0 {
        assert(items.push(x)[0] == x);
    }
}

/// Appends the attributes other than `style`, sorted by key, then the `style` attribute.
fn write_attributes(e: &Element, out: &mut String)
    requires
        element_wf(*e),
    ensures
        final(out)@ == old(out)@ + render_attributes(plain_attributes(*e)) + render_style(
            *e,
            plain_attributes(*e).len() > 0,
        ),
{
    let sorted = sorted_without_key(&e.attributes, "style");
    proof {
        reveal_strlit("style");
        assert("style"@ =~= style_key());
    }
    let ghost sv = pairs_view(sorted@);
    let ghost base = out@;
    let mut i: usize = 0;
    while i < sorted.len()
        invariant
            i <= sorted@.len(),
            sv == pairs_view(sorted@),
            out@ == base + render_attributes(sv.take(i as int)),
        decreases sorted@.len() - i,
    {
        let ghost before = out@;
        if i > 0 {
            push_char(out, ' ');
        }
        write_str(out, sorted[i].0.as_str());
        push_char(out, '=');
        push_char(out, '"');
        write_attr_escaped(out, sorted[i].1.as_str());
        push_char(out, '"');
        proof {
            assert(sv.take(i + 1).drop_last() =~= sv.take(i as int));
            assert(sv.take(i + 1).last() == sv[i as int]);
            assert(out@ =~= before + render_attribute(sv[i as int], i == 0));
        }
        i = i + 1;
    }
    proof {
        assert(sv.take(sorted@.len() as int) =~= sv);
    }
    let ghost after_attrs = out@;
    let style_at = find_key(&e.attributes, "style");
    proof {
        lemma_key_index(pairs_view(e.attributes@), style_key());
    }
    if style_at.is_some() || e.styles.len() > 0 {
        if sorted.len() > 0 {
            push_char(out, ' ');
        }
        write_chars(out, &['s', 't', 'y', 'l', 'e', '=', '"']);
        let ghost items = style_items(*e);
        let ghost st = pairs_view(e.styles@);
        let ghost start = out@;
        let mut j: usize = 0;
        while j < e.styles.len()
            invariant
                j <= e.styles@.len(),
                st == pairs_view(e.styles@),
                out@ == start + join_spaced(st.map_values(|p: TextPair| style_entry(p)).take(j as int)),
            decreases e.styles@.len() - j,
        {
            let ghost before = out@;
            let ghost done = st.map_values(|p: TextPair| style_entry(p)).take(j as int);
            if j > 0 {
                push_char(out, ' ');
            }
            write_str(out, e.styles[j].0.as_str());
            push_char(out, ':');
            push_char(out, ' ');
            write_str(out, e.styles[j].1.as_str());
            push_char(out, ';');
            proof {
                let m = st.map_values(|p: TextPair| style_entry(p));
                assert(m.take(j + 1) =~= done.push(style_entry(st[j as int])));
                lemma_join_push(done, style_entry(st[j as int]));
                assert(out@ =~= start + join_spaced(m.take(j + 1)));
            }
            j = j + 1;
        }
        let ghost entries = st.map_values(|p: TextPair| style_entry(p));
        proof {
            assert(entries.take(e.styles@.len() as int) =~= entries);
        }
        match style_at {
            Some(k) => {
                let ghost before = out@;
                if e.styles.len() > 0 {
                    push_char(out, ' ');
                }
                write_str(out, e.attributes[k].1.as_str());
                proof {
                    assert(items =~= entries.push(pairs_view(e.attributes@)[k as int].1));
                    lemma_join_push(entries, pairs_view(e.attributes@)[k as int].1);
                    assert(out@ =~= start + join_spaced(items));
                }
            },
            None => {
                proof {
                    assert(items =~= entries);
                }
            },
        }
        push_char(out, '"');
        proof {
            assert(out@ =~= after_attrs + render_style(*e, plain_attributes(*e).len() > 0));
        }
    } else {
        proof {
            assert(render_style(*e, plain_attributes(*e).len() > 0) =~= Seq::<char>::empty());
        }
    }
    proof {
        assert(out@ =~= base + render_attributes(plain_attributes(*e)) + render_style(
            *e,
            plain_attributes(*e).len() > 0,
        ));
    }
}

/// Appends the text of an element.
#[verifier::rlimit(40)]
fn write_element(e: &Element, out: &mut String)
    requires
        element_wf(*e),
    ensures
        final(out)@ == old(out)@ + render_element(*e),
    decreases *e, 0nat,
{
    let ghost base = out@;
    push_char(out, '<');
    write_str(out, e.tag.as_str());
    push_char(out, ' ');
    write_attributes(e, out);
    let ghost head = out@;
    if e.children.len() == 0 {
        write_chars(out, &['/', '>', '\n']);
    } else {
        push_char(out, '>');
        push_char(out, '\n');
        let ghost start = out@;
        let mut i: usize = 0;
        while i < e.children.len()
            invariant
                i <= e.children@.len(),
                element_wf(*e),
                out@ == start + render_children(e.children@.take(i as int)),
            decreases e.children@.len() - i,
        {
            proof {
                lemma_children_wf(e.children@, i as int);
                assert(decreases_to!(*e => e.children));
                assert(decreases_to!(e.children => e.children@));
                assert(decreases_to!(e.children@ => e.children@[i as int]));
            }
            let ghost before = out@;
            write_node(&e.children[i], out);
            proof {
                assert(e.children@.take(i + 1).drop_last() =~= e.children@.take(i as int));
                assert(out@ =~= start + render_children(e.children@.take(i + 1)));
            }
            i = i + 1;
        }
        proof {
            assert(e.children@.take(e.children@.len() as int) =~= e.children@);
        }
        push_char(out, '<');
        push_char(out, '/');
        write_str(out, e.tag.as_str());
        push_char(out, '>');
    }
    proof {
        assert(out@ =~= base + render_element(*e));
    }
}

/// Appends the text of a node.
fn write_node(n: &Node, out: &mut String)
    requires
        node_wf(*n),
    ensures
        final(out)@ == old(out)@ + render_node(*n),
    decreases *n, 1nat,
{
    match n {
        Node::Text(t) => {
            let escaped = xml_escape(t.as_str());
            write_str(out, escaped.as_str());
        },
        Node::SVG(s) => {
            write_str(out, s.as_str());
        },
        Node::Element(e) => {
            write_element(e, out);
        },
    }
}

impl Node {
    /// The SVG text of this node (see `render_node`).
    pub fn to_string(&self) -> (s: String)
        requires
            node_wf(*self),
        ensures
            s@ == render_node(*self),
    {
        let mut s = String::new();
        write_node(self, &mut s);
        assert(s@ =~= render_node(*self));
        s
    }
}

/// Whether no two pairs of the list share a key.
pub fn keys_are_distinct(v: &Vec<(String, String)>) -> (b: bool)
    ensures
        b == keys_distinct(pairs_view(v@)),
{
    let ghost s = pairs_view(v@);
    let mut i: usize = 0;
    while i < v.len()
        invariant
            i <= v@.len(),
            s == pairs_view(v@),
            forall|a: int, c: int| 0 <= a < i && 0 <= c < i && a != c ==> s[a].0 != s[c].0,
        decreases v@.len() - i,
    {
        let mut j: usize = 0;
        while j < i
            invariant
                j <= i < v@.len(),
                s == pairs_view(v@),
                forall|a: int, c: int| 0 <= a < i && 0 <= c < i && a != c ==> s[a].0 != s[c].0,
                forall|c: int| 0 <= c < j ==> s[c].0 != s[i as int].0,
            decreases i - j,
        {
            if text_eq(v[j].0.as_str(), v[i].0.as_str()) {
                assert(s[j as int].0 == s[i as int].0);
                return false;
            }
            j = j + 1;
        }
        i = i + 1;
    }
    true
}

/// Whether the node is well formed (see `node_wf`): keys distinct in every element.
pub fn node_is_wf(n: &Node) -> (b: bool)
    ensures
        b == node_wf(*n),
    decreases *n, 1nat,
{
    match n {
        Node::Element(e) => element_is_wf(e),
        _ => true,
    }
}

/// Whether the element is well formed (see `element_wf`).
pub fn element_is_wf(e: &Element) -> (b: bool)
    ensures
        b == element_wf(*e),
    decreases *e, 0nat,
{
    if !keys_are_distinct(&e.attributes) || !keys_are_distinct(&e.styles) {
        return false;
    }
    let ghost c = e.children@;
    let mut i: usize = 0;
    assert(c.take(0) =~= Seq::<Node>::empty());
    while i < e.children.len()
        invariant
            i <= c.len(),
            c == e.children@,
            children_wf(c.take(i as int)),
        decreases c.len() - i,
    {
        assert(c.take(i + 1).drop_last() =~= c.take(i as int));
        assert(decreases_to!(*e => e.children));
        assert(decreases_to!(e.children => e.children@));
        if !node_is_wf(&e.children[i]) {
            proof {
                lemma_children_wf_each(c, i as int);
            }
            return false;
        }
        i = i + 1;
    }
    assert(c.take(c.len() as int) =~= c);
    true
}

/// In a well-formed list, every node is well formed.
proof fn lemma_children_wf_each(c: Seq<Node>, i: int)
    requires
        0 <= i < c.len(),
    ensures
        children_wf(c) ==> node_wf(c[i]),
    decreases c.len(),
{
    if i < c.len() - 1 {
        lemma_children_wf_each(c.drop_last(), i);
        assert(c.drop_last()[i] == c[i]);
    }
}

} // verus!
