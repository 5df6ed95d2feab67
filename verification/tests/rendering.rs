use shapemaker::graphics::{Color, ColorMapping};
use shapemaker::rendering::pairs::merge_attribute_maps;
use shapemaker::rendering::svg::{node_is_wf, space_if, tag, Element, Node};

#[test]
fn attributes_are_sorted_and_escaped() {
    let e = tag("rect").attr("width", "3").attr("data-x", "a&b\"c'");
    assert_eq!(
        e.node().to_string(),
        "<rect data-x=\"a&amp;b&quot;c&apos;\" width=\"3\"/>\n"
    );
}

#[test]
fn later_attribute_replaces_earlier() {
    let e = tag("g").attr("x", "1").attr("x", "2");
    assert_eq!(e.node().to_string(), "<g x=\"2\"/>\n");
}

#[test]
fn text_is_escaped_as_xml() {
    let e = tag("text").wrapping(vec![Node::Text("1 < 2 & 'a' > \"b\"".to_string())]);
    assert_eq!(
        e.node().to_string(),
        "<text >\n1 &lt; 2 &amp; &apos;a&apos; &gt; &quot;b&quot;</text>"
    );
}

#[test]
fn styles_come_after_attributes() {
    let e = tag("circle").attr("r", "2").style("fill", "red");
    assert_eq!(e.node().to_string(), "<circle r=\"2\" style=\"fill: red;\"/>\n");
    let only_style = tag("circle").style("fill", "red");
    assert_eq!(only_style.node().to_string(), "<circle style=\"fill: red;\"/>\n");
}

#[test]
fn fill_uses_the_colormap() {
    let e = Element::new("path").fill(Color::Cyan, &ColorMapping::default());
    assert_eq!(e.node().to_string(), "<path fill=\"cyan\"/>\n");
}

#[test]
fn wrap_nests_the_element() {
    let inner = tag("a");
    let outer = inner.wrap("g", vec![("id".to_string(), "x".to_string())]);
    assert_eq!(outer.node().to_string(), "<g id=\"x\">\n<a />\n</g>");
}

#[test]
fn space_only_when_asked() {
    assert_eq!(space_if(true), " ");
    assert_eq!(space_if(false), "");
}

fn pair(k: &str, v: &str) -> (String, String) {
    (k.to_string(), v.to_string())
}

#[test]
fn merged_attributes_join_values_of_shared_keys() {
    let maps = vec![
        vec![pair("transform", "rotate(45)")],
        vec![pair("transform", "scale(2  2)"), pair("opacity", "1")],
        vec![pair("transform", "skewX(1) skewY(2)")],
    ];
    assert_eq!(
        merge_attribute_maps(&maps, " "),
        vec![
            pair("transform", "rotate(45) scale(2  2) skewX(1) skewY(2)"),
            pair("opacity", "1"),
        ]
    );
    assert_eq!(
        merge_attribute_maps(&maps, ", "),
        vec![
            pair("transform", "rotate(45), scale(2  2), skewX(1) skewY(2)"),
            pair("opacity", "1"),
        ]
    );
}

#[test]
fn merging_no_attribute_maps_gives_none() {
    assert_eq!(merge_attribute_maps(&vec![], " "), vec![]);
    assert_eq!(merge_attribute_maps(&vec![vec![], vec![]], ", "), vec![]);
}

#[test]
fn well_formedness_checks_keys_throughout() {
    let good = tag("g").attr("x", "1").attr("y", "2").wrapping(vec![tag("rect").node()]).node();
    assert!(node_is_wf(&good));
    let twice = Element {
        tag: "rect".to_string(),
        attributes: vec![pair("x", "1"), pair("x", "2")],
        styles: vec![],
        children: vec![],
    };
    assert!(!node_is_wf(&twice.node()));
    let nested = Element {
        tag: "g".to_string(),
        attributes: vec![],
        styles: vec![],
        children: vec![Node::Text("t".to_string()), Element {
            tag: "rect".to_string(),
            attributes: vec![],
            styles: vec![pair("fill", "red"), pair("fill", "blue")],
            children: vec![],
        }
        .node()],
    };
    assert!(!node_is_wf(&nested.node()));
}
