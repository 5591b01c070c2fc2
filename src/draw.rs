use vstd::prelude::*;
use vstd::string::StringExecFns;
use svg::node::element::Element;
use crate::layout::bounded;
use crate::model::{SasDigraph, SasDigraphVertex, SasGeometry};
use crate::record::props_view;
use crate::scene::{Scene, Segment};

verus! {

#[verifier::external_type_specification]
#[verifier::external_body]
pub struct ExElement(svg::node::element::Element);

#[verifier::external_type_specification]
#[verifier::external_body]
pub struct ExTextNode(svg::node::Text);

#[verifier::external_type_specification]
#[verifier::external_body]
pub struct ExBlob(svg::node::Blob);

/// The lowercase hexadecimal digit of `d` (below 16).
pub open spec fn hex_char(d: nat) -> char {
    if d < 10 {
        (('0' as nat) + d) as char
    } else {
        (('a' as nat) + d - 10) as char
    }
}

/// `n` in lowercase hexadecimal, without prefix or leading zeros.
pub open spec fn hex_text(n: nat) -> Seq<char>
    decreases n,
{
    if n < 16 {
        seq![hex_char(n)]
    } else {
        hex_text(n / 16).push(hex_char(n % 16))
    }
}

/// Relies on std's `{:x}` formatting of u64: lowercase hexadecimal digits,
/// no prefix, no leading zeros.
#[verifier::external_body]
fn to_hex(n: u64) -> (r: String)
    ensures
        r@ == hex_text(n as nat),
{
    format!("{:x}", n)
}

/// `n` in decimal, without leading zeros.
pub open spec fn decimal_text(n: nat) -> Seq<char>
    decreases n,
{
    if n < 10 {
        seq![(('0' as nat) + n) as char]
    } else {
        decimal_text(n / 10).push((('0' as nat) + n % 10) as char)
    }
}

/// Relies on std's `{}` formatting of u32: decimal digits, no leading zeros.
#[verifier::external_body]
fn decimal(n: u32) -> (r: String)
    ensures
        r@ == decimal_text(n as nat),
{
    format!("{}", n)
}

/// Relies on svg::node::element::Element::new: an element with the given tag.
#[verifier::external_body]
fn element(tag: &str) -> Element {
    Element::new(tag)
}

/// Relies on svg::Node::assign (for Element): sets an attribute to a text.
#[verifier::external_body]
fn set_text(e: &mut Element, name: &str, value: &str) {
    svg::Node::assign(e, name, value)
}

/// Relies on svg::Node::append (for Element): adds a child element last.
#[verifier::external_body]
fn add_element(e: &mut Element, child: Element) {
    svg::Node::append(e, child)
}

/// Relies on svg::node::Text::new: a text node, escaped when written out.
#[verifier::external_body]
fn text_node(content: &str) -> svg::node::Text {
    svg::node::Text::new(content)
}

/// Relies on svg::Node::append (for Element): adds a text node last.
#[verifier::external_body]
fn add_text(e: &mut Element, child: svg::node::Text) {
    svg::Node::append(e, child)
}

/// Relies on svg::node::Blob::new: content written out as it stands.
#[verifier::external_body]
fn blob_node(content: &str) -> svg::node::Blob {
    svg::node::Blob::new(content)
}

/// Relies on svg::Node::append (for Element): adds a blob node last.
#[verifier::external_body]
fn add_blob(e: &mut Element, child: svg::node::Blob) {
    svg::Node::append(e, child)
}

/// Relies on the Display impl of svg's Element: the element as markup.
#[verifier::external_body]
fn markup(e: &Element) -> String {
    e.to_string()
}


/// An attribute: its name and its value as text.
#[derive(Debug, Clone)]
pub struct Attr {
    pub name: String,
    pub value: String,
}

/// An element without child elements: a tag, attributes in order and
/// optional text content.
#[derive(Debug, Clone)]
pub struct Shape {
    pub tag: String,
    pub attrs: Vec<Attr>,
    pub text: Option<String>,
}

/// The group that draws one box: its attributes and its shapes.
#[derive(Debug, Clone)]
pub struct VertexGroup {
    pub attrs: Vec<Attr>,
    pub shapes: Vec<Shape>,
}

/// An svg document: the root's attributes, the page script, the details
/// panel, the hidden element with the host facts, the box groups, then the
/// lines of the connectors.
#[derive(Debug, Clone)]
pub struct SvgDoc {
    pub attrs: Vec<Attr>,
    pub script: String,
    pub panel: String,
    pub hostinfo: Shape,
    pub groups: Vec<VertexGroup>,
    pub lines: Vec<Shape>,
}

/// The svg namespace.
pub const XMLNS: &'static str = "http://www.w3.org/2000/svg";

/// The font of the labels.
pub const FONT: &'static str = "Courier New, Courier, monospace";

pub open spec fn attrs_view(a: Seq<Attr>) -> Seq<(Seq<char>, Seq<char>)> {
    a.map_values(|x: Attr| (x.name@, x.value@))
}

pub open spec fn text_view(o: Option<String>) -> Option<Seq<char>> {
    match o {
        Some(s) => Some(s@),
        None => None,
    }
}

/// A shape as tag, attributes and text.
pub open spec fn shape_view(s: Shape) -> (Seq<char>, Seq<(Seq<char>, Seq<char>)>, Option<Seq<char>>) {
    (s.tag@, attrs_view(s.attrs@), text_view(s.text))
}

pub open spec fn num(n: u32) -> Seq<char> {
    decimal_text(n as nat)
}

/// The box of a vertex.
pub open spec fn rect_view(g: SasGeometry) -> (Seq<char>, Seq<(Seq<char>, Seq<char>)>, Option<Seq<char>>) {
    (
        "rect"@,
        seq![("x"@, num(g.x)), ("y"@, num(g.y)), ("width"@, num(g.width)), ("height"@, num(g.height)),
            ("fill"@, "white"@), ("stroke"@, "black"@), ("stroke-width"@, "3"@)],
        None,
    )
}

/// A text label at (x, y).
pub open spec fn label_view(x: u32, y: u32, content: Seq<char>) -> (Seq<char>, Seq<(Seq<char>, Seq<char>)>, Option<Seq<char>>) {
    ("text"@, seq![("x"@, num(x)), ("y"@, num(y)), ("font-family"@, FONT@)], Some(content))
}

/// A line of a connector.
pub open spec fn line_view(s: Segment) -> (Seq<char>, Seq<(Seq<char>, Seq<char>)>, Option<Seq<char>>) {
    (
        "line"@,
        seq![("x1"@, num(s.x1)), ("y1"@, num(s.y1)), ("x2"@, num(s.x2)), ("y2"@, num(s.y2)),
            ("stroke"@, "black"@), ("stroke-width"@, "2"@)],
        None,
    )
}

/// The hidden element that carries the host facts.
pub open spec fn hostinfo_view(g: &SasDigraph) -> (Seq<char>, Seq<(Seq<char>, Seq<char>)>, Option<Seq<char>>) {
    (
        "rect"@,
        seq![("x"@, num(1)), ("y"@, num(1)), ("width"@, num(1)), ("height"@, num(1)),
            ("visibility"@, "hidden"@), ("id"@, "hostprops"@), ("nodename"@, g.nodename@),
            ("os-version"@, g.os_version@), ("timestamp"@, g.timestamp@)],
        None,
    )
}

pub open spec fn group_view(gr: VertexGroup) -> (Seq<(Seq<char>, Seq<char>)>, Seq<(Seq<char>, Seq<(Seq<char>, Seq<char>)>, Option<Seq<char>>)>) {
    (attrs_view(gr.attrs@), gr.shapes@.map_values(|s: Shape| shape_view(s)))
}

/// The group of vertex `v` drawn at `geo`: the click handler, the name, the
/// identifier and each property as attributes; the box, the name label and
/// the instance label in hexadecimal.
pub open spec fn box_group(v: SasDigraphVertex, geo: SasGeometry) -> (Seq<(Seq<char>, Seq<char>)>, Seq<(Seq<char>, Seq<(Seq<char>, Seq<char>)>, Option<Seq<char>>)>) {
    (
        seq![("onclick"@, "showInfo(evt)"@), ("name"@, v.name@), ("fmri"@, v.fmri@)] + props_view(v.properties@),
        seq![rect_view(geo), label_view((geo.x + 10) as u32, (geo.y + 20) as u32, v.name@),
            label_view((geo.x + 10) as u32, (geo.y + 50) as u32, hex_text(v.instance as nat))],
    )
}

/// The view box "0 0 W H".
pub open spec fn view_box(w: u32, h: u32) -> Seq<char> {
    "0 0 "@ + num(w) + " "@ + num(h)
}

/// `d` draws `scene` of graph `g`.
pub open spec fn document_of(g: &SasDigraph, scene: &Scene, script: Seq<char>, panel: Seq<char>, d: &SvgDoc) -> bool {
    &&& attrs_view(d.attrs@) == seq![("xmlns"@, XMLNS@), ("overflow"@, "scroll"@), ("viewBox"@, view_box(scene.width, scene.height))]
    &&& d.script@ == script
    &&& d.panel@ == panel
    &&& shape_view(d.hostinfo) == hostinfo_view(g)
    &&& d.groups@.len() == scene.boxes@.len()
    &&& forall|k: int| 0 <= k < scene.boxes@.len() ==> group_view(#[trigger] d.groups@[k]) == box_group(
        g.vertices@[scene.boxes@[k].vertex as int],
        scene.boxes@[k].geometry,
    )
    &&& d.lines@.len() == 3 * scene.connectors@.len()
    &&& forall|k: int| 0 <= k < scene.connectors@.len() ==> {
        &&& shape_view(d.lines@[3 * k]) == line_view((#[trigger] scene.connectors@[k]).stub)
        &&& shape_view(d.lines@[3 * k + 1]) == line_view(scene.connectors@[k].run)
        &&& shape_view(d.lines@[3 * k + 2]) == line_view(scene.connectors@[k].entry)
    }
}

fn attr(name: &str, value: String) -> (a: Attr)
    ensures
        a.name@ == name@,
        a.value == value,
{
    Attr { name: String::from_str(name), value }
}

fn num_attr(name: &str, n: u32) -> (a: Attr)
    ensures
        a.name@ == name@,
        a.value@ == num(n),
{
    Attr { name: String::from_str(name), value: decimal(n) }
}

fn text_attr(name: &str, value: &str) -> (a: Attr)
    ensures
        a.name@ == name@,
        a.value@ == value@,
{
    Attr { name: String::from_str(name), value: String::from_str(value) }
}

fn rect_shape(g: SasGeometry) -> (s: Shape)
    ensures
        shape_view(s) == rect_view(g),
{
    let mut a: Vec<Attr> = Vec::new();
    a.push(num_attr("x", g.x));
    a.push(num_attr("y", g.y));
    a.push(num_attr("width", g.width));
    a.push(num_attr("height", g.height));
    a.push(text_attr("fill", "white"));
    a.push(text_attr("stroke", "black"));
    a.push(text_attr("stroke-width", "3"));
    let s = Shape { tag: String::from_str("rect"), attrs: a, text: None };
    proof {
        assert(attrs_view(s.attrs@) =~= rect_view(g).1);
    }
    s
}

fn label_shape(x: u32, y: u32, content: String) -> (s: Shape)
    ensures
        shape_view(s) == label_view(x, y, content@),
{
    let mut a: Vec<Attr> = Vec::new();
    a.push(num_attr("x", x));
    a.push(num_attr("y", y));
    a.push(text_attr("font-family", FONT));
    let s = Shape { tag: String::from_str("text"), attrs: a, text: Some(content) };
    proof {
        assert(attrs_view(s.attrs@) =~= label_view(x, y, content@).1);
    }
    s
}

fn line_shape(seg: Segment) -> (s: Shape)
    ensures
        shape_view(s) == line_view(seg),
{
    let mut a: Vec<Attr> = Vec::new();
    a.push(num_attr("x1", seg.x1));
    a.push(num_attr("y1", seg.y1));
    a.push(num_attr("x2", seg.x2));
    a.push(num_attr("y2", seg.y2));
    a.push(text_attr("stroke", "black"));
    a.push(text_attr("stroke-width", "2"));
    let s = Shape { tag: String::from_str("line"), attrs: a, text: None };
    proof {
        assert(attrs_view(s.attrs@) =~= line_view(seg).1);
    }
    s
}

fn hostinfo_shape(g: &SasDigraph) -> (s: Shape)
    ensures
        shape_view(s) == hostinfo_view(g),
{
    let mut a: Vec<Attr> = Vec::new();
    a.push(num_attr("x", 1));
    a.push(num_attr("y", 1));
    a.push(num_attr("width", 1));
    a.push(num_attr("height", 1));
    a.push(text_attr("visibility", "hidden"));
    a.push(text_attr("id", "hostprops"));
    a.push(text_attr("nodename", g.nodename.as_str()));
    a.push(text_attr("os-version", g.os_version.as_str()));
    a.push(text_attr("timestamp", g.timestamp.as_str()));
    let s = Shape { tag: String::from_str("rect"), attrs: a, text: None };
    proof {
        assert(attrs_view(s.attrs@) =~= hostinfo_view(g).1);
    }
    s
}

fn vertex_group(v: &SasDigraphVertex, geo: SasGeometry) -> (gr: VertexGroup)
    requires
        bounded(geo),
    ensures
        group_view(gr) == box_group(*v, geo),
{
    let mut a: Vec<Attr> = Vec::new();
    a.push(text_attr("onclick", "showInfo(evt)"));
    a.push(text_attr("name", v.name.as_str()));
    a.push(text_attr("fmri", v.fmri.as_str()));
    let ghost head = attrs_view(a@);
    proof {
        assert(head =~= seq![("onclick"@, "showInfo(evt)"@), ("name"@, v.name@), ("fmri"@, v.fmri@)]);
    }
    let mut p: usize = 0;
    while p < v.properties.len()
        invariant
            p <= v.properties@.len(),
            attrs_view(a@) == head + props_view(v.properties@.subrange(0, p as int)),
        decreases v.properties@.len() - p,
    {
        let prop = &v.properties[p];
        let ghost before = a@;
        let at = attr(prop.name.as_str(), prop.value.clone());
        a.push(at);
        proof {
            assert(v.properties@.subrange(0, p + 1) =~= v.properties@.subrange(0, p as int).push(*prop));
            assert(props_view(v.properties@.subrange(0, p + 1)) =~= props_view(v.properties@.subrange(0, p as int)).push((prop.name@, prop.value@)));
            assert(a@ == before.push(at));
            assert(attrs_view(a@) =~= attrs_view(before).push((at.name@, at.value@)));
            assert(attrs_view(a@) =~= head + props_view(v.properties@.subrange(0, p + 1)));
        }
        p = p + 1;
    }
    proof {
        assert(v.properties@.subrange(0, v.properties@.len() as int) =~= v.properties@);
    }
    let mut shapes: Vec<Shape> = Vec::new();
    shapes.push(rect_shape(geo));
    shapes.push(label_shape(geo.x + 10, geo.y + 20, v.name.clone()));
    shapes.push(label_shape(geo.x + 10, geo.y + 50, to_hex(v.instance)));
    let gr = VertexGroup { attrs: a, shapes };
    proof {
        assert(gr.shapes@.map_values(|s: Shape| shape_view(s)) =~= box_group(*v, geo).1);
    }
    gr
}

/// The svg document that draws a scene of graph `g`, with `script` as the
/// page's script and `panel` as the markup of the details panel.
pub fn scene_svg(g: &SasDigraph, scene: &Scene, script: &str, panel: &str) -> (d: SvgDoc)
    requires
        forall|k: int|
            0 <= k < scene.boxes@.len() ==> #[trigger] scene.boxes@[k].vertex < g.vertices@.len(),
        forall|k: int|
            0 <= k < scene.boxes@.len() ==> bounded(#[trigger] scene.boxes@[k].geometry),
    ensures
        document_of(g, scene, script@, panel@, &d),
{
    let mut viewbox = String::from_str("0 0 ");
    viewbox.append(decimal(scene.width).as_str());
    viewbox.append(" ");
    viewbox.append(decimal(scene.height).as_str());
    let mut attrs: Vec<Attr> = Vec::new();
    attrs.push(text_attr("xmlns", XMLNS));
    attrs.push(text_attr("overflow", "scroll"));
    attrs.push(attr("viewBox", viewbox));
    proof {
        assert(attrs_view(attrs@) =~= seq![("xmlns"@, XMLNS@), ("overflow"@, "scroll"@), ("viewBox"@, view_box(scene.width, scene.height))]);
    }
    let mut groups: Vec<VertexGroup> = Vec::new();
    let mut k: usize = 0;
    while k < scene.boxes.len()
        invariant
            k <= scene.boxes@.len(),
            forall|j: int|
                0 <= j < scene.boxes@.len() ==> #[trigger] scene.boxes@[j].vertex < g.vertices@.len(),
            forall|j: int|
                0 <= j < scene.boxes@.len() ==> bounded(#[trigger] scene.boxes@[j].geometry),
            groups@.len() == k,
            forall|j: int| 0 <= j < k ==> group_view(#[trigger] groups@[j]) == box_group(
                g.vertices@[scene.boxes@[j].vertex as int],
                scene.boxes@[j].geometry,
            ),
        decreases scene.boxes@.len() - k,
    {
        let b = scene.boxes[k];
        proof {
            assert(bounded(scene.boxes@[k as int].geometry));
            assert(scene.boxes@[k as int].vertex < g.vertices@.len());
        }
        groups.push(vertex_group(&g.vertices[b.vertex], b.geometry));
        k = k + 1;
    }
    let mut lines: Vec<Shape> = Vec::new();
    let mut k: usize = 0;
    while k < scene.connectors.len()
        invariant
            k <= scene.connectors@.len(),
            lines@.len() == 3 * k,
            forall|j: int| 0 <= j < k ==> {
                &&& shape_view(lines@[3 * j]) == line_view((#[trigger] scene.connectors@[j]).stub)
                &&& shape_view(lines@[3 * j + 1]) == line_view(scene.connectors@[j].run)
                &&& shape_view(lines@[3 * j + 2]) == line_view(scene.connectors@[j].entry)
            },
        decreases scene.connectors@.len() - k,
    {
        let c = scene.connectors[k];
        lines.push(line_shape(c.stub));
        lines.push(line_shape(c.run));
        lines.push(line_shape(c.entry));
        proof {
            assert forall|j: int| 0 <= j < k + 1 implies {
                &&& shape_view(lines@[3 * j]) == line_view((#[trigger] scene.connectors@[j]).stub)
                &&& shape_view(lines@[3 * j + 1]) == line_view(scene.connectors@[j].run)
                &&& shape_view(lines@[3 * j + 2]) == line_view(scene.connectors@[j].entry)
            } by {
                if j == k {
                    assert(scene.connectors@[j] == c);
                }
            }
        }
        k = k + 1;
    }
    SvgDoc {
        attrs,
        script: String::from_str(script),
        panel: String::from_str(panel),
        hostinfo: hostinfo_shape(g),
        groups,
        lines,
    }
}

fn set_attrs(e: &mut Element, attrs: &Vec<Attr>) {
    let mut i: usize = 0;
    while i < attrs.len()
        decreases attrs@.len() - i,
    {
        set_text(e, attrs[i].name.as_str(), attrs[i].value.as_str());
        i = i + 1;
    }
}

fn shape_element(s: &Shape) -> Element {
    let mut e = element(s.tag.as_str());
    set_attrs(&mut e, &s.attrs);
    match s.text.as_ref() {
        Some(t) => add_text(&mut e, text_node(t.as_str())),
        None => {},
    }
    e
}

/// Writes the document as svg markup: the root with its attributes, a
/// script element, a foreign object holding the panel, the host element,
/// a `g` for each group, then the lines.
pub fn svg_markup(d: &SvgDoc) -> String {
    let mut doc = element("svg");
    set_attrs(&mut doc, &d.attrs);
    let mut script = element("script");
    set_text(&mut script, "type", "application/ecmascript");
    add_blob(&mut script, blob_node(d.script.as_str()));
    add_element(&mut doc, script);
    let mut foreign = element("foreignObject");
    set_text(&mut foreign, "x", "10");
    set_text(&mut foreign, "y", "10");
    set_text(&mut foreign, "height", "700");
    set_text(&mut foreign, "width", "900");
    add_blob(&mut foreign, blob_node(d.panel.as_str()));
    add_element(&mut doc, foreign);
    add_element(&mut doc, shape_element(&d.hostinfo));
    let mut k: usize = 0;
    while k < d.groups.len()
        decreases d.groups@.len() - k,
    {
        let gr = &d.groups[k];
        let mut e = element("g");
        set_attrs(&mut e, &gr.attrs);
        let mut j: usize = 0;
        while j < gr.shapes.len()
            decreases gr.shapes@.len() - j,
        {
            add_element(&mut e, shape_element(&gr.shapes[j]));
            j = j + 1;
        }
        add_element(&mut doc, e);
        k = k + 1;
    }
    let mut k: usize = 0;
    while k < d.lines.len()
        decreases d.lines@.len() - k,
    {
        add_element(&mut doc, shape_element(&d.lines[k]));
        k = k + 1;
    }
    markup(&doc)
}

} // verus!
