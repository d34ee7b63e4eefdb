//! Anchored drawing shapes for lines, rectangles, and curves.

use vstd::prelude::*;

use crate::paint;
use crate::paint::Paint;
use crate::xml;
use crate::xml::{int_string, solid_fill, Anchor, Ctx, Node, Rgba, Xml, NS_WPS};
use crate::{only_warned, push_if, with_warnings, with_warnings_concat, with_warnings_push, Exporter};

verus! {

broadcast use vstd::seq::group_seq_axioms;

/// How the ends of a stroke look.
#[derive(Clone, Copy, PartialEq, Eq, Debug)]
pub enum LineCap {
    Butt,
    Round,
    Square,
}

/// How the corners of a stroke look.
#[derive(Clone, Copy, PartialEq, Eq, Debug)]
pub enum LineJoin {
    /// A miter join with its limit in 100000ths.
    Miter(i64),
    Round,
    Bevel,
}

/// A dash pattern.
pub struct Dash {
    /// The dash and gap lengths, each in thousandths of a percent of the
    /// line width.
    pub lengths: Vec<i64>,
    /// Whether the pattern has a non-zero phase.
    pub phase_set: bool,
}

/// A stroke.
pub struct Stroke {
    /// The line width in EMU.
    pub width: i64,
    pub cap: LineCap,
    pub paint: Paint,
    /// The dash pattern, for a line of positive width.
    pub dash: Option<Dash>,
    pub join: LineJoin,
}

/// One command of a curve, with points in EMU relative to the shape box.
#[derive(Clone, Copy, PartialEq, Eq, Debug)]
pub enum CurveItem {
    Move(i64, i64),
    Line(i64, i64),
    /// Two control points, then the end point.
    Cubic(i64, i64, i64, i64, i64, i64),
    Close,
}

/// The outline of a shape. Points are in EMU relative to the shape box.
pub enum Geometry {
    Rect,
    Line { from: (i64, i64), to: (i64, i64) },
    /// A curve; `origin` is where a subpath that does not begin with a move
    /// starts.
    Curve { origin: (i64, i64), items: Vec<CurveItem> },
}

/// A shape placed on the page.
pub struct ShapeSpec {
    /// Page offset of the box in EMU.
    pub x: i64,
    pub y: i64,
    /// Box extent in EMU.
    pub cx: i64,
    pub cy: i64,
    /// Rotation in 60000ths of a degree, if any.
    pub rot: Option<i64>,
    /// Whether the transform was a skew or non-uniform scale, of which only
    /// the translation was kept.
    pub skewed: bool,
    pub geometry: Geometry,
    pub fill: Option<Paint>,
    /// Whether the fill rule is even-odd.
    pub even_odd: bool,
    pub stroke: Option<Stroke>,
}

pub open spec fn pt_node(p: (i64, i64)) -> Node {
    xml::el("a:pt"@, seq![xml::ai("x"@, p.0 as int), xml::ai("y"@, p.1 as int)], seq![])
}

pub open spec fn move_node(p: (i64, i64)) -> Node {
    xml::el("a:moveTo"@, seq![], seq![pt_node(p)])
}

pub open spec fn lnto_node(p: (i64, i64)) -> Node {
    xml::el("a:lnTo"@, seq![], seq![pt_node(p)])
}

pub open spec fn cubic_node(c1: (i64, i64), c2: (i64, i64), p: (i64, i64)) -> Node {
    xml::el("a:cubicBezTo"@, seq![], seq![pt_node(c1), pt_node(c2), pt_node(p)])
}

pub open spec fn leaf_node(tag: Seq<char>) -> Node {
    xml::el(tag, seq![], seq![])
}

/// The path so far, whether a subpath is open, and the current point,
/// after one more curve command. DrawingML requires every subpath to start
/// with a move, so a line or cubic that opens a subpath is preceded by a
/// move to the current point; a close outside a subpath writes nothing.
pub open spec fn path_step(st: (Seq<Node>, bool, (i64, i64)), item: CurveItem) -> (Seq<Node>, bool, (i64, i64)) {
    let ns = st.0;
    let started = st.1;
    let cur = st.2;
    let opened = if started { ns } else { ns.push(move_node(cur)) };
    match item {
        CurveItem::Move(x, y) => (ns.push(move_node((x, y))), true, (x, y)),
        CurveItem::Line(x, y) => (opened.push(lnto_node((x, y))), true, (x, y)),
        CurveItem::Cubic(a, b, c, d, x, y) => (opened.push(cubic_node((a, b), (c, d), (x, y))), true, (x, y)),
        CurveItem::Close => (if started { ns.push(leaf_node("a:close"@)) } else { ns }, false, cur),
    }
}

/// The path state after all of `items`.
pub open spec fn path_state(origin: (i64, i64), items: Seq<CurveItem>) -> (Seq<Node>, bool, (i64, i64))
    decreases items.len(),
{
    if items.len() == 0 {
        (Seq::empty(), false, origin)
    } else {
        path_step(path_state(origin, items.drop_last()), items.last())
    }
}

/// The path elements of a geometry.
pub open spec fn path_nodes(g: Geometry) -> Seq<Node> {
    match g {
        Geometry::Rect => Seq::empty(),
        Geometry::Line { from, to } => seq![move_node(from), lnto_node(to)],
        Geometry::Curve { origin, items } => path_state(origin, items@).0,
    }
}

/// The coordinate `key` of the point a path command goes to.
pub open spec fn command_coord(cmd: Node, key: Seq<char>) -> Option<Seq<char>> {
    xml::attr_value(cmd->kids[0]->attrs, key)
}

/// A line's path runs from its start point to its end point: it is a
/// `moveTo` to `from` followed by an `lnTo` to `to`, the `x` and `y` of
/// each being that point's coordinates.
pub proof fn line_path_runs_from_start_to_end(from: (i64, i64), to: (i64, i64))
    ensures ({
        let p = path_nodes(Geometry::Line { from, to });
        &&& p.len() == 2
        &&& p[0] is Elem && p[0]->tag == "a:moveTo"@
        &&& p[1] is Elem && p[1]->tag == "a:lnTo"@
        &&& command_coord(p[0], "x"@) == Some(xml::decimal(from.0 as int))
        &&& command_coord(p[0], "y"@) == Some(xml::decimal(from.1 as int))
        &&& command_coord(p[1], "x"@) == Some(xml::decimal(to.0 as int))
        &&& command_coord(p[1], "y"@) == Some(xml::decimal(to.1 as int))
    }),
{
    reveal_strlit("x");
    reveal_strlit("y");
    assert("x"@[0] != "y"@[0]);
    let a = pt_node(from)->attrs;
    let c = pt_node(to)->attrs;
    xml::lemma_attr_value_at(a, 0);
    xml::lemma_attr_value_at(a, 1);
    xml::lemma_attr_value_at(c, 0);
    xml::lemma_attr_value_at(c, 1);
}

pub open spec fn prst_rect_node() -> Node {
    xml::el("a:prstGeom"@, seq![xml::a_s("prst"@, "rect"@)], seq![leaf_node("a:avLst"@)])
}

/// `a:custGeom` with a single path of the box's size.
pub open spec fn cust_geom_node(cx: int, cy: int, path: Seq<Node>) -> Node {
    xml::el("a:custGeom"@, seq![], seq![
        leaf_node("a:avLst"@),
        leaf_node("a:gdLst"@),
        leaf_node("a:ahLst"@),
        leaf_node("a:cxnLst"@),
        xml::el("a:rect"@, seq![xml::ai("l"@, 0), xml::ai("t"@, 0), xml::ai("r"@, 0), xml::ai("b"@, 0)], seq![]),
        xml::el("a:pathLst"@, seq![], seq![
            xml::el("a:path"@, seq![xml::ai("w"@, xml::max1(cx)), xml::ai("h"@, xml::max1(cy))], path),
        ]),
    ])
}

/// The geometry element: a preset rectangle, or a custom path.
pub open spec fn geometry_node(g: Geometry, cx: int, cy: int) -> Node {
    match g {
        Geometry::Rect => prst_rect_node(),
        _ => cust_geom_node(cx, cy, path_nodes(g)),
    }
}

/// `a:xfrm` with the rotation, if any, and the box extent (at least 1).
pub open spec fn xfrm_node(rot: Option<i64>, cx: int, cy: int) -> Node {
    xml::el("a:xfrm"@,
        match rot { Some(r) => seq![xml::ai("rot"@, r as int)], None => Seq::empty() },
        seq![
            xml::el("a:off"@, seq![xml::ai("x"@, 0), xml::ai("y"@, 0)], seq![]),
            xml::el("a:ext"@, seq![xml::ai("cx"@, xml::max1(cx)), xml::ai("cy"@, xml::max1(cy))], seq![]),
        ])
}

pub open spec fn cap_name(c: LineCap) -> Seq<char> {
    match c {
        LineCap::Butt => "flat"@,
        LineCap::Round => "rnd"@,
        LineCap::Square => "sq"@,
    }
}

pub open spec fn join_node(j: LineJoin) -> Node {
    match j {
        LineJoin::Miter(lim) => xml::el("a:miter"@, seq![xml::ai("lim"@, if lim < 0 { 0 } else { lim as int })], seq![]),
        LineJoin::Round => leaf_node("a:round"@),
        LineJoin::Bevel => leaf_node("a:bevel"@),
    }
}

/// The dash array as written: an odd array alternates the roles of dash
/// and gap on repetition, so it is doubled.
pub open spec fn dash_array(l: Seq<i64>) -> Seq<i64> {
    if l.len() % 2 == 1 { l + l } else { l }
}

/// One `a:ds` per (dash, gap) pair.
pub open spec fn ds_nodes(a: Seq<i64>) -> Seq<Node> {
    Seq::new(a.len() / 2, |i: int| xml::el("a:ds"@, seq![xml::ai("d"@, a[2 * i] as int), xml::ai("sp"@, a[2 * i + 1] as int)], seq![]))
}

pub open spec fn dash_nodes(d: Option<Dash>) -> Seq<Node> {
    match d {
        Some(d) => if d.lengths@.len() > 0 {
            seq![xml::el("a:custDash"@, seq![], ds_nodes(dash_array(d.lengths@)))]
        } else {
            Seq::empty()
        },
        None => Seq::empty(),
    }
}

/// `a:ln`: always written, with `a:noFill` for no stroke, so that Word does
/// not fall back to its themed outline.
pub open spec fn ln_node(s: Option<Stroke>) -> Node {
    match s {
        None => xml::el("a:ln"@, seq![], seq![leaf_node("a:noFill"@)]),
        Some(st) => xml::el("a:ln"@, seq![xml::ai("w"@, xml::max1(st.width as int)), xml::a_s("cap"@, cap_name(st.cap))],
            seq![xml::solid_fill_node(paint::solid_color(st.paint))] + dash_nodes(st.dash) + seq![join_node(st.join)]),
    }
}

pub open spec fn phase_message() -> Seq<char> {
    "dash phase is not supported and was ignored"@
}

/// The warning raised by a dash pattern.
pub open spec fn dash_warnings(d: Option<Dash>) -> Seq<Seq<char>> {
    match d {
        Some(d) => if d.lengths@.len() > 0 { push_if(Seq::empty(), d.phase_set, phase_message()) } else { Seq::empty() },
        None => Seq::empty(),
    }
}

/// The warnings raised by writing a stroke.
pub open spec fn line_warnings(s: Option<Stroke>) -> Seq<Seq<char>> {
    match s {
        None => Seq::empty(),
        Some(st) => paint::solid_warnings(st.paint, "stroke"@) + dash_warnings(st.dash),
    }
}

/// The `wps:wsp` fragment of a shape.
pub open spec fn shape_node(s: ShapeSpec) -> Node {
    xml::el("wps:wsp"@, seq![], seq![
        leaf_node("wps:cNvSpPr"@),
        xml::el("wps:spPr"@, seq![], seq![
            xfrm_node(s.rot, s.cx as int, s.cy as int),
            geometry_node(s.geometry, s.cx as int, s.cy as int),
            match s.fill { Some(p) => paint::fill_node(p), None => leaf_node("a:noFill"@) },
            ln_node(s.stroke),
        ]),
        leaf_node("wps:bodyPr"@),
    ])
}

pub open spec fn even_odd_message() -> Seq<char> {
    "the even-odd fill rule is not supported; overlapping curve regions may fill differently"@
}

pub open spec fn skew_message() -> Seq<char> {
    "skewed or non-uniformly scaled shapes are not supported; only their translation is applied"@
}

/// The warnings raised by the fill of a shape.
pub open spec fn interior_warnings(s: ShapeSpec) -> Seq<Seq<char>> {
    match s.fill {
        Some(p) => push_if(Seq::empty(), s.even_odd && s.geometry is Curve, even_odd_message())
            + paint::fill_warnings(p, "shape fill"@),
        None => Seq::empty(),
    }
}

/// The warnings raised by the fill and stroke of a shape.
pub open spec fn fragment_warnings(s: ShapeSpec) -> Seq<Seq<char>> {
    interior_warnings(s) + line_warnings(s.stroke)
}

/// The warnings raised by rendering a shape, in order.
pub open spec fn shape_warnings(s: ShapeSpec) -> Seq<Seq<char>> {
    push_if(Seq::empty(), s.skewed, skew_message()) + fragment_warnings(s)
}

/// `b` has handed out one more drawing id and z-order than `a`, and is
/// otherwise like `a` but for its fonts, media and warnings.
pub open spec fn drew_one(a: Exporter, b: Exporter) -> bool {
    &&& b.wf()
    &&& b.last_docpr() == a.last_docpr() + 1
    &&& b.last_rel_height() == a.last_rel_height() + 1
}

/// Drawings get distinct ids, and a later drawing lies on top of an earlier
/// one: of two drawings made one after the other, the later has the larger
/// `wp:docPr` id and the larger `relativeHeight`.
pub proof fn later_drawings_on_top(a: Exporter, b: Exporter, c: Exporter, d: Exporter)
    requires
        drew_one(a, b),
        drew_one(c, d),
        b.last_docpr() <= c.last_docpr(),
        b.last_rel_height() <= c.last_rel_height(),
    ensures
        b.last_docpr() < d.last_docpr(),
        b.last_rel_height() < d.last_rel_height(),
{
}

/// The anchored run of a drawing whose `wp:docPr` name is `prefix`
/// followed by its id.
pub open spec fn drawing(x: int, y: int, cx: int, cy: int, id: int, prefix: Seq<char>, z: int,
    behind: bool, uri: Seq<char>, inner: Node) -> Seq<char>
{
    xml::ser(xml::anchor_node(x, y, cx, cy, id, prefix + xml::decimal(id), z, behind, uri, xml::ser(inner)))
}

fn point(xml: &mut Xml, x: i64, y: i64)
    requires
        old(xml).wf(),
    ensures
        final(xml).wf(),
        final(xml)@ == xml::add_node(old(xml)@, pt_node((x, y))),
{
    xml.begin("a:pt").attr_int("x", x).attr_int("y", y);
    proof {
        assert(xml@->attrs =~= seq![xml::ai("x"@, x as int), xml::ai("y"@, y as int)]);
        assert(xml@->kids =~= Seq::<Node>::empty());
    }
    xml.end();
}

fn move_to(xml: &mut Xml, x: i64, y: i64)
    requires
        old(xml).wf(),
    ensures
        final(xml).wf(),
        final(xml)@ == xml::add_node(old(xml)@, move_node((x, y))),
{
    xml.begin("a:moveTo");
    point(xml, x, y);
    proof { assert(xml@->kids =~= seq![pt_node((x, y))]); }
    xml.end();
}

fn line_to(xml: &mut Xml, x: i64, y: i64)
    requires
        old(xml).wf(),
    ensures
        final(xml).wf(),
        final(xml)@ == xml::add_node(old(xml)@, lnto_node((x, y))),
{
    xml.begin("a:lnTo");
    point(xml, x, y);
    proof { assert(xml@->kids =~= seq![pt_node((x, y))]); }
    xml.end();
}

fn cubic_to(xml: &mut Xml, a: i64, b: i64, c: i64, d: i64, x: i64, y: i64)
    requires
        old(xml).wf(),
    ensures
        final(xml).wf(),
        final(xml)@ == xml::add_node(old(xml)@, cubic_node((a, b), (c, d), (x, y))),
{
    xml.begin("a:cubicBezTo");
    point(xml, a, b);
    point(xml, c, d);
    point(xml, x, y);
    proof { assert(xml@->kids =~= seq![pt_node((a, b)), pt_node((c, d)), pt_node((x, y))]); }
    xml.end();
}

/// Write the path elements of a geometry into the open `a:path`.
fn path_content(xml: &mut Xml, geometry: &Geometry)
    requires
        old(xml).wf(),
    ensures
        final(xml).wf(),
        final(xml)@ == xml::add_nodes(old(xml)@, path_nodes(*geometry)),
{
    let ghost start = xml@;
    proof { xml::lemma_add_nodes_push(start, Seq::empty(), leaf_node("a:close"@)); }
    match geometry {
        Geometry::Rect => {},
        Geometry::Line { from, to } => {
            move_to(xml, from.0, from.1);
            line_to(xml, to.0, to.1);
            proof {
                xml::lemma_add_nodes_push(start, Seq::empty(), move_node(*from));
                xml::lemma_add_nodes_push(start, seq![move_node(*from)], lnto_node(*to));
                assert(seq![move_node(*from)].push(lnto_node(*to)) =~= seq![move_node(*from), lnto_node(*to)]);
                assert(Seq::<Node>::empty().push(move_node(*from)) =~= seq![move_node(*from)]);
            }
        },
        Geometry::Curve { origin, items } => {
            let mut started = false;
            let mut cur: (i64, i64) = *origin;
            let mut i: usize = 0;
            while i < items.len()
                invariant
                    i <= items@.len(),
                    xml.wf(),
                    xml@ == xml::add_nodes(start, path_state(*origin, items@.take(i as int)).0),
                    started == path_state(*origin, items@.take(i as int)).1,
                    cur == path_state(*origin, items@.take(i as int)).2,
                decreases items@.len() - i,
            {
                let ghost st = path_state(*origin, items@.take(i as int));
                proof {
                    assert(items@.take(i + 1).drop_last() =~= items@.take(i as int));
                    assert(items@.take(i + 1).last() == items@[i as int]);
                }
                let item = items[i];
                match item {
                    CurveItem::Move(x, y) => {
                        move_to(xml, x, y);
                        proof { xml::lemma_add_nodes_push(start, st.0, move_node((x, y))); }
                        started = true;
                        cur = (x, y);
                    },
                    CurveItem::Line(x, y) => {
                        if !started {
                            move_to(xml, cur.0, cur.1);
                            proof { xml::lemma_add_nodes_push(start, st.0, move_node(cur)); }
                        }
                        let ghost opened = if st.1 { st.0 } else { st.0.push(move_node(st.2)) };
                        line_to(xml, x, y);
                        proof { xml::lemma_add_nodes_push(start, opened, lnto_node((x, y))); }
                        started = true;
                        cur = (x, y);
                    },
                    CurveItem::Cubic(a, b, c, d, x, y) => {
                        if !started {
                            move_to(xml, cur.0, cur.1);
                            proof { xml::lemma_add_nodes_push(start, st.0, move_node(cur)); }
                        }
                        let ghost opened = if st.1 { st.0 } else { st.0.push(move_node(st.2)) };
                        cubic_to(xml, a, b, c, d, x, y);
                        proof { xml::lemma_add_nodes_push(start, opened, cubic_node((a, b), (c, d), (x, y))); }
                        started = true;
                        cur = (x, y);
                    },
                    CurveItem::Close => {
                        if started {
                            xml.leaf("a:close");
                            proof { xml::lemma_add_nodes_push(start, st.0, leaf_node("a:close"@)); }
                        }
                        started = false;
                    },
                }
                i = i + 1;
            }
            proof { assert(items@.take(i as int) =~= items@); }
        },
    }
}

/// Write the `a:prstGeom`/`a:custGeom` element.
fn geometry(xml: &mut Xml, geometry: &Geometry, cx: i64, cy: i64)
    requires
        old(xml).wf(),
    ensures
        final(xml).wf(),
        final(xml)@ == xml::add_node(old(xml)@, geometry_node(*geometry, cx as int, cy as int)),
{
    match geometry {
        Geometry::Rect => {
            xml.begin("a:prstGeom").attr("prst", "rect").leaf("a:avLst");
            proof {
                assert(xml@->attrs =~= seq![xml::a_s("prst"@, "rect"@)]);
                assert(xml@->kids =~= seq![leaf_node("a:avLst"@)]);
            }
            xml.end();
        },
        _ => {
            let ghost node = geometry_node(*geometry, cx as int, cy as int);
            let ghost c0 = xml@;
            xml.begin("a:custGeom");
            xml.leaf("a:avLst");
            xml.leaf("a:gdLst");
            xml.leaf("a:ahLst");
            xml.leaf("a:cxnLst");
            xml.begin("a:rect")
                .attr_int("l", 0)
                .attr_int("t", 0)
                .attr_int("r", 0)
                .attr_int("b", 0);
            proof {
                assert(xml@->attrs =~= node->kids[4]->attrs);
                assert(xml@->kids =~= Seq::<Node>::empty());
            }
            xml.end();
            xml.begin("a:pathLst");
            let w = if cx < 1 { 1 } else { cx };
            let h = if cy < 1 { 1 } else { cy };
            xml.begin("a:path").attr_int("w", w).attr_int("h", h);
            let ghost open_path = xml@;
            path_content(xml, geometry);
            proof {
                assert(open_path->kids =~= Seq::<Node>::empty());
                assert(xml@->attrs =~= node->kids[5]->kids[0]->attrs);
                assert(xml@->kids =~= path_nodes(*geometry));
            }
            xml.end();
            proof { assert(xml@->kids =~~= node->kids[5]->kids); }
            xml.end();
            proof {
                assert(xml@->kids =~~= node->kids);
                assert(xml@->attrs =~= node->attrs);
            }
            xml.end();
        },
    }
}

fn write_dash(xml: &mut Xml, lengths: &Vec<i64>)
    requires
        old(xml).wf(),
        lengths@.len() > 0,
    ensures
        final(xml).wf(),
        final(xml)@ == xml::add_node(old(xml)@, xml::el("a:custDash"@, seq![], ds_nodes(dash_array(lengths@)))),
{
    let ghost a = dash_array(lengths@);
    let ghost kids = ds_nodes(a);
    let n = lengths.len();
    let pairs = if n % 2 == 1 { n } else { n / 2 };
    proof {
        assert(a.len() / 2 == pairs);
        assert(kids.take(0) =~= Seq::<Node>::empty());
    }
    xml.begin("a:custDash");
    let ghost head = xml@;
    let mut k: usize = 0;
    let mut j: usize = 0;
    while j < pairs
        invariant
            n == lengths@.len(),
            n > 0,
            a == dash_array(lengths@),
            kids == ds_nodes(a),
            pairs == a.len() / 2,
            j <= pairs,
            k < n,
            j < pairs ==> k == (if 2 * j < n { 2 * j } else { 2 * j - n }),
            head is In,
            xml.wf(),
            xml@ == (Ctx::In { parent: head->parent, tag: head->tag, attrs: head->attrs, kids: kids.take(j as int) }),
        decreases pairs - j,
    {
        let d = lengths[k];
        assert(a[2 * j] == d);
        k = if k + 1 == n { 0 } else { k + 1 };
        let sp = lengths[k];
        assert(a[2 * j + 1] == sp);
        k = if k + 1 == n { 0 } else { k + 1 };
        xml.begin("a:ds").attr_int("d", d).attr_int("sp", sp);
        proof {
            assert(xml@->attrs =~= kids[j as int]->attrs);
            assert(xml@->kids =~= Seq::<Node>::empty());
        }
        xml.end();
        j = j + 1;
        proof {
            assert(kids.take(j as int) =~= kids.take(j - 1).push(kids[j - 1]));
        }
    }
    proof {
        assert(kids.take(j as int) =~= kids);
        assert(head->attrs =~= Seq::<(Seq<char>, Seq<char>)>::empty());
    }
    xml.end();
}

/// Write the `a:ln` stroke properties.
fn line(xml: &mut Xml, exporter: &mut Exporter, stroke: &Option<Stroke>)
    requires
        old(xml).wf(),
        old(exporter).wf(),
    ensures
        final(xml).wf(),
        final(xml)@ == xml::add_node(old(xml)@, ln_node(*stroke)),
        only_warned(*old(exporter), *final(exporter),
            with_warnings(old(exporter).warning_texts(), line_warnings(*stroke))),
{
    let ghost w0 = exporter.warning_texts();
    let ghost node = ln_node(*stroke);
    match stroke {
        None => {
            proof { crate::with_warnings_push(w0, Seq::empty(), Seq::empty()); }
            xml.begin("a:ln").leaf("a:noFill");
            proof { assert(xml@->kids =~= seq![leaf_node("a:noFill"@)]); }
            xml.end();
        },
        Some(st) => {
            let cap = match st.cap {
                LineCap::Butt => "flat",
                LineCap::Round => "rnd",
                LineCap::Square => "sq",
            };
            let width = if st.width < 1 { 1 } else { st.width };
            xml.begin("a:ln").attr_int("w", width).attr("cap", cap);
            let ghost c0 = xml@;
            let color = paint::solid(exporter, &st.paint, "stroke");
            let ghost w1 = exporter.warning_texts();
            solid_fill(xml, &color);
            let ghost c1 = xml@;
            let ghost dn = dash_nodes(st.dash);
            let ghost dw = dash_warnings(st.dash);
            proof { crate::with_warnings_push(w1, Seq::empty(), Seq::empty()); }
            match &st.dash {
                Some(d) => {
                    if d.lengths.len() > 0 {
                        if d.phase_set {
                            exporter.warn_str("dash phase is not supported and was ignored");
                            proof { crate::with_warnings_push(w1, Seq::empty(), phase_message()); }
                        }
                        write_dash(xml, &d.lengths);
                    }
                },
                None => {},
            }
            proof {
                xml::lemma_add_nodes_push(c1, Seq::empty(), Node::Text(Seq::empty()));
                if dn.len() > 0 {
                    xml::lemma_add_nodes_push(c1, Seq::empty(), dn[0]);
                    assert(Seq::<Node>::empty().push(dn[0]) =~= dn);
                }
                assert(xml@ == xml::add_nodes(c1, dn));
                with_warnings_concat(w0, paint::solid_warnings(st.paint, "stroke"@), dw);
            }
            match st.join {
                LineJoin::Miter(lim) => {
                    let l = if lim < 0 { 0 } else { lim };
                    xml.begin("a:miter").attr_int("lim", l);
                    proof {
                        assert(xml@->attrs =~= seq![xml::ai("lim"@, l as int)]);
                        assert(xml@->kids =~= Seq::<Node>::empty());
                    }
                    xml.end();
                },
                LineJoin::Round => {
                    xml.leaf("a:round");
                },
                LineJoin::Bevel => {
                    xml.leaf("a:bevel");
                },
            }
            proof {
                assert(xml@->attrs =~= node->attrs);
                assert(xml@->kids =~~= node->kids);
            }
            xml.end();
        },
    }
}

/// Write `a:xfrm`.
pub(crate) fn xfrm(xml: &mut Xml, rot: Option<i64>, cx: i64, cy: i64)
    requires
        old(xml).wf(),
    ensures
        final(xml).wf(),
        final(xml)@ == xml::add_node(old(xml)@, xfrm_node(rot, cx as int, cy as int)),
{
    let ghost node = xfrm_node(rot, cx as int, cy as int);
    xml.begin("a:xfrm");
    match rot {
        Some(r) => {
            xml.attr_int("rot", r);
        },
        None => {},
    }
    proof { assert(xml@->attrs =~= node->attrs); }
    let ghost c0 = xml@;
    xml.begin("a:off").attr_int("x", 0).attr_int("y", 0);
    proof {
        assert(xml@->attrs =~= node->kids[0]->attrs);
        assert(xml@->kids =~= Seq::<Node>::empty());
    }
    xml.end();
    let w = if cx < 1 { 1 } else { cx };
    let h = if cy < 1 { 1 } else { cy };
    xml.begin("a:ext").attr_int("cx", w).attr_int("cy", h);
    proof {
        assert(xml@->attrs =~= node->kids[1]->attrs);
        assert(xml@->kids =~= Seq::<Node>::empty());
    }
    xml.end();
    proof { assert(xml@->kids =~~= node->kids); }
    xml.end();
}

/// Build the `wps:wsp` fragment for a shape.
fn shape_fragment(exporter: &mut Exporter, shape: &ShapeSpec) -> (r: String)
    requires
        old(exporter).wf(),
    ensures
        r@ == xml::ser(shape_node(*shape)),
        only_warned(*old(exporter), *final(exporter),
            with_warnings(old(exporter).warning_texts(), fragment_warnings(*shape))),
{
    let ghost w0 = exporter.warning_texts();
    let ghost node = shape_node(*shape);
    let mut xml = Xml::new();
    xml.begin("wps:wsp");
    xml.leaf("wps:cNvSpPr");
    xml.begin("wps:spPr");
    xfrm(&mut xml, shape.rot, shape.cx, shape.cy);
    geometry(&mut xml, &shape.geometry, shape.cx, shape.cy);
    let ghost fw = interior_warnings(*shape);
    match &shape.fill {
        Some(p) => {
            let curve = match &shape.geometry {
                Geometry::Curve { .. } => true,
                _ => false,
            };
            let ghost eo = push_if(Seq::empty(), shape.even_odd && curve, even_odd_message());
            proof { crate::with_warnings_push(w0, Seq::empty(), even_odd_message()); }
            if shape.even_odd && curve {
                exporter.warn_str("the even-odd fill rule is not supported; overlapping curve regions may fill differently");
            }
            let ghost w1 = exporter.warning_texts();
            paint::fill(&mut xml, exporter, p, "shape fill");
            proof { with_warnings_concat(w0, eo, paint::fill_warnings(*p, "shape fill"@)); }
        },
        None => {
            proof { crate::with_warnings_push(w0, Seq::empty(), Seq::empty()); }
            xml.leaf("a:noFill");
        },
    }
    let ghost w2 = exporter.warning_texts();
    line(&mut xml, exporter, &shape.stroke);
    proof { with_warnings_concat(w0, fw, line_warnings(shape.stroke)); }
    proof {
        assert(xml@->kids =~~= node->kids[1]->kids);
    }
    xml.end();
    xml.leaf("wps:bodyPr");
    proof {
        assert(xml@->kids =~~= node->kids);
        assert(xml@->attrs =~= node->attrs);
    }
    xml.end();
    proof {
        assert(xml@ =~~= Ctx::Top(seq![node]));
        xml::lemma_ser_single(node);
    }
    xml.finish()
}

/// Render a shape placed on the page as an anchored drawing.
pub fn render(exporter: &mut Exporter, shape: &ShapeSpec) -> (r: String)
    requires
        old(exporter).wf(),
        old(exporter).last_docpr() < u32::MAX,
        old(exporter).last_rel_height() < u32::MAX,
    ensures
        drew_one(*old(exporter), *final(exporter)),
        final(exporter).fonts_view() == old(exporter).fonts_view(),
        final(exporter).media_view() == old(exporter).media_view(),
        final(exporter).warning_texts() == with_warnings(old(exporter).warning_texts(), shape_warnings(*shape)),
        r@ == drawing(shape.x as int, shape.y as int, shape.cx as int, shape.cy as int,
            final(exporter).last_docpr() as int, "s"@, final(exporter).last_rel_height() as int,
            false, NS_WPS@, shape_node(*shape)),
{
    let ghost w0 = exporter.warning_texts();
    proof { crate::with_warnings_push(w0, Seq::empty(), skew_message()); }
    if shape.skewed {
        exporter.warn_str("skewed or non-uniformly scaled shapes are not supported; only their translation is applied");
    }
    let inner = shape_fragment(exporter, shape);
    proof {
        with_warnings_concat(w0, push_if(Seq::empty(), shape.skewed, skew_message()), fragment_warnings(*shape));
    }
    let id = exporter.next_docpr();
    let name = xml::concat("s", int_string(id as i64).as_str());
    let z = exporter.next_rel_height();
    let cx = if shape.cx < 1 { 1 } else { shape.cx };
    let cy = if shape.cy < 1 { 1 } else { shape.cy };
    proof { reveal_strlit("s"); }
    xml::drawing_run(&Anchor {
        x: shape.x,
        y: shape.y,
        cx,
        cy,
        id,
        name: name.as_str(),
        z,
        behind: false,
        uri: NS_WPS,
        inner: inner.as_str(),
    })
}

/// The `wps:wsp` fragment of a full-page background rectangle.
pub open spec fn background_node(cx: int, cy: int, color: Rgba) -> Node {
    xml::el("wps:wsp"@, seq![], seq![
        leaf_node("wps:cNvSpPr"@),
        xml::el("wps:spPr"@, seq![], seq![
            xfrm_node(None, cx, cy),
            prst_rect_node(),
            xml::solid_fill_node(color),
            xml::el("a:ln"@, seq![], seq![leaf_node("a:noFill"@)]),
        ]),
        leaf_node("wps:bodyPr"@),
    ])
}

/// Render a full-page background rectangle behind everything else.
/// `cx` and `cy` are the page size in EMU.
pub fn background(exporter: &mut Exporter, cx: i64, cy: i64, color: &Rgba) -> (r: String)
    requires
        old(exporter).wf(),
        old(exporter).last_docpr() < u32::MAX,
        old(exporter).last_rel_height() < u32::MAX,
    ensures
        drew_one(*old(exporter), *final(exporter)),
        final(exporter).fonts_view() == old(exporter).fonts_view(),
        final(exporter).media_view() == old(exporter).media_view(),
        final(exporter).warning_texts() == old(exporter).warning_texts(),
        r@ == drawing(0, 0, xml::max1(cx as int), xml::max1(cy as int),
            final(exporter).last_docpr() as int, "bg"@, final(exporter).last_rel_height() as int,
            true, NS_WPS@, background_node(cx as int, cy as int, *color)),
{
    let ghost node = background_node(cx as int, cy as int, *color);
    let w = if cx < 1 { 1 } else { cx };
    let h = if cy < 1 { 1 } else { cy };
    let mut xml = Xml::new();
    xml.begin("wps:wsp");
    xml.leaf("wps:cNvSpPr");
    xml.begin("wps:spPr");
    xfrm(&mut xml, None, cx, cy);
    let ghost c0 = xml@;
    xml.begin("a:prstGeom").attr("prst", "rect").leaf("a:avLst");
    proof {
        assert(xml@->attrs =~= seq![xml::a_s("prst"@, "rect"@)]);
        assert(xml@->kids =~= seq![leaf_node("a:avLst"@)]);
    }
    xml.end();
    solid_fill(&mut xml, color);
    xml.begin("a:ln").leaf("a:noFill");
    proof { assert(xml@->kids =~= seq![leaf_node("a:noFill"@)]); }
    xml.end();
    proof { assert(xml@->kids =~~= node->kids[1]->kids); }
    xml.end();
    xml.leaf("wps:bodyPr");
    proof {
        assert(xml@->kids =~~= node->kids);
        assert(xml@->attrs =~= node->attrs);
    }
    xml.end();
    proof {
        assert(xml@ =~~= Ctx::Top(seq![node]));
        xml::lemma_ser_single(node);
    }
    let inner = xml.finish();
    let id = exporter.next_docpr();
    let name = xml::concat("bg", int_string(id as i64).as_str());
    let z = exporter.next_rel_height();
    proof { reveal_strlit("bg"); }
    xml::drawing_run(&Anchor {
        x: 0,
        y: 0,
        cx: w,
        cy: h,
        id,
        name: name.as_str(),
        z,
        behind: true,
        uri: NS_WPS,
        inner: inner.as_str(),
    })
}

} // verus!
