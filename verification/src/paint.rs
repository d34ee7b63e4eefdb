//! Resolving paints into DrawingML fills.

use vstd::prelude::*;

use crate::xml;
use crate::xml::{concat, solid_fill, srgb, Ctx, Node, Rgba, Xml};
use crate::{only_warned, push_if, with_warnings, with_warnings_push, Exporter};

verus! {

broadcast use vstd::seq::group_seq_axioms;

/// A gradient, with its stops as (color, offset in thousandths of a
/// percent, 0 to 100000).
pub enum Gradient {
    /// A linear gradient. `angle` is the DrawingML `a:lin` angle in
    /// 60000ths of a degree.
    Linear {
        stops: Vec<(Rgba, i64)>,
        angle: i64,
        /// Whether the gradient is relative to the parent rather than to the
        /// shape itself.
        parent_relative: bool,
    },
    /// A radial gradient, drawn as a DrawingML circle path.
    Radial {
        stops: Vec<(Rgba, i64)>,
        parent_relative: bool,
        /// Whether the focal center differs from the center.
        focal_center_moved: bool,
        /// Whether the focal radius is non-zero.
        focal_radius_set: bool,
        /// Whether the radius differs from the default of 50%.
        radius_changed: bool,
        /// The `a:fillToRect` insets (left, top, right, bottom), in
        /// thousandths of a percent.
        fill_to_rect: (i64, i64, i64, i64),
    },
    /// A conic gradient, which DrawingML cannot express.
    Conic { stops: Vec<(Rgba, i64)> },
}

/// How an area or a stroke is painted.
pub enum Paint {
    Solid(Rgba),
    Gradient(Gradient),
    /// A tiling pattern, which is not supported.
    Tiling,
}

pub open spec fn black_spec() -> Rgba {
    Rgba { r: 0, g: 0, b: 0, a: 255 }
}

/// Opaque black.
pub fn black() -> (c: Rgba)
    ensures c == black_spec(),
{
    Rgba { r: 0, g: 0, b: 0, a: 255 }
}

/// The stops of a gradient.
pub open spec fn stops_of(g: Gradient) -> Seq<(Rgba, i64)> {
    match g {
        Gradient::Linear { stops, .. } => stops@,
        Gradient::Radial { stops, .. } => stops@,
        Gradient::Conic { stops } => stops@,
    }
}

/// The color of the first stop, or black when there is none.
pub open spec fn first_stop_color(stops: Seq<(Rgba, i64)>) -> Rgba {
    if stops.len() > 0 { stops[0].0 } else { black_spec() }
}

/// The solid color a paint is reduced to.
pub open spec fn solid_color(p: Paint) -> Rgba {
    match p {
        Paint::Solid(c) => c,
        Paint::Gradient(g) => first_stop_color(stops_of(g)),
        Paint::Tiling => black_spec(),
    }
}

pub open spec fn gradient_message(context: Seq<char>) -> Seq<char> {
    context + ": gradients are not supported, using the first stop color"@
}

pub open spec fn tiling_message(context: Seq<char>) -> Seq<char> {
    context + ": tiling fills are not supported, using black"@
}

/// The warnings raised by reducing `p` to a solid color.
pub open spec fn solid_warnings(p: Paint, context: Seq<char>) -> Seq<Seq<char>> {
    match p {
        Paint::Solid(_) => Seq::empty(),
        Paint::Gradient(_) => seq![gradient_message(context)],
        Paint::Tiling => seq![tiling_message(context)],
    }
}

fn first_stop(stops: &Vec<(Rgba, i64)>) -> (c: Rgba)
    ensures c == first_stop_color(stops@),
{
    if stops.len() > 0 {
        stops[0].0
    } else {
        black()
    }
}

fn stops_ref(g: &Gradient) -> (r: &Vec<(Rgba, i64)>)
    ensures r@ == stops_of(*g),
{
    match g {
        Gradient::Linear { stops, .. } => stops,
        Gradient::Radial { stops, .. } => stops,
        Gradient::Conic { stops } => stops,
    }
}

/// Reduce a paint to a solid color.
///
/// Gradients collapse to their first stop and tilings to black, both with a
/// warning.
pub fn solid(exporter: &mut Exporter, paint: &Paint, context: &str) -> (c: Rgba)
    requires
        old(exporter).wf(),
    ensures
        c == solid_color(*paint),
        only_warned(*old(exporter), *final(exporter),
            with_warnings(old(exporter).warning_texts(), solid_warnings(*paint, context@))),
{
    let ghost w = exporter.warning_texts();
    match paint {
        Paint::Solid(c) => {
            proof { with_warnings_push(w, Seq::empty(), Seq::empty()); }
            *c
        },
        Paint::Gradient(g) => {
            exporter.warn(concat(context, ": gradients are not supported, using the first stop color"));
            proof {
                with_warnings_push(w, Seq::empty(), gradient_message(context@));
                assert(Seq::<Seq<char>>::empty().push(gradient_message(context@)) =~= seq![gradient_message(context@)]);
            }
            first_stop(stops_ref(g))
        },
        Paint::Tiling => {
            exporter.warn(concat(context, ": tiling fills are not supported, using black"));
            proof {
                with_warnings_push(w, Seq::empty(), tiling_message(context@));
                assert(Seq::<Seq<char>>::empty().push(tiling_message(context@)) =~= seq![tiling_message(context@)]);
            }
            black()
        },
    }
}

/// One gradient stop.
pub open spec fn gs_node(stop: (Rgba, i64)) -> Node {
    xml::el("a:gs"@, seq![xml::ai("pos"@, stop.1 as int)], seq![xml::srgb_node(stop.0)])
}

/// The gradient stop list.
pub open spec fn gs_list_node(stops: Seq<(Rgba, i64)>) -> Node {
    xml::el("a:gsLst"@, seq![], Seq::new(stops.len(), |i: int| gs_node(stops[i])))
}

/// The native DrawingML form of a gradient; a conic gradient becomes its
/// first stop color.
pub open spec fn gradient_node(g: Gradient) -> Node {
    match g {
        Gradient::Linear { stops, angle, .. } => xml::el("a:gradFill"@, seq![xml::ai("rotWithShape"@, 1)], seq![
            gs_list_node(stops@),
            xml::el("a:lin"@, seq![xml::ai("ang"@, angle as int), xml::ai("scaled"@, 1)], seq![]),
        ]),
        Gradient::Radial { stops, fill_to_rect, .. } => xml::el("a:gradFill"@, seq![xml::ai("rotWithShape"@, 1)], seq![
            gs_list_node(stops@),
            xml::el("a:path"@, seq![xml::a_s("path"@, "circle"@)], seq![
                xml::el("a:fillToRect"@, seq![
                    xml::ai("l"@, fill_to_rect.0 as int), xml::ai("t"@, fill_to_rect.1 as int),
                    xml::ai("r"@, fill_to_rect.2 as int), xml::ai("b"@, fill_to_rect.3 as int),
                ], seq![]),
            ]),
        ]),
        Gradient::Conic { stops } => xml::solid_fill_node(first_stop_color(stops@)),
    }
}

/// The focus rectangle written for a radial gradient.
pub open spec fn fill_to_rect_node(g: Gradient) -> Node {
    gradient_node(g)->kids[1]->kids[0]
}

/// A radial gradient's focus rectangle keeps its insets in place: the
/// `a:fillToRect` inside its `a:path` has `l`, `t`, `r` and `b` equal to
/// the first, second, third and fourth of the gradient's insets.
pub proof fn radial_insets_in_place(g: Gradient)
    requires
        g is Radial,
    ensures
        gradient_node(g)->kids[1] is Elem,
        gradient_node(g)->kids[1]->tag == "a:path"@,
        fill_to_rect_node(g) is Elem,
        fill_to_rect_node(g)->tag == "a:fillToRect"@,
        xml::attr_value(fill_to_rect_node(g)->attrs, "l"@) == Some(xml::decimal(g->fill_to_rect.0 as int)),
        xml::attr_value(fill_to_rect_node(g)->attrs, "t"@) == Some(xml::decimal(g->fill_to_rect.1 as int)),
        xml::attr_value(fill_to_rect_node(g)->attrs, "r"@) == Some(xml::decimal(g->fill_to_rect.2 as int)),
        xml::attr_value(fill_to_rect_node(g)->attrs, "b"@) == Some(xml::decimal(g->fill_to_rect.3 as int)),
{
    reveal_strlit("l");
    reveal_strlit("t");
    reveal_strlit("r");
    reveal_strlit("b");
    let a = fill_to_rect_node(g)->attrs;
    let (l, t, r, b) = g->fill_to_rect;
    assert(a =~= seq![xml::ai("l"@, l as int), xml::ai("t"@, t as int), xml::ai("r"@, r as int), xml::ai("b"@, b as int)]);
    assert("l"@[0] != "t"@[0] && "l"@[0] != "r"@[0] && "l"@[0] != "b"@[0]);
    assert("t"@[0] != "r"@[0] && "t"@[0] != "b"@[0] && "r"@[0] != "b"@[0]);
    xml::lemma_attr_value_at(a, 0);
    xml::lemma_attr_value_at(a, 1);
    xml::lemma_attr_value_at(a, 2);
    xml::lemma_attr_value_at(a, 3);
}

/// The fill element written for a shape interior.
pub open spec fn fill_node(p: Paint) -> Node {
    match p {
        Paint::Solid(c) => xml::solid_fill_node(c),
        Paint::Gradient(g) => gradient_node(g),
        Paint::Tiling => xml::solid_fill_node(black_spec()),
    }
}

/// The warnings raised by writing a gradient fill.
pub open spec fn gradient_warnings(g: Gradient, context: Seq<char>) -> Seq<Seq<char>> {
    match g {
        Gradient::Linear { parent_relative, .. } => push_if(Seq::empty(), parent_relative,
            context + ": parent-relative linear gradients are approximated against the shape bounding box"@),
        Gradient::Radial { parent_relative, focal_center_moved, focal_radius_set, radius_changed, .. } =>
            push_if(push_if(push_if(push_if(Seq::empty(),
                parent_relative, context + ": parent-relative radial gradients are approximated against the shape bounding box"@),
                focal_center_moved, context + ": radial gradient focal-center is not supported, using the center point"@),
                focal_radius_set, context + ": radial gradient focal-radius is not supported and was ignored"@),
                radius_changed, context + ": radial gradient radius is approximated by DrawingML fillToRect"@),
        Gradient::Conic { .. } => seq![context + ": conic gradients require raster fallback, using the first stop color"@],
    }
}

/// The warnings raised by writing the fill of a shape interior.
pub open spec fn fill_warnings(p: Paint, context: Seq<char>) -> Seq<Seq<char>> {
    match p {
        Paint::Solid(_) => Seq::empty(),
        Paint::Gradient(g) => gradient_warnings(g, context),
        Paint::Tiling => seq![tiling_message(context)],
    }
}

fn gradient_stops(xml: &mut Xml, stops: &Vec<(Rgba, i64)>)
    requires
        old(xml).wf(),
    ensures
        final(xml).wf(),
        final(xml)@ == xml::add_node(old(xml)@, gs_list_node(stops@)),
{
    let ghost node = gs_list_node(stops@);
    xml.begin("a:gsLst");
    let ghost head = xml@;
    proof {
        assert(node->kids.take(0) =~= Seq::<Node>::empty());
    }
    let mut i: usize = 0;
    while i < stops.len()
        invariant
            i <= stops@.len(),
            node == gs_list_node(stops@),
            head is In,
            xml.wf(),
            xml@ == (Ctx::In { parent: head->parent, tag: head->tag, attrs: head->attrs, kids: node->kids.take(i as int) }),
        decreases stops@.len() - i,
    {
        let (c, pos) = stops[i];
        xml.begin("a:gs").attr_int("pos", pos);
        srgb(xml, &c);
        proof {
            assert(xml@->attrs =~= seq![xml::ai("pos"@, pos as int)]);
            assert(xml@->kids =~~= seq![xml::srgb_node(c)]);
        }
        xml.end();
        i = i + 1;
        proof {
            assert(node->kids.take(i as int) =~= node->kids.take(i - 1).push(gs_node(stops@[i - 1])));
        }
    }
    proof {
        assert(node->kids.take(i as int) =~= node->kids);
        assert(head->attrs =~= Seq::<(Seq<char>, Seq<char>)>::empty());
    }
    xml.end();
}

fn gradient_fill(xml: &mut Xml, exporter: &mut Exporter, gradient: &Gradient, context: &str)
    requires
        old(xml).wf(),
        old(exporter).wf(),
    ensures
        final(xml).wf(),
        final(xml)@ == xml::add_node(old(xml)@, gradient_node(*gradient)),
        only_warned(*old(exporter), *final(exporter),
            with_warnings(old(exporter).warning_texts(), gradient_warnings(*gradient, context@))),
{
    let ghost w = exporter.warning_texts();
    let ghost node = gradient_node(*gradient);
    proof { with_warnings_push(w, Seq::empty(), Seq::empty()); }
    match gradient {
        Gradient::Linear { stops, angle, parent_relative } => {
            if *parent_relative {
                exporter.warn(concat(context,
                    ": parent-relative linear gradients are approximated against the shape bounding box"));
                proof { with_warnings_push(w, Seq::empty(), gradient_warnings(*gradient, context@).last()); }
            }
            xml.begin("a:gradFill").attr_int("rotWithShape", 1);
            gradient_stops(xml, stops);
            xml.begin("a:lin").attr_int("ang", *angle).attr_int("scaled", 1);
            proof {
                assert(xml@->attrs =~= seq![xml::ai("ang"@, *angle as int), xml::ai("scaled"@, 1)]);
                assert(xml@->kids =~= Seq::<Node>::empty());
            }
            xml.end();
            proof {
                assert(xml@->attrs =~= node->attrs);
                assert(xml@->kids =~~= node->kids);
            }
            xml.end();
        },
        Gradient::Radial { stops, parent_relative, focal_center_moved, focal_radius_set, radius_changed, fill_to_rect } => {
            let ghost m0: Seq<Seq<char>> = Seq::empty();
            let ghost m1 = push_if(m0, *parent_relative,
                context@ + ": parent-relative radial gradients are approximated against the shape bounding box"@);
            let ghost m2 = push_if(m1, *focal_center_moved,
                context@ + ": radial gradient focal-center is not supported, using the center point"@);
            let ghost m3 = push_if(m2, *focal_radius_set,
                context@ + ": radial gradient focal-radius is not supported and was ignored"@);
            let ghost m4 = push_if(m3, *radius_changed,
                context@ + ": radial gradient radius is approximated by DrawingML fillToRect"@);
            if *parent_relative {
                exporter.warn(concat(context,
                    ": parent-relative radial gradients are approximated against the shape bounding box"));
                proof { with_warnings_push(w, m0, m1.last()); }
            }
            assert(exporter.warning_texts() == with_warnings(w, m1));
            if *focal_center_moved {
                exporter.warn(concat(context,
                    ": radial gradient focal-center is not supported, using the center point"));
                proof { with_warnings_push(w, m1, m2.last()); assert(m2.drop_last() =~= m1); }
            }
            assert(exporter.warning_texts() == with_warnings(w, m2));
            if *focal_radius_set {
                exporter.warn(concat(context,
                    ": radial gradient focal-radius is not supported and was ignored"));
                proof { with_warnings_push(w, m2, m3.last()); assert(m3.drop_last() =~= m2); }
            }
            assert(exporter.warning_texts() == with_warnings(w, m3));
            if *radius_changed {
                exporter.warn(concat(context,
                    ": radial gradient radius is approximated by DrawingML fillToRect"));
                proof { with_warnings_push(w, m3, m4.last()); assert(m4.drop_last() =~= m3); }
            }
            assert(exporter.warning_texts() == with_warnings(w, m4));
            xml.begin("a:gradFill").attr_int("rotWithShape", 1);
            gradient_stops(xml, stops);
            let ghost c1 = xml@;
            xml.begin("a:path").attr("path", "circle");
            let (l, t, r, b) = *fill_to_rect;
            xml.begin("a:fillToRect")
                .attr_int("l", l)
                .attr_int("t", t)
                .attr_int("r", r)
                .attr_int("b", b);
            proof {
                assert(xml@->attrs =~= node->kids[1]->kids[0]->attrs);
                assert(xml@->kids =~= Seq::<Node>::empty());
            }
            xml.end();
            proof {
                assert(xml@->attrs =~= node->kids[1]->attrs);
                assert(xml@->kids =~~= node->kids[1]->kids);
            }
            xml.end();
            proof {
                assert(xml@->attrs =~= node->attrs);
                assert(xml@->kids =~~= node->kids);
            }
            xml.end();
        },
        Gradient::Conic { stops } => {
            exporter.warn(concat(context, ": conic gradients require raster fallback, using the first stop color"));
            proof {
                let m = context@ + ": conic gradients require raster fallback, using the first stop color"@;
                with_warnings_push(w, Seq::empty(), m);
                assert(Seq::<Seq<char>>::empty().push(m) =~= seq![m]);
            }
            let c = first_stop(stops);
            solid_fill(xml, &c);
        },
    }
}

/// Write a DrawingML fill for a shape interior.
///
/// Linear and radial gradients keep their native DrawingML form; conic
/// gradients and tilings fall back to a solid color with a warning.
pub fn fill(xml: &mut Xml, exporter: &mut Exporter, paint: &Paint, context: &str)
    requires
        old(xml).wf(),
        old(exporter).wf(),
    ensures
        final(xml).wf(),
        final(xml)@ == xml::add_node(old(xml)@, fill_node(*paint)),
        only_warned(*old(exporter), *final(exporter),
            with_warnings(old(exporter).warning_texts(), fill_warnings(*paint, context@))),
{
    let ghost w = exporter.warning_texts();
    match paint {
        Paint::Solid(color) => {
            proof { with_warnings_push(w, Seq::empty(), Seq::empty()); }
            solid_fill(xml, color);
        },
        Paint::Gradient(gradient) => gradient_fill(xml, exporter, gradient, context),
        Paint::Tiling => {
            exporter.warn(concat(context, ": tiling fills are not supported, using black"));
            proof {
                with_warnings_push(w, Seq::empty(), tiling_message(context@));
                assert(Seq::<Seq<char>>::empty().push(tiling_message(context@)) =~= seq![tiling_message(context@)]);
            }
            let c = black();
            solid_fill(xml, &c);
        },
    }
}

} // verus!
