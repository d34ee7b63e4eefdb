use typst_docx::paint::Paint;
use typst_docx::shape::{background, render, CurveItem, Dash, Geometry, LineCap, LineJoin, ShapeSpec, Stroke};
use typst_docx::xml::Rgba;
use typst_docx::Exporter;

fn color(r: u8, g: u8, b: u8) -> Rgba {
    Rgba { r, g, b, a: 255 }
}

fn shape_spec(geometry: Geometry, fill: Option<Paint>, stroke: Option<Stroke>) -> ShapeSpec {
    ShapeSpec { x: 100, y: 200, cx: 5000, cy: 0, rot: None, skewed: false, geometry, fill, even_odd: false, stroke }
}

fn red_stroke(dash: Option<Dash>, join: LineJoin) -> Stroke {
    Stroke { width: 12700, cap: LineCap::Butt, paint: Paint::Solid(color(255, 0, 0)), dash, join }
}

#[test]
fn filled_rectangle() {
    let mut exporter = Exporter::new();
    let out = render(&mut exporter, &shape_spec(Geometry::Rect, Some(Paint::Solid(color(0, 0, 255))), None));
    assert!(out.contains(
        "<wps:wsp><wps:cNvSpPr/><wps:spPr><a:xfrm><a:off x=\"0\" y=\"0\"/><a:ext cx=\"5000\" cy=\"1\"/></a:xfrm>\
         <a:prstGeom prst=\"rect\"><a:avLst/></a:prstGeom>\
         <a:solidFill><a:srgbClr val=\"0000ff\"/></a:solidFill><a:ln><a:noFill/></a:ln></wps:spPr>\
         <wps:bodyPr/></wps:wsp>"
    ));
    assert!(out.contains("<wp:docPr id=\"1\" name=\"s1\"/>"));
    assert!(out.contains("<wp:posOffset>100</wp:posOffset>"));
    assert!(out.contains("<wp:posOffset>200</wp:posOffset>"));
    assert!(out.contains("<wp:extent cx=\"5000\" cy=\"1\"/>"));
    assert!(out.contains("<a:graphicData uri=\"http://schemas.microsoft.com/office/word/2010/wordprocessingShape\">"));
    assert!(exporter.warnings().is_empty());
}

#[test]
fn stroked_line_uses_custom_geometry() {
    let mut exporter = Exporter::new();
    let geometry = Geometry::Line { from: (0, 0), to: (1905000, 0) };
    let mut s = shape_spec(geometry, None, Some(red_stroke(None, LineJoin::Miter(400000))));
    s.cx = 1905000;
    let out = render(&mut exporter, &s);
    assert!(out.contains(
        "<a:custGeom><a:avLst/><a:gdLst/><a:ahLst/><a:cxnLst/><a:rect l=\"0\" t=\"0\" r=\"0\" b=\"0\"/>\
         <a:pathLst><a:path w=\"1905000\" h=\"1\"><a:moveTo><a:pt x=\"0\" y=\"0\"/></a:moveTo>\
         <a:lnTo><a:pt x=\"1905000\" y=\"0\"/></a:lnTo></a:path></a:pathLst></a:custGeom>"
    ));
    assert!(out.contains("<a:noFill/><a:ln w=\"12700\" cap=\"flat\"><a:solidFill><a:srgbClr val=\"ff0000\"/></a:solidFill>\
         <a:miter lim=\"400000\"/></a:ln>"));
}

#[test]
fn curve_subpaths_start_with_a_move() {
    let mut exporter = Exporter::new();
    let geometry = Geometry::Curve {
        origin: (5, 5),
        items: vec![
            CurveItem::Line(10, 10),
            CurveItem::Close,
            CurveItem::Close,
            CurveItem::Cubic(1, 2, 3, 4, 5, 6),
            CurveItem::Move(7, 7),
            CurveItem::Line(8, 8),
        ],
    };
    let mut s = shape_spec(geometry, Some(Paint::Solid(color(0, 0, 0))), None);
    s.even_odd = true;
    let out = render(&mut exporter, &s);
    assert!(out.contains(
        "<a:path w=\"5000\" h=\"1\"><a:moveTo><a:pt x=\"5\" y=\"5\"/></a:moveTo>\
         <a:lnTo><a:pt x=\"10\" y=\"10\"/></a:lnTo><a:close/>\
         <a:moveTo><a:pt x=\"10\" y=\"10\"/></a:moveTo>\
         <a:cubicBezTo><a:pt x=\"1\" y=\"2\"/><a:pt x=\"3\" y=\"4\"/><a:pt x=\"5\" y=\"6\"/></a:cubicBezTo>\
         <a:moveTo><a:pt x=\"7\" y=\"7\"/></a:moveTo><a:lnTo><a:pt x=\"8\" y=\"8\"/></a:lnTo></a:path>"
    ));
    assert_eq!(
        exporter.warnings(),
        &vec!["the even-odd fill rule is not supported; overlapping curve regions may fill differently".to_string()]
    );
}

#[test]
fn even_odd_rectangle_does_not_warn() {
    let mut exporter = Exporter::new();
    let mut s = shape_spec(Geometry::Rect, Some(Paint::Solid(color(0, 0, 0))), None);
    s.even_odd = true;
    render(&mut exporter, &s);
    assert!(exporter.warnings().is_empty());
}

#[test]
fn odd_dash_array_is_doubled() {
    let mut exporter = Exporter::new();
    let dash = Dash { lengths: vec![100000, 50000, 25000], phase_set: true };
    let out = render(&mut exporter, &shape_spec(Geometry::Rect, None, Some(red_stroke(Some(dash), LineJoin::Round))));
    assert!(out.contains(
        "<a:custDash><a:ds d=\"100000\" sp=\"50000\"/><a:ds d=\"25000\" sp=\"100000\"/>\
         <a:ds d=\"50000\" sp=\"25000\"/></a:custDash><a:round/></a:ln>"
    ));
    assert_eq!(exporter.warnings(), &vec!["dash phase is not supported and was ignored".to_string()]);
}

#[test]
fn even_dash_array_and_bevel_join() {
    let mut exporter = Exporter::new();
    let dash = Dash { lengths: vec![300000, 100000], phase_set: false };
    let out = render(&mut exporter, &shape_spec(Geometry::Rect, None, Some(red_stroke(Some(dash), LineJoin::Bevel))));
    assert!(out.contains("<a:custDash><a:ds d=\"300000\" sp=\"100000\"/></a:custDash><a:bevel/></a:ln>"));
    assert!(exporter.warnings().is_empty());
}

#[test]
fn empty_dash_array_is_ignored() {
    let mut exporter = Exporter::new();
    let dash = Dash { lengths: Vec::new(), phase_set: true };
    let out = render(&mut exporter, &shape_spec(Geometry::Rect, None, Some(red_stroke(Some(dash), LineJoin::Miter(-5)))));
    assert!(!out.contains("custDash"));
    assert!(out.contains("<a:miter lim=\"0\"/>"));
    assert!(exporter.warnings().is_empty());
}

#[test]
fn stroke_width_is_at_least_one() {
    let mut exporter = Exporter::new();
    let mut stroke = red_stroke(None, LineJoin::Round);
    stroke.width = 0;
    stroke.cap = LineCap::Square;
    let out = render(&mut exporter, &shape_spec(Geometry::Rect, None, Some(stroke)));
    assert!(out.contains("<a:ln w=\"1\" cap=\"sq\">"));
    let mut stroke = red_stroke(None, LineJoin::Round);
    stroke.cap = LineCap::Round;
    let out = render(&mut exporter, &shape_spec(Geometry::Rect, None, Some(stroke)));
    assert!(out.contains("cap=\"rnd\""));
}

#[test]
fn skewed_rotated_shape() {
    let mut exporter = Exporter::new();
    let mut s = shape_spec(Geometry::Rect, None, None);
    s.skewed = true;
    s.rot = Some(5400000);
    s.fill = Some(Paint::Tiling);
    s.stroke = Some(Stroke { width: 1, cap: LineCap::Butt, paint: Paint::Tiling, dash: None, join: LineJoin::Round });
    let out = render(&mut exporter, &s);
    assert!(out.contains("<a:xfrm rot=\"5400000\">"));
    assert_eq!(
        exporter.warnings(),
        &vec![
            "skewed or non-uniformly scaled shapes are not supported; only their translation is applied".to_string(),
            "shape fill: tiling fills are not supported, using black".to_string(),
            "stroke: tiling fills are not supported, using black".to_string(),
        ]
    );
}

#[test]
fn later_shapes_get_larger_ids_and_z() {
    let mut exporter = Exporter::new();
    let first = render(&mut exporter, &shape_spec(Geometry::Rect, None, None));
    let second = render(&mut exporter, &shape_spec(Geometry::Rect, None, None));
    assert!(first.contains("<wp:docPr id=\"1\" name=\"s1\"/>"));
    assert!(first.contains("relativeHeight=\"251658241\""));
    assert!(second.contains("<wp:docPr id=\"2\" name=\"s2\"/>"));
    assert!(second.contains("relativeHeight=\"251658242\""));
}

#[test]
fn background_rectangle() {
    let mut exporter = Exporter::new();
    let out = background(&mut exporter, 0, 0, &color(1, 2, 3));
    assert!(out.contains("behindDoc=\"1\""));
    assert!(out.contains("<wp:extent cx=\"1\" cy=\"1\"/>"));
    assert!(out.contains(
        "<wps:wsp><wps:cNvSpPr/><wps:spPr><a:xfrm><a:off x=\"0\" y=\"0\"/><a:ext cx=\"1\" cy=\"1\"/></a:xfrm>\
         <a:prstGeom prst=\"rect\"><a:avLst/></a:prstGeom><a:solidFill><a:srgbClr val=\"010203\"/></a:solidFill>\
         <a:ln><a:noFill/></a:ln></wps:spPr><wps:bodyPr/></wps:wsp>"
    ));
    assert!(out.contains("name=\"bg1\""));
}
