use typst_docx::paint::{fill, solid, Gradient, Paint};
use typst_docx::xml::{Rgba, Xml};
use typst_docx::Exporter;

fn rgb(r: u8, g: u8, b: u8) -> Rgba {
    Rgba { r, g, b, a: 255 }
}

fn written(exporter: &mut Exporter, paint: &Paint) -> String {
    let mut xml = Xml::new();
    fill(&mut xml, exporter, paint, "shape fill");
    xml.finish()
}

#[test]
fn linear_gradient_keeps_native_form() {
    let mut exporter = Exporter::new();
    let paint = Paint::Gradient(Gradient::Linear {
        stops: vec![
            (rgb(0x11, 0x22, 0x33), 0),
            (Rgba { r: 0x44, g: 0x55, b: 0x66, a: 0x80 }, 50000),
            (rgb(0x77, 0x88, 0x99), 100000),
        ],
        angle: 2700000,
        parent_relative: false,
    });
    assert_eq!(
        written(&mut exporter, &paint),
        "<a:gradFill rotWithShape=\"1\"><a:gsLst>\
         <a:gs pos=\"0\"><a:srgbClr val=\"112233\"/></a:gs>\
         <a:gs pos=\"50000\"><a:srgbClr val=\"445566\"><a:alpha val=\"50196\"/></a:srgbClr></a:gs>\
         <a:gs pos=\"100000\"><a:srgbClr val=\"778899\"/></a:gs>\
         </a:gsLst><a:lin ang=\"2700000\" scaled=\"1\"/></a:gradFill>"
    );
    assert!(exporter.warnings().is_empty());
}

#[test]
fn radial_gradient_uses_fill_to_rect() {
    let mut exporter = Exporter::new();
    let paint = Paint::Gradient(Gradient::Radial {
        stops: vec![(rgb(255, 0, 0), 0), (rgb(0, 0, 255), 100000)],
        parent_relative: false,
        focal_center_moved: false,
        focal_radius_set: false,
        radius_changed: false,
        fill_to_rect: (25000, 75000, 75000, 25000),
    });
    assert_eq!(
        written(&mut exporter, &paint),
        "<a:gradFill rotWithShape=\"1\"><a:gsLst>\
         <a:gs pos=\"0\"><a:srgbClr val=\"ff0000\"/></a:gs>\
         <a:gs pos=\"100000\"><a:srgbClr val=\"0000ff\"/></a:gs>\
         </a:gsLst><a:path path=\"circle\"><a:fillToRect l=\"25000\" t=\"75000\" r=\"75000\" b=\"25000\"/>\
         </a:path></a:gradFill>"
    );
    assert!(exporter.warnings().is_empty());
}

#[test]
fn radial_gradient_approximations_warn_in_order() {
    let mut exporter = Exporter::new();
    let paint = Paint::Gradient(Gradient::Radial {
        stops: vec![(rgb(255, 0, 0), 0)],
        parent_relative: true,
        focal_center_moved: true,
        focal_radius_set: true,
        radius_changed: true,
        fill_to_rect: (50000, 50000, 50000, 50000),
    });
    written(&mut exporter, &paint);
    assert_eq!(
        exporter.warnings(),
        &vec![
            "shape fill: parent-relative radial gradients are approximated against the shape bounding box".to_string(),
            "shape fill: radial gradient focal-center is not supported, using the center point".to_string(),
            "shape fill: radial gradient focal-radius is not supported and was ignored".to_string(),
            "shape fill: radial gradient radius is approximated by DrawingML fillToRect".to_string(),
        ]
    );
}

#[test]
fn conic_gradient_falls_back_to_first_stop() {
    let mut exporter = Exporter::new();
    let paint = Paint::Gradient(Gradient::Conic {
        stops: vec![(rgb(255, 0, 0), 0), (rgb(0, 0, 255), 100000)],
    });
    let out = written(&mut exporter, &paint);
    assert_eq!(out, "<a:solidFill><a:srgbClr val=\"ff0000\"/></a:solidFill>");
    assert!(!out.contains("gradFill"));
    assert_eq!(
        exporter.warnings(),
        &vec!["shape fill: conic gradients require raster fallback, using the first stop color".to_string()]
    );
}

#[test]
fn conic_gradient_without_stops_is_black() {
    let mut exporter = Exporter::new();
    let out = written(&mut exporter, &Paint::Gradient(Gradient::Conic { stops: Vec::new() }));
    assert_eq!(out, "<a:solidFill><a:srgbClr val=\"000000\"/></a:solidFill>");
}

#[test]
fn tiling_fill_is_black_and_warns_once() {
    let mut exporter = Exporter::new();
    let out = written(&mut exporter, &Paint::Tiling);
    written(&mut exporter, &Paint::Tiling);
    assert_eq!(out, "<a:solidFill><a:srgbClr val=\"000000\"/></a:solidFill>");
    assert_eq!(
        exporter.warnings(),
        &vec!["shape fill: tiling fills are not supported, using black".to_string()]
    );
}

#[test]
fn parent_relative_linear_gradient_warns() {
    let mut exporter = Exporter::new();
    let paint = Paint::Gradient(Gradient::Linear {
        stops: vec![(rgb(1, 2, 3), 0)],
        angle: 0,
        parent_relative: true,
    });
    written(&mut exporter, &paint);
    assert_eq!(
        exporter.warnings(),
        &vec!["shape fill: parent-relative linear gradients are approximated against the shape bounding box".to_string()]
    );
}

#[test]
fn solid_reduction() {
    let mut exporter = Exporter::new();
    assert_eq!(solid(&mut exporter, &Paint::Solid(rgb(1, 2, 3)), "text fill"), rgb(1, 2, 3));
    assert!(exporter.warnings().is_empty());
    let gradient = Paint::Gradient(Gradient::Linear {
        stops: vec![(rgb(9, 8, 7), 0), (rgb(1, 1, 1), 100000)],
        angle: 0,
        parent_relative: false,
    });
    assert_eq!(solid(&mut exporter, &gradient, "text fill"), rgb(9, 8, 7));
    assert_eq!(solid(&mut exporter, &Paint::Tiling, "stroke"), rgb(0, 0, 0));
    assert_eq!(
        exporter.warnings(),
        &vec![
            "text fill: gradients are not supported, using the first stop color".to_string(),
            "stroke: tiling fills are not supported, using black".to_string(),
        ]
    );
}
