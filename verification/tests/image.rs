use typst_docx::image::{render, ImageKind, ImagePlacement, ImageSource};
use typst_docx::Exporter;

fn place() -> ImagePlacement {
    ImagePlacement { x: 10, y: 20, cx: 300, cy: 0, rot: None, skewed: false }
}

#[test]
fn png_is_anchored_as_picture() {
    let mut exporter = Exporter::new();
    let image = ImageSource { id: 7, kind: ImageKind::Png(vec![1, 2, 3]) };
    let out = render(&mut exporter, &image, &place());
    assert!(out.contains(
        "<pic:pic><pic:nvPicPr><pic:cNvPr id=\"1\" name=\"i1\"/><pic:cNvPicPr/></pic:nvPicPr>\
         <pic:blipFill><a:blip r:embed=\"rIdImg1\"/><a:stretch><a:fillRect/></a:stretch></pic:blipFill>\
         <pic:spPr><a:xfrm><a:off x=\"0\" y=\"0\"/><a:ext cx=\"300\" cy=\"1\"/></a:xfrm>\
         <a:prstGeom prst=\"rect\"><a:avLst/></a:prstGeom></pic:spPr></pic:pic>"
    ));
    assert!(out.contains("<a:graphicData uri=\"http://schemas.openxmlformats.org/drawingml/2006/picture\">"));
    assert!(out.contains("<wp:docPr id=\"1\" name=\"i1\"/>"));
    assert!(out.contains("<wp:extent cx=\"300\" cy=\"1\"/>"));
    assert_eq!(exporter.media().items().len(), 1);
    assert_eq!(exporter.media().items()[0].data, vec![1, 2, 3]);
    assert_eq!(exporter.media().items()[0].ext, "png");
    assert!(exporter.warnings().is_empty());
}

#[test]
fn same_image_is_stored_once() {
    let mut exporter = Exporter::new();
    let image = ImageSource { id: 7, kind: ImageKind::Png(vec![1, 2, 3]) };
    let jpg = ImageSource { id: 8, kind: ImageKind::Jpg(vec![4]) };
    render(&mut exporter, &image, &place());
    let again = render(&mut exporter, &image, &place());
    let other = render(&mut exporter, &jpg, &place());
    assert!(again.contains("r:embed=\"rIdImg1\""));
    assert!(again.contains("<wp:docPr id=\"2\" name=\"i2\"/>"));
    assert!(other.contains("r:embed=\"rIdImg2\""));
    assert_eq!(exporter.media().items().len(), 2);
    assert_eq!(exporter.media().content_types(), vec![("png", "image/png"), ("jpg", "image/jpeg")]);
    assert_eq!(exporter.media_index(&image), Some(0));
    assert_eq!(exporter.media_index(&jpg), Some(1));
}

#[test]
fn content_types_are_listed_once() {
    let mut exporter = Exporter::new();
    render(&mut exporter, &ImageSource { id: 1, kind: ImageKind::Png(vec![1]) }, &place());
    render(&mut exporter, &ImageSource { id: 2, kind: ImageKind::Png(vec![2]) }, &place());
    render(&mut exporter, &ImageSource { id: 3, kind: ImageKind::Gif(vec![3]) }, &place());
    assert_eq!(exporter.media().items().len(), 3);
    assert_eq!(exporter.media().content_types(), vec![("png", "image/png"), ("gif", "image/gif")]);
}

#[test]
fn unsupported_images_are_skipped_with_a_warning() {
    let mut exporter = Exporter::new();
    for (id, kind) in [(1, ImageKind::Svg), (2, ImageKind::Pdf), (3, ImageKind::Pixel), (4, ImageKind::Svg)] {
        let out = render(&mut exporter, &ImageSource { id, kind }, &place());
        assert_eq!(out, "");
    }
    assert_eq!(exporter.docpr_id(), 0);
    assert_eq!(exporter.media().items().len(), 0);
    assert_eq!(
        exporter.warnings(),
        &vec![
            "SVG images are not supported and were skipped".to_string(),
            "PDF images are not supported and were skipped".to_string(),
            "raw pixel images are not supported and were skipped".to_string(),
        ]
    );
}

#[test]
fn webp_is_embedded_with_a_warning() {
    let mut exporter = Exporter::new();
    let out = render(&mut exporter, &ImageSource { id: 1, kind: ImageKind::Webp(vec![9]) }, &place());
    assert!(out.contains("r:embed=\"rIdImg1\""));
    assert_eq!(exporter.media().items()[0].content_type, "image/webp");
    assert_eq!(
        exporter.warnings(),
        &vec!["WebP images are embedded as-is; some Word versions cannot display them".to_string()]
    );
}

#[test]
fn skewed_rotated_image() {
    let mut exporter = Exporter::new();
    let p = ImagePlacement { x: 0, y: 0, cx: 10, cy: 10, rot: Some(60000), skewed: true };
    let out = render(&mut exporter, &ImageSource { id: 1, kind: ImageKind::Jpg(vec![1]) }, &p);
    assert!(out.contains("<a:xfrm rot=\"60000\">"));
    assert_eq!(
        exporter.warnings(),
        &vec!["skewed or non-uniformly scaled images are not supported; only their translation is applied".to_string()]
    );
}
