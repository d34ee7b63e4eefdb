use std::io::Read;

use typst_docx::font::{obfuscate, FontFace};
use typst_docx::image::{render, ImageKind, ImagePlacement, ImageSource};
use typst_docx::package::{content_types, document, document_rels, package_rels, settings, styles};
use typst_docx::page::{body, PageRuns};
use typst_docx::paint::Paint;
use typst_docx::text::{text_box, TextSegment};
use typst_docx::xml::Rgba;
use typst_docx::{docx, Exporter};
use typst_library::foundations::Bytes;
use typst_library::text::{Font, FontStyle};

const DECL: &str = "<?xml version=\"1.0\" encoding=\"UTF-8\" standalone=\"yes\"?>\r\n";

fn shipped_regular_face() -> FontFace {
    for data in typst_assets::fonts() {
        for font in Font::iter(Bytes::new(data)) {
            let info = font.info();
            if info.variant.weight.to_number() == 400 && info.variant.style == FontStyle::Normal {
                return FontFace {
                    id: 1,
                    data: font.data().to_vec(),
                    index: font.index(),
                    family: info.family.clone(),
                    weight: 400,
                    italic: false,
                };
            }
        }
    }
    panic!("no regular font among Typst's own");
}

fn picture_place() -> ImagePlacement {
    ImagePlacement { x: 0, y: 0, cx: 100, cy: 100, rot: None, skewed: false }
}

#[test]
fn package_relationships_part() {
    assert_eq!(
        package_rels(),
        format!(
            "{DECL}<Relationships xmlns=\"http://schemas.openxmlformats.org/package/2006/relationships\">\
             <Relationship Id=\"rId1\" Type=\"http://schemas.openxmlformats.org/officeDocument/2006/relationships/officeDocument\" \
             Target=\"word/document.xml\"/></Relationships>"
        )
    );
}

#[test]
fn styles_part() {
    assert_eq!(
        styles(),
        format!(
            "{DECL}<w:styles xmlns:w=\"http://schemas.openxmlformats.org/wordprocessingml/2006/main\">\
             <w:docDefaults><w:rPrDefault><w:rPr><w:kern w:val=\"0\"/></w:rPr></w:rPrDefault>\
             <w:pPrDefault><w:pPr><w:spacing w:before=\"0\" w:after=\"0\"/></w:pPr></w:pPrDefault></w:docDefaults>\
             <w:style w:type=\"paragraph\" w:default=\"1\" w:styleId=\"Normal\"><w:name w:val=\"Normal\"/></w:style>\
             </w:styles>"
        )
    );
}

#[test]
fn settings_part_without_fonts() {
    let exporter = Exporter::new();
    assert_eq!(
        settings(&exporter),
        format!(
            "{DECL}<w:settings xmlns:w=\"http://schemas.openxmlformats.org/wordprocessingml/2006/main\">\
             <w:compat><w:compatSetting w:name=\"compatibilityMode\" w:uri=\"http://schemas.microsoft.com/office/word\" \
             w:val=\"15\"/></w:compat></w:settings>"
        )
    );
}

#[test]
fn document_part_wraps_body() {
    let out = document("<x/>");
    assert!(out.starts_with(DECL));
    assert!(out.contains("mc:Ignorable=\"w14\"><w:body><x/></w:body></w:document>"));
    assert!(out.contains("xmlns:w14=\"http://schemas.microsoft.com/office/word/2010/wordml\""));
}

#[test]
fn content_types_and_relationships_list_media() {
    let mut exporter = Exporter::new();
    render(&mut exporter, &ImageSource { id: 1, kind: ImageKind::Png(vec![1]) }, &picture_place());
    render(&mut exporter, &ImageSource { id: 2, kind: ImageKind::Png(vec![2]) }, &picture_place());
    let types = content_types(&exporter);
    assert_eq!(types.matches("Extension=\"png\"").count(), 1);
    assert!(types.contains(
        "<Default Extension=\"xml\" ContentType=\"application/xml\"/><Default Extension=\"png\" ContentType=\"image/png\"/>\
         <Override PartName=\"/word/document.xml\""
    ));
    assert!(!types.contains("odttf"));
    let rels = document_rels(&exporter);
    assert!(rels.contains(
        "<Relationship Id=\"rIdImg1\" Type=\"http://schemas.openxmlformats.org/officeDocument/2006/relationships/image\" \
         Target=\"media/image1.png\"/><Relationship Id=\"rIdImg2\" \
         Type=\"http://schemas.openxmlformats.org/officeDocument/2006/relationships/image\" Target=\"media/image2.png\"/>\
         </Relationships>"
    ));
    assert!(rels.contains("Id=\"rId3\" Type=\"http://schemas.openxmlformats.org/officeDocument/2006/relationships/fontTable\" Target=\"fontTable.xml\""));
}

fn entries(bytes: &[u8]) -> Vec<(String, Vec<u8>)> {
    let mut archive = zip::ZipArchive::new(std::io::Cursor::new(bytes)).unwrap();
    (0..archive.len())
        .map(|i| {
            let mut file = archive.by_index(i).unwrap();
            let mut data = Vec::new();
            file.read_to_end(&mut data).unwrap();
            (file.name().unwrap().into_owned(), data)
        })
        .collect()
}

#[test]
fn docx_holds_every_part_in_order() {
    let mut exporter = Exporter::new();
    let runs = render(&mut exporter, &ImageSource { id: 5, kind: ImageKind::Jpg(vec![7, 7, 7]) }, &picture_place());
    let pages = vec![PageRuns { width_twips: 2000, height_twips: 1000, runs }];
    let expected_types = content_types(&exporter);
    let expected_rels = document_rels(&exporter);
    let out = docx(exporter, &pages).ok().expect("packing failed");
    assert!(out.warnings.is_empty());
    let files = entries(&out.bytes);
    let names: Vec<&str> = files.iter().map(|(n, _)| n.as_str()).collect();
    assert_eq!(
        names,
        [
            "[Content_Types].xml",
            "_rels/.rels",
            "word/document.xml",
            "word/_rels/document.xml.rels",
            "word/styles.xml",
            "word/settings.xml",
            "word/fontTable.xml",
            "word/media/image1.jpg",
        ]
    );
    assert_eq!(files[0].1, expected_types.as_bytes());
    assert_eq!(files[2].1, document(&body(&pages)).as_bytes());
    assert_eq!(files[3].1, expected_rels.as_bytes());
    assert_eq!(files[7].1, vec![7, 7, 7]);
}

#[test]
fn empty_document_packs() {
    let out = docx(Exporter::new(), &Vec::new()).ok().expect("packing failed");
    assert_eq!(&out.bytes[..2], b"PK");
    let files = entries(&out.bytes);
    assert_eq!(files.len(), 7);
    let doc = String::from_utf8(files[2].1.clone()).unwrap();
    assert!(doc.contains("<w:pgSz w:w=\"11906\" w:h=\"16838\"/>"));
}

#[test]
fn embedded_font_is_obfuscated_with_its_key() {
    let face = shipped_regular_face();
    let mut exporter = Exporter::new();
    let seg = TextSegment {
        text: "Hello".to_string(),
        lang: "en".to_string(),
        fill: Paint::Solid(Rgba { r: 0, g: 0, b: 0, a: 255 }),
        font: &face,
        size: 22,
        x: 0,
        y: 0,
        cx: 100,
        cy: 100,
        line: 240,
        rot: None,
    };
    let runs = text_box(&mut exporter, &seg);
    assert!(exporter.fonts().has_embeds(), "warnings: {:?}", exporter.warnings());
    let guid = exporter.fonts().embeds()[0].guid;
    let table = exporter.fonts().font_table();
    assert!(table.contains("embedRegular"));
    assert!(table.contains("fontKey"));
    let pages = vec![PageRuns { width_twips: 4000, height_twips: 2000, runs }];
    let out = docx(exporter, &pages).ok().expect("packing failed");
    let files = entries(&out.bytes);
    let names: Vec<&str> = files.iter().map(|(n, _)| n.as_str()).collect();
    assert_eq!(names[7], "word/_rels/fontTable.xml.rels");
    assert_eq!(names[8], "word/fonts/font1.odttf");
    let odttf = &files[8].1;
    assert_ne!(&odttf[..4], &[0x00, 0x01, 0x00, 0x00]);
    assert_ne!(&odttf[..4], b"OTTO");
    assert_eq!(obfuscate(odttf, &guid), face.data);
    let types = String::from_utf8(files[0].1.clone()).unwrap();
    assert!(types.contains("obfuscatedFont"));
    let settings = String::from_utf8(files[5].1.clone()).unwrap();
    assert!(settings.contains("<w:embedTrueTypeFonts/><w:compat>"));
}

#[test]
fn export_is_deterministic() {
    let make = || {
        let mut exporter = Exporter::new();
        let runs = render(&mut exporter, &ImageSource { id: 1, kind: ImageKind::Png(vec![1, 2]) }, &picture_place());
        docx(exporter, &vec![PageRuns { width_twips: 100, height_twips: 100, runs }]).ok().unwrap().bytes
    };
    assert_eq!(make(), make());
}
