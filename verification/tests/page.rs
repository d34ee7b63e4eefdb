use typst_docx::page::{batches, body, carrier, page_start, sect_pr, ItemKind, PageRuns, PageSpec};
use typst_docx::paint::Paint;
use typst_docx::xml::Rgba;
use typst_docx::Exporter;

#[test]
fn section_properties_in_schema_order() {
    assert_eq!(
        sect_pr(2000, 1000),
        "<w:sectPr><w:type w:val=\"nextPage\"/><w:pgSz w:w=\"2000\" w:h=\"1000\"/>\
         <w:pgMar w:top=\"0\" w:right=\"0\" w:bottom=\"0\" w:left=\"0\" w:header=\"0\" \
         w:footer=\"0\" w:gutter=\"0\"/></w:sectPr>"
    );
}

#[test]
fn section_sides_are_at_least_one_twip() {
    let s = sect_pr(0, -5);
    assert!(s.contains("<w:pgSz w:w=\"1\" w:h=\"1\"/>"));
}

#[test]
fn carrier_paragraph_without_section() {
    assert_eq!(
        carrier("<x/>", None),
        "<w:p><w:pPr><w:spacing w:before=\"0\" w:after=\"0\" w:line=\"1\" w:lineRule=\"exact\"/>\
         <w:rPr><w:sz w:val=\"2\"/></w:rPr></w:pPr><x/></w:p>"
    );
}

#[test]
fn carrier_paragraph_holds_section_in_paragraph_properties() {
    assert_eq!(
        carrier("<x/>", Some("<s/>")),
        "<w:p><w:pPr><w:spacing w:before=\"0\" w:after=\"0\" w:line=\"1\" w:lineRule=\"exact\"/>\
         <w:rPr><w:sz w:val=\"2\"/></w:rPr><s/></w:pPr><x/></w:p>"
    );
}

#[test]
fn empty_document_gets_an_a4_section() {
    let out = body(&Vec::new());
    assert_eq!(out, sect_pr(11906, 16838));
    assert!(out.contains("w:w=\"11906\" w:h=\"16838\""));
}

fn page(w: i64, h: i64, runs: &str) -> PageRuns {
    PageRuns { width_twips: w, height_twips: h, runs: runs.to_string() }
}

#[test]
fn one_section_per_page_and_last_at_body_level() {
    let pages = vec![page(2000, 1600, "<a/>"), page(2000, 1600, "<b/>"), page(3000, 1000, "<c/>")];
    let out = body(&pages);
    assert_eq!(out.matches("<w:sectPr>").count(), 3);
    // Two sections close the paragraph properties of their carriers.
    assert_eq!(out.matches("</w:sectPr></w:pPr>").count(), 2);
    assert!(out.ends_with(&sect_pr(3000, 1000)));
    let expected = format!(
        "{}{}{}{}",
        carrier("<a/>", Some(&sect_pr(2000, 1600))),
        carrier("<b/>", Some(&sect_pr(2000, 1600))),
        carrier("<c/>", None),
        sect_pr(3000, 1000)
    );
    assert_eq!(out, expected);
}

#[test]
fn single_page_body() {
    let out = body(&vec![page(2000, 1000, "")]);
    assert_eq!(out, format!("{}{}", carrier("", None), sect_pr(2000, 1000)));
    assert!(out.contains("w:w=\"2000\""));
}

fn spec(w: i64, h: i64, fill: Option<Paint>) -> PageSpec {
    PageSpec { width_twips: w, height_twips: h, width_emu: w * 635, height_emu: h * 635, fill }
}

#[test]
fn page_larger_than_word_allows_warns() {
    let mut exporter = Exporter::new();
    let runs = page_start(&mut exporter, &spec(43200, 7200, None));
    assert_eq!(runs, "");
    assert_eq!(
        exporter.warnings(),
        &vec!["page size exceeds Word's 22 inch limit; written as-is".to_string()]
    );
    // The limit itself is accepted.
    let mut exporter = Exporter::new();
    page_start(&mut exporter, &spec(31680, 31680, None));
    assert!(exporter.warnings().is_empty());
}

#[test]
fn white_page_needs_no_background() {
    let mut exporter = Exporter::new();
    let white = Rgba { r: 255, g: 255, b: 255, a: 255 };
    let runs = page_start(&mut exporter, &spec(2000, 1000, Some(Paint::Solid(white))));
    assert_eq!(runs, "");
    assert_eq!(exporter.docpr_id(), 0);
    assert!(exporter.warnings().is_empty());
}

#[test]
fn colored_page_gets_background_behind_text() {
    let mut exporter = Exporter::new();
    let color = Rgba { r: 0xee, g: 0xdd, b: 0xcc, a: 255 };
    let runs = page_start(&mut exporter, &spec(4000, 4000, Some(Paint::Solid(color))));
    assert!(runs.contains("behindDoc=\"1\""));
    assert!(runs.contains("<wp:docPr id=\"1\" name=\"bg1\"/>"));
    assert!(runs.contains("<a:srgbClr val=\"eeddcc\"/>"));
    assert!(runs.contains("<wp:extent cx=\"2540000\" cy=\"2540000\"/>"));
    assert!(runs.contains("relativeHeight=\"251658241\""));
    assert_eq!(exporter.docpr_id(), 1);
    assert_eq!(exporter.rel_height(), 251658241);
}

#[test]
fn tiled_page_background_is_black_with_warning() {
    let mut exporter = Exporter::new();
    let runs = page_start(&mut exporter, &spec(4000, 4000, Some(Paint::Tiling)));
    assert!(runs.contains("<a:srgbClr val=\"000000\"/>"));
    assert_eq!(
        exporter.warnings(),
        &vec!["page background: tiling fills are not supported, using black".to_string()]
    );
}

#[test]
fn consecutive_text_items_form_one_batch() {
    let kinds = vec![
        ItemKind::Text,
        ItemKind::Text,
        ItemKind::Shape,
        ItemKind::Image,
        ItemKind::Text,
        ItemKind::Shape,
        ItemKind::Text,
        ItemKind::Text,
        ItemKind::Text,
    ];
    assert_eq!(batches(&kinds), vec![(0, 2), (2, 3), (3, 4), (4, 5), (5, 6), (6, 9)]);
}

#[test]
fn empty_page_has_no_batches() {
    assert_eq!(batches(&Vec::new()), Vec::<(usize, usize)>::new());
}
