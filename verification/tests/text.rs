use typst_docx::font::FontFace;
use typst_docx::paint::Paint;
use typst_docx::text::{is_whitespace, lang_tag, line_metrics, text_box, Os2Metrics, TextSegment, VerticalMetrics};
use typst_docx::xml::Rgba;
use typst_docx::Exporter;
use typst_library::foundations::Bytes;
use typst_library::text::{Font, FontStyle};

/// A regular-weight, upright face from the fonts that ship with Typst.
fn regular_face() -> FontFace {
    for data in typst_assets::fonts() {
        for font in Font::iter(Bytes::new(data)) {
            let info = font.info();
            if info.variant.weight.to_number() == 400 && info.variant.style == FontStyle::Normal {
                return FontFace {
                    id: 1,
                    data: font.data().to_vec(),
                    index: font.index(),
                    family: info.family.clone(),
                    weight: 400,
                    italic: false,
                };
            }
        }
    }
    panic!("no regular font among Typst's own");
}

fn segment<'a>(face: &'a FontFace, text: &str, lang: &str) -> TextSegment<'a> {
    TextSegment {
        text: text.to_string(),
        lang: lang.to_string(),
        fill: Paint::Solid(Rgba { r: 0, g: 0, b: 0, a: 255 }),
        font: face,
        size: 22,
        x: 1000,
        y: 2000,
        cx: 30000,
        cy: 0,
        line: 0,
        rot: None,
    }
}

#[test]
fn text_box_paragraph_and_run_properties() {
    let face = regular_face();
    let mut exporter = Exporter::new();
    let out = text_box(&mut exporter, &segment(&face, "Hi", "en"));
    let name = face.family.clone();
    let expected = format!(
        "<w:p><w:pPr><w:autoSpaceDE w:val=\"0\"/><w:autoSpaceDN w:val=\"0\"/>\
         <w:spacing w:before=\"0\" w:after=\"0\" w:line=\"1\" w:lineRule=\"exact\"/>\
         <w:rPr><w:sz w:val=\"22\"/></w:rPr></w:pPr>\
         <w:r><w:rPr><w:rFonts w:ascii=\"{name}\" w:hAnsi=\"{name}\" w:eastAsia=\"{name}\" w:cs=\"{name}\"/>\
         <w:noProof/><w:color w:val=\"000000\"/><w:kern w:val=\"0\"/><w:sz w:val=\"22\"/><w:szCs w:val=\"22\"/>\
         <w:lang w:val=\"en\" w:eastAsia=\"en\"/><w14:ligatures w14:val=\"none\"/></w:rPr>\
         <w:t xml:space=\"preserve\">Hi</w:t></w:r></w:p>"
    );
    assert!(out.contains(&expected), "{out}");
    assert!(out.contains("<wps:cNvSpPr txBox=\"1\"/>"));
    assert!(out.contains(
        "<wps:bodyPr rot=\"0\" wrap=\"none\" lIns=\"0\" tIns=\"0\" rIns=\"0\" bIns=\"0\" anchor=\"t\" anchorCtr=\"0\">\
         <a:noAutofit/></wps:bodyPr>"
    ));
    assert!(out.contains("<a:ext cx=\"30000\" cy=\"1\"/>"));
    assert!(out.contains("<wp:docPr id=\"1\" name=\"t1\"/>"));
    assert_eq!(exporter.docpr_id(), 1);
}

#[test]
fn whitespace_only_segment_is_dropped() {
    let face = regular_face();
    let mut exporter = Exporter::new();
    assert_eq!(text_box(&mut exporter, &segment(&face, " \t\u{3000}\u{a0}", "en")), "");
    assert_eq!(text_box(&mut exporter, &segment(&face, "", "en")), "");
    assert_eq!(exporter.docpr_id(), 0);
    assert_eq!(exporter.rel_height(), 251658240);
    assert!(exporter.warnings().is_empty());
    assert!(!exporter.fonts().has_embeds());
}

#[test]
fn control_characters_are_removed_with_a_warning() {
    let face = regular_face();
    let mut exporter = Exporter::new();
    let out = text_box(&mut exporter, &segment(&face, "a\u{1}b\tc", ""));
    assert!(out.contains("<w:t xml:space=\"preserve\">ab\tc</w:t>"));
    assert!(!out.contains("<w:lang"));
    assert!(exporter
        .warnings()
        .contains(&"control characters are not allowed in DOCX text and were removed".to_string()));
}

#[test]
fn text_is_escaped_and_rotated() {
    let face = regular_face();
    let mut exporter = Exporter::new();
    let mut seg = segment(&face, "a<b & \"c\"", "zh-CN");
    seg.rot = Some(1200000);
    let out = text_box(&mut exporter, &seg);
    assert!(out.contains("<w:t xml:space=\"preserve\">a&lt;b &amp; &quot;c&quot;</w:t>"));
    assert!(out.contains("<a:xfrm rot=\"1200000\">"));
    assert!(out.contains("<w:lang w:val=\"zh-CN\" w:eastAsia=\"zh-CN\"/>"));
}

#[test]
fn font_is_resolved_once() {
    let face = regular_face();
    let mut exporter = Exporter::new();
    text_box(&mut exporter, &segment(&face, "one", "en"));
    let warnings = exporter.warnings().clone();
    let embeds = exporter.fonts().embeds().len();
    text_box(&mut exporter, &segment(&face, "two", "en"));
    assert_eq!(exporter.warnings(), &warnings);
    assert_eq!(exporter.fonts().embeds().len(), embeds);
    let first = exporter.font_ref(&face);
    let second = exporter.font_ref(&face);
    assert_eq!(first.name, second.name);
    assert_eq!(first.name, face.family);
    assert!(!first.bold && !first.italic);
}

#[test]
fn unicode_whitespace() {
    for c in ['\t', '\n', '\u{b}', '\u{c}', '\r', ' ', '\u{85}', '\u{a0}', '\u{1680}', '\u{2000}', '\u{200a}', '\u{2028}', '\u{2029}', '\u{202f}', '\u{205f}', '\u{3000}'] {
        assert!(is_whitespace(c), "{c:?}");
        assert_eq!(is_whitespace(c), c.is_whitespace());
    }
    for c in ['a', '\u{0}', '\u{200b}', '\u{feff}', '\u{180e}', '_', '\u{2001}'] {
        assert_eq!(is_whitespace(c), c.is_whitespace(), "{c:?}");
    }
}

#[test]
fn language_tags() {
    assert_eq!(lang_tag("en", None), "en");
    assert_eq!(lang_tag("zh", Some("CN")), "zh-CN");
    assert_eq!(lang_tag("", Some("US")), "-US");
}

fn os2(use_typographic: bool, typo: (i16, i16), win: (i16, i16)) -> Option<Os2Metrics> {
    Some(Os2Metrics {
        use_typographic,
        typographic_ascender: typo.0,
        typographic_descender: typo.1,
        windows_ascender: win.0,
        windows_descender: win.1,
    })
}

#[test]
fn line_metrics_prefer_windows_values() {
    let m = VerticalMetrics { os2: os2(false, (800, -200), (1000, -300)), hhea_ascender: 900, hhea_descender: -250 };
    assert_eq!(line_metrics(&m), (1000, 300));
}

#[test]
fn line_metrics_use_typographic_values_when_asked() {
    let m = VerticalMetrics { os2: os2(true, (800, -200), (1000, -300)), hhea_ascender: 900, hhea_descender: -250 };
    assert_eq!(line_metrics(&m), (800, 200));
}

#[test]
fn line_metrics_skip_nonsensical_values() {
    let m = VerticalMetrics { os2: os2(true, (0, -200), (1000, 300)), hhea_ascender: 900, hhea_descender: -250 };
    assert_eq!(line_metrics(&m), (900, 250));
    let none = VerticalMetrics { os2: None, hhea_ascender: 700, hhea_descender: -100 };
    assert_eq!(line_metrics(&none), (700, 100));
}
