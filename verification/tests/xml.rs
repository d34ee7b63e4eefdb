use typst_docx::xml::{strip_c0_controls, Xml};

#[test]
fn control_chars() {
    assert_eq!(strip_c0_controls("a\u{7}b\tc"), Some("ab\tc".to_string()));
    assert_eq!(strip_c0_controls("\u{0}\u{1f}"), Some(String::new()));
    assert_eq!(strip_c0_controls("abc"), None);
    assert_eq!(strip_c0_controls("tab\tkept"), None);
}

#[test]
fn builder() {
    let mut xml = Xml::new();
    xml.begin("w:p")
        .begin("w:r")
        .attr("w:val", "a<b&\"c\"")
        .begin("w:t")
        .text("x < y & z")
        .end()
        .end()
        .end();
    assert_eq!(
        xml.finish(),
        "<w:p><w:r w:val=\"a&lt;b&amp;&quot;c&quot;\">\
         <w:t>x &lt; y &amp; z</w:t></w:r></w:p>"
    );
}

use typst_docx::xml::{drawing_run, hex6, int_string, nat_string, rgba_from_hex, solid_fill, srgb, Anchor, Rgba};

#[test]
fn escaping_covers_all_five_characters() {
    let mut xml = Xml::new();
    xml.begin("a").attr("v", "<>&\"'").text("<>&\"'").end();
    assert_eq!(
        xml.finish(),
        "<a v=\"&lt;&gt;&amp;&quot;&apos;\">&lt;&gt;&amp;&quot;&apos;</a>"
    );
}

#[test]
fn empty_elements_leaves_and_raw_fragments() {
    let mut xml = Xml::new();
    xml.begin("p").attr_int("n", -42).leaf("q").raw("<r/>").end();
    xml.begin("s").end();
    xml.begin("t").text("").end();
    assert_eq!(xml.finish(), "<p n=\"-42\"><q/><r/></p><s/><t></t>");
}

#[test]
fn finished_part_has_declaration() {
    let mut xml = Xml::new();
    xml.leaf("root");
    assert_eq!(
        xml.finish_part(),
        "<?xml version=\"1.0\" encoding=\"UTF-8\" standalone=\"yes\"?>\r\n<root/>"
    );
}

#[test]
fn numbers() {
    assert_eq!(nat_string(0), "0");
    assert_eq!(nat_string(18446744073709551615), "18446744073709551615");
    assert_eq!(int_string(-9223372036854775808), "-9223372036854775808");
    assert_eq!(int_string(251658240), "251658240");
}

#[test]
fn colors() {
    assert_eq!(hex6(&Rgba { r: 0x0a, g: 0xbc, b: 0xff, a: 0 }), "0abcff");
    let mut xml = Xml::new();
    srgb(&mut xml, &Rgba { r: 0x44, g: 0x55, b: 0x66, a: 0x80 });
    srgb(&mut xml, &Rgba { r: 1, g: 2, b: 3, a: 0 });
    srgb(&mut xml, &Rgba { r: 1, g: 2, b: 3, a: 254 });
    solid_fill(&mut xml, &Rgba { r: 255, g: 255, b: 255, a: 255 });
    assert_eq!(
        xml.finish(),
        "<a:srgbClr val=\"445566\"><a:alpha val=\"50196\"/></a:srgbClr>\
         <a:srgbClr val=\"010203\"><a:alpha val=\"0\"/></a:srgbClr>\
         <a:srgbClr val=\"010203\"><a:alpha val=\"99608\"/></a:srgbClr>\
         <a:solidFill><a:srgbClr val=\"ffffff\"/></a:solidFill>"
    );
}

#[test]
fn anchored_drawing_run() {
    let run = drawing_run(&Anchor {
        x: -12,
        y: 34,
        cx: 0,
        cy: 7,
        id: 3,
        name: "n&",
        z: 5,
        behind: false,
        uri: "u",
        inner: "<inner/>",
    });
    assert_eq!(
        run,
        "<w:r><w:drawing><wp:anchor distT=\"0\" distB=\"0\" distL=\"0\" distR=\"0\" simplePos=\"0\" \
         relativeHeight=\"5\" behindDoc=\"0\" locked=\"1\" layoutInCell=\"0\" allowOverlap=\"1\">\
         <wp:simplePos x=\"0\" y=\"0\"/><wp:positionH relativeFrom=\"page\"><wp:posOffset>-12</wp:posOffset>\
         </wp:positionH><wp:positionV relativeFrom=\"page\"><wp:posOffset>34</wp:posOffset></wp:positionV>\
         <wp:extent cx=\"1\" cy=\"7\"/><wp:effectExtent l=\"0\" t=\"0\" r=\"0\" b=\"0\"/><wp:wrapNone/>\
         <wp:docPr id=\"3\" name=\"n&amp;\"/><wp:cNvGraphicFramePr/><a:graphic><a:graphicData uri=\"u\">\
         <inner/></a:graphicData></a:graphic></wp:anchor></w:drawing></w:r>"
    );
}

#[test]
fn colors_from_hex() {
    assert_eq!(rgba_from_hex("#44556680"), Some(Rgba { r: 0x44, g: 0x55, b: 0x66, a: 0x80 }));
    assert_eq!(rgba_from_hex("#abcdef"), Some(Rgba { r: 0xab, g: 0xcd, b: 0xef, a: 255 }));
    assert_eq!(rgba_from_hex("#ABCDEF"), Some(Rgba { r: 0xab, g: 0xcd, b: 0xef, a: 255 }));
    assert_eq!(rgba_from_hex("#12345"), None);
    assert_eq!(rgba_from_hex("1234567"), None);
    assert_eq!(rgba_from_hex("#12345g"), None);
    assert_eq!(rgba_from_hex("#1234567g"), None);
    assert_eq!(rgba_from_hex(""), None);
}
