//! Anchored text boxes with exact baseline placement.
//!
//! Every merged line segment becomes one borderless, inset-free text box
//! anchored to the page. Inside the box, a single paragraph with
//! `w:lineRule="exact"` pins the baseline: Word places the baseline at
//! `box_top + line − descent`, where ascent/descent are the OS/2 Windows
//! metrics of the font. East Asian autospacing, proofing and ligatures are
//! switched off so that Word keeps the natural advances.

use vstd::prelude::*;

use crate::font;
use crate::font::{FontFace, FontRef};
use crate::paint;
use crate::paint::Paint;
use crate::shape;
use crate::xml;
use crate::xml::{chars_of, concat, hex6, nat_string, strip_c0_controls, Anchor, Ctx, Node, Rgba, Xml, NS_WPS};
use crate::{push_if, with_warnings, with_warnings_concat, with_warnings_push, Exporter};

verus! {

broadcast use vstd::seq::group_seq_axioms;

/// Whether a character has the Unicode `White_Space` property.
pub open spec fn is_white_space(c: char) -> bool {
    let v = c as u32;
    ||| 0x9 <= v <= 0xD
    ||| v == 0x20
    ||| v == 0x85
    ||| v == 0xA0
    ||| v == 0x1680
    ||| 0x2000 <= v <= 0x200A
    ||| v == 0x2028
    ||| v == 0x2029
    ||| v == 0x202F
    ||| v == 0x205F
    ||| v == 0x3000
}

/// Whether `c` is whitespace, as `char::is_whitespace` decides it.
pub fn is_whitespace(c: char) -> (r: bool)
    ensures
        r == is_white_space(c),
{
    let v = c as u32;
    (0x9 <= v && v <= 0xD) || v == 0x20 || v == 0x85 || v == 0xA0 || v == 0x1680
        || (0x2000 <= v && v <= 0x200A) || v == 0x2028 || v == 0x2029 || v == 0x202F
        || v == 0x205F || v == 0x3000
}

/// Whether every character of `s` is whitespace (so also when `s` is
/// empty).
pub open spec fn all_white_space(s: Seq<char>) -> bool {
    forall|i: int| 0 <= i < s.len() ==> is_white_space(#[trigger] s[i])
}

fn all_whitespace(s: &str) -> (r: bool)
    ensures
        r == all_white_space(s@),
{
    let cs = chars_of(s);
    let mut i: usize = 0;
    while i < cs.len()
        invariant
            i <= cs@.len(),
            cs@ == s@,
            forall|k: int| 0 <= k < i ==> is_white_space(#[trigger] s@[k]),
        decreases cs@.len() - i,
    {
        if !is_whitespace(cs[i]) {
            return false;
        }
        i = i + 1;
    }
    true
}

/// The language tag of a run: the language, and the region after a hyphen
/// when there is one.
pub open spec fn lang_tag_spec(lang: Seq<char>, region: Option<Seq<char>>) -> Seq<char> {
    match region {
        Some(r) => lang + seq!['-'] + r,
        None => lang,
    }
}

/// Build the language tag of a run from its language and region.
pub fn lang_tag(lang: &str, region: Option<&str>) -> (r: String)
    ensures
        r@ == lang_tag_spec(lang@, match region { Some(g) => Some(g@), None => None }),
{
    match region {
        Some(g) => {
            let r = xml::concat3(lang, "-", g);
            proof { reveal_strlit("-"); }
            r
        },
        None => lang.to_owned(),
    }
}

/// A line segment of text, placed and measured.
pub struct TextSegment<'a> {
    /// The text of the segment.
    pub text: String,
    /// The language tag (`lang` or `lang-REGION`), empty if unknown.
    pub lang: String,
    pub fill: Paint,
    pub font: &'a FontFace,
    /// The font size in half-points.
    pub size: i64,
    /// Page offset of the box's top-left corner in EMU.
    pub x: i64,
    pub y: i64,
    /// Box extent in EMU: the natural width plus a margin, and the line
    /// height.
    pub cx: i64,
    pub cy: i64,
    /// The exact line height in twips.
    pub line: i64,
    /// Rotation in 60000ths of a degree, if any.
    pub rot: Option<i64>,
}

pub open spec fn val_node(tag: Seq<char>, v: int) -> Node {
    xml::el(tag, seq![xml::ai("w:val"@, v)], seq![])
}

/// The run properties, in the order of the `CT_RPr` sequence: fonts, bold,
/// italic, no proofing, color, no kerning, size, complex-script size,
/// language, and (last, from the 2010 namespace) no ligatures.
pub open spec fn run_props_node(f: font::FontRefView, color: Rgba, sz: int, lang: Seq<char>) -> Node {
    xml::el("w:rPr"@, seq![],
        seq![xml::el("w:rFonts"@, seq![
            xml::a_s("w:ascii"@, f.name), xml::a_s("w:hAnsi"@, f.name),
            xml::a_s("w:eastAsia"@, f.name), xml::a_s("w:cs"@, f.name),
        ], seq![])]
        + (if f.bold { seq![shape::leaf_node("w:b"@)] } else { Seq::empty() })
        + (if f.italic { seq![shape::leaf_node("w:i"@)] } else { Seq::empty() })
        + seq![
            shape::leaf_node("w:noProof"@),
            xml::el("w:color"@, seq![xml::a_s("w:val"@, xml::hex6_spec(color))], seq![]),
            val_node("w:kern"@, 0),
            val_node("w:sz"@, sz),
            val_node("w:szCs"@, sz),
        ]
        + (if lang.len() > 0 {
            seq![xml::el("w:lang"@, seq![xml::a_s("w:val"@, lang), xml::a_s("w:eastAsia"@, lang)], seq![])]
        } else {
            Seq::empty()
        })
        + seq![xml::el("w14:ligatures"@, seq![xml::a_s("w14:val"@, "none"@)], seq![])])
}

/// The paragraph of a text box: autospacing off, an exact line of at least
/// one twip, and a single run.
pub open spec fn para_node(line: int, sz: int, f: font::FontRefView, color: Rgba, lang: Seq<char>, text: Seq<char>) -> Node {
    xml::el("w:p"@, seq![], seq![
        xml::el("w:pPr"@, seq![], seq![
            val_node("w:autoSpaceDE"@, 0),
            val_node("w:autoSpaceDN"@, 0),
            xml::el("w:spacing"@, seq![
                xml::ai("w:before"@, 0), xml::ai("w:after"@, 0), xml::ai("w:line"@, xml::max1(line)),
                xml::a_s("w:lineRule"@, "exact"@),
            ], seq![]),
            xml::el("w:rPr"@, seq![], seq![val_node("w:sz"@, sz)]),
        ]),
        xml::el("w:r"@, seq![], seq![
            run_props_node(f, color, sz, lang),
            xml::el("w:t"@, seq![xml::a_s("xml:space"@, "preserve"@)], seq![Node::Text(text)]),
        ]),
    ])
}

/// The `wps:wsp` fragment of a borderless, inset-free text box.
pub open spec fn textbox_node(rot: Option<i64>, cx: int, cy: int, para: Node) -> Node {
    xml::el("wps:wsp"@, seq![], seq![
        xml::el("wps:cNvSpPr"@, seq![xml::ai("txBox"@, 1)], seq![]),
        xml::el("wps:spPr"@, seq![], seq![
            shape::xfrm_node(rot, cx, cy),
            shape::prst_rect_node(),
            shape::leaf_node("a:noFill"@),
            xml::el("a:ln"@, seq![], seq![shape::leaf_node("a:noFill"@)]),
        ]),
        xml::el("wps:txbx"@, seq![], seq![xml::el("w:txbxContent"@, seq![], seq![para])]),
        xml::el("wps:bodyPr"@, seq![
            xml::ai("rot"@, 0), xml::a_s("wrap"@, "none"@),
            xml::ai("lIns"@, 0), xml::ai("tIns"@, 0), xml::ai("rIns"@, 0), xml::ai("bIns"@, 0),
            xml::a_s("anchor"@, "t"@), xml::ai("anchorCtr"@, 0),
        ], seq![shape::leaf_node("a:noAutofit"@)]),
    ])
}

pub open spec fn control_message() -> Seq<char> {
    "control characters are not allowed in DOCX text and were removed"@
}

/// The text written for a segment: without the control characters XML
/// forbids.
pub open spec fn clean_text(s: Seq<char>) -> Seq<char> {
    if xml::has_c0_control(s) { xml::strip_c0(s) } else { s }
}

/// The text box fragment of a segment whose font resolves to `f` and whose
/// fill resolves to `color`.
pub open spec fn segment_node(seg: TextSegment, f: font::FontRefView) -> Node {
    textbox_node(seg.rot, seg.cx as int, seg.cy as int,
        para_node(seg.line as int, seg.size as int, f, paint::solid_color(seg.fill), seg.lang@, clean_text(seg.text@)))
}

/// The warnings raised by a segment, given the fonts before it: its fill,
/// its font, and control characters in its text.
pub open spec fn segment_warnings(seg: TextSegment, v: font::FontsView) -> Seq<Seq<char>> {
    paint::solid_warnings(seg.fill, "text fill"@) + font::new_messages(v, seg.font)
        + push_if(Seq::empty(), xml::has_c0_control(seg.text@), control_message())
}

fn val(x: &mut Xml, tag: &'static str, v: i64)
    requires
        old(x).wf(),
    ensures
        final(x).wf(),
        final(x)@ == xml::add_node(old(x)@, val_node(tag@, v as int)),
{
    x.begin(tag).attr_int("w:val", v);
    proof {
        assert(x@->attrs =~= seq![xml::ai("w:val"@, v as int)]);
        assert(x@->kids =~= Seq::<Node>::empty());
    }
    x.end();
}

fn run_props(x: &mut Xml, f: &FontRef, color: &Rgba, sz: i64, lang: &str)
    requires
        old(x).wf(),
    ensures
        final(x).wf(),
        final(x)@ == xml::add_node(old(x)@, run_props_node(f@, *color, sz as int, lang@)),
{
    let ghost node = run_props_node(f@, *color, sz as int, lang@);
    let ghost c = x@;
    x.begin("w:rPr");
    let ghost head = x@;
    x.begin("w:rFonts")
        .attr("w:ascii", f.name.as_str())
        .attr("w:hAnsi", f.name.as_str())
        .attr("w:eastAsia", f.name.as_str())
        .attr("w:cs", f.name.as_str());
    proof {
        assert(x@->attrs =~= node->kids[0]->attrs);
        assert(x@->kids =~= Seq::<Node>::empty());
    }
    x.end();
    let ghost mut ks: Seq<Node> = seq![node->kids[0]];
    proof { assert(x@ == xml::add_nodes(head, ks)); xml::lemma_add_nodes_push(head, Seq::empty(), ks[0]); assert(Seq::<Node>::empty().push(ks[0]) =~= ks); }
    if f.bold {
        x.leaf("w:b");
        proof { xml::lemma_add_nodes_push(head, ks, shape::leaf_node("w:b"@)); ks = ks.push(shape::leaf_node("w:b"@)); }
    }
    if f.italic {
        x.leaf("w:i");
        proof { xml::lemma_add_nodes_push(head, ks, shape::leaf_node("w:i"@)); ks = ks.push(shape::leaf_node("w:i"@)); }
    }
    x.leaf("w:noProof");
    proof { xml::lemma_add_nodes_push(head, ks, shape::leaf_node("w:noProof"@)); ks = ks.push(shape::leaf_node("w:noProof"@)); }
    let hex = hex6(color);
    x.begin("w:color").attr("w:val", hex.as_str());
    proof {
        assert(x@->attrs =~= seq![xml::a_s("w:val"@, xml::hex6_spec(*color))]);
        assert(x@->kids =~= Seq::<Node>::empty());
    }
    x.end();
    let ghost cn = xml::el("w:color"@, seq![xml::a_s("w:val"@, xml::hex6_spec(*color))], seq![]);
    proof { xml::lemma_add_nodes_push(head, ks, cn); ks = ks.push(cn); }
    val(x, "w:kern", 0);
    proof { xml::lemma_add_nodes_push(head, ks, val_node("w:kern"@, 0)); ks = ks.push(val_node("w:kern"@, 0)); }
    val(x, "w:sz", sz);
    proof { xml::lemma_add_nodes_push(head, ks, val_node("w:sz"@, sz as int)); ks = ks.push(val_node("w:sz"@, sz as int)); }
    val(x, "w:szCs", sz);
    proof { xml::lemma_add_nodes_push(head, ks, val_node("w:szCs"@, sz as int)); ks = ks.push(val_node("w:szCs"@, sz as int)); }
    if !lang.is_empty() {
        x.begin("w:lang").attr("w:val", lang).attr("w:eastAsia", lang);
        proof {
            assert(x@->attrs =~= seq![xml::a_s("w:val"@, lang@), xml::a_s("w:eastAsia"@, lang@)]);
            assert(x@->kids =~= Seq::<Node>::empty());
        }
        x.end();
        let ghost ln = xml::el("w:lang"@, seq![xml::a_s("w:val"@, lang@), xml::a_s("w:eastAsia"@, lang@)], seq![]);
        proof { xml::lemma_add_nodes_push(head, ks, ln); ks = ks.push(ln); }
    }
    x.begin("w14:ligatures").attr("w14:val", "none");
    proof {
        assert(x@->attrs =~= seq![xml::a_s("w14:val"@, "none"@)]);
        assert(x@->kids =~= Seq::<Node>::empty());
    }
    x.end();
    let ghost lig = xml::el("w14:ligatures"@, seq![xml::a_s("w14:val"@, "none"@)], seq![]);
    proof {
        xml::lemma_add_nodes_push(head, ks, lig);
        ks = ks.push(lig);
        assert(ks =~~= node->kids);
        assert(head->kids =~= Seq::<Node>::empty());
        assert(x@->kids =~~= node->kids);
    }
    x.end();
}

fn paragraph(x: &mut Xml, line: i64, sz: i64, f: &FontRef, color: &Rgba, lang: &str, text: &str)
    requires
        old(x).wf(),
    ensures
        final(x).wf(),
        final(x)@ == xml::add_node(old(x)@, para_node(line as int, sz as int, f@, *color, lang@, text@)),
{
    let ghost node = para_node(line as int, sz as int, f@, *color, lang@, text@);
    x.begin("w:p");
    x.begin("w:pPr");
    val(x, "w:autoSpaceDE", 0);
    val(x, "w:autoSpaceDN", 0);
    let l = if line < 1 { 1 } else { line };
    x.begin("w:spacing")
        .attr_int("w:before", 0)
        .attr_int("w:after", 0)
        .attr_int("w:line", l)
        .attr("w:lineRule", "exact");
    proof {
        assert(x@->attrs =~= node->kids[0]->kids[2]->attrs);
        assert(x@->kids =~= Seq::<Node>::empty());
    }
    x.end();
    x.begin("w:rPr");
    val(x, "w:sz", sz);
    proof { assert(x@->kids =~= seq![val_node("w:sz"@, sz as int)]); }
    x.end();
    proof { assert(x@->kids =~~= node->kids[0]->kids); }
    x.end();
    x.begin("w:r");
    run_props(x, f, color, sz, lang);
    x.begin("w:t").attr("xml:space", "preserve").text(text);
    proof {
        assert(x@->attrs =~= seq![xml::a_s("xml:space"@, "preserve"@)]);
        assert(x@->kids =~= seq![Node::Text(text@)]);
    }
    x.end();
    proof { assert(x@->kids =~~= node->kids[1]->kids); }
    x.end();
    proof { assert(x@->kids =~~= node->kids); }
    x.end();
}

/// Build the `wps:wsp` fragment holding the segment's single run.
#[verifier::rlimit(30)]
fn textbox_shape(exporter: &mut Exporter, seg: &TextSegment) -> (r: String)
    requires
        old(exporter).wf(),
    ensures
        final(exporter).wf(),
        font::registered(old(exporter).fonts_view(), final(exporter).fonts_view(), seg.font,
            font::resolved_ref(old(exporter).fonts_view(), seg.font)),
        final(exporter).media_view() == old(exporter).media_view(),
        final(exporter).last_docpr() == old(exporter).last_docpr(),
        final(exporter).last_rel_height() == old(exporter).last_rel_height(),
        final(exporter).warning_texts() == with_warnings(old(exporter).warning_texts(),
            segment_warnings(*seg, old(exporter).fonts_view())),
        r@ == xml::ser(segment_node(*seg, font::resolved_ref(old(exporter).fonts_view(), seg.font))),
{
    let ghost w0 = exporter.warning_texts();
    let ghost v0 = exporter.fonts_view();
    let color = paint::solid(exporter, &seg.fill, "text fill");
    let ghost w1 = exporter.warning_texts();
    let font_ref = exporter.font_ref(seg.font);
    let ghost w2 = exporter.warning_texts();
    let ghost sw = paint::solid_warnings(seg.fill, "text fill"@);
    let ghost fw = font::new_messages(v0, seg.font);
    proof {
        with_warnings_concat(w0, sw, fw);
        with_warnings_push(w2, Seq::empty(), control_message());
    }
    let cleaned = strip_c0_controls(seg.text.as_str());
    let text = match cleaned {
        Some(t) => {
            exporter.warn_str("control characters are not allowed in DOCX text and were removed");
            t
        },
        None => seg.text.clone(),
    };
    proof {
        with_warnings_concat(w0, sw + fw, push_if(Seq::empty(), xml::has_c0_control(seg.text@), control_message()));
        assert(text@ == clean_text(seg.text@));
    }
    let ghost para = para_node(seg.line as int, seg.size as int, font_ref@, color, seg.lang@, text@);
    let ghost node = textbox_node(seg.rot, seg.cx as int, seg.cy as int, para);
    let mut x = Xml::new();
    x.begin("wps:wsp");
    x.begin("wps:cNvSpPr").attr_int("txBox", 1);
    proof {
        assert(x@->attrs =~= seq![xml::ai("txBox"@, 1)]);
        assert(x@->kids =~= Seq::<Node>::empty());
    }
    x.end();
    x.begin("wps:spPr");
    shape::xfrm(&mut x, seg.rot, seg.cx, seg.cy);
    x.begin("a:prstGeom").attr("prst", "rect").leaf("a:avLst");
    proof {
        assert(x@->attrs =~= seq![xml::a_s("prst"@, "rect"@)]);
        assert(x@->kids =~= seq![shape::leaf_node("a:avLst"@)]);
    }
    x.end();
    x.leaf("a:noFill");
    x.begin("a:ln").leaf("a:noFill");
    proof { assert(x@->kids =~= seq![shape::leaf_node("a:noFill"@)]); }
    x.end();
    proof { assert(x@->kids =~~= node->kids[1]->kids); }
    x.end();
    x.begin("wps:txbx");
    x.begin("w:txbxContent");
    paragraph(&mut x, seg.line, seg.size, &font_ref, &color, seg.lang.as_str(), text.as_str());
    proof { assert(x@->kids =~~= seq![para]); }
    x.end();
    proof { assert(x@->kids =~~= node->kids[2]->kids); }
    x.end();
    x.begin("wps:bodyPr")
        .attr_int("rot", 0)
        .attr("wrap", "none")
        .attr_int("lIns", 0)
        .attr_int("tIns", 0)
        .attr_int("rIns", 0)
        .attr_int("bIns", 0)
        .attr("anchor", "t")
        .attr_int("anchorCtr", 0);
    proof { assert(x@->attrs =~= node->kids[3]->attrs); }
    x.leaf("a:noAutofit");
    proof { assert(x@->kids =~~= node->kids[3]->kids); }
    x.end();
    proof {
        assert(x@->kids =~~= node->kids);
        assert(x@->attrs =~= node->attrs);
    }
    x.end();
    proof {
        assert(x@ =~~= Ctx::Top(seq![node]));
        xml::lemma_ser_single(node);
    }
    x.finish()
}

/// Render a text segment as an anchored text box. A segment of whitespace
/// only is dropped and changes nothing.
pub fn text_box(exporter: &mut Exporter, seg: &TextSegment) -> (r: String)
    requires
        old(exporter).wf(),
        old(exporter).last_docpr() < u32::MAX,
        old(exporter).last_rel_height() < u32::MAX,
    ensures
        all_white_space(seg.text@) ==> {
            &&& *final(exporter) == *old(exporter)
            &&& r@ == Seq::<char>::empty()
        },
        !all_white_space(seg.text@) ==> {
            &&& shape::drew_one(*old(exporter), *final(exporter))
            &&& font::registered(old(exporter).fonts_view(), final(exporter).fonts_view(), seg.font,
                    font::resolved_ref(old(exporter).fonts_view(), seg.font))
            &&& final(exporter).media_view() == old(exporter).media_view()
            &&& final(exporter).warning_texts() == with_warnings(old(exporter).warning_texts(),
                    segment_warnings(*seg, old(exporter).fonts_view()))
            &&& r@ == shape::drawing(seg.x as int, seg.y as int, seg.cx as int, seg.cy as int,
                    final(exporter).last_docpr() as int, "t"@, final(exporter).last_rel_height() as int, false, NS_WPS@,
                    segment_node(*seg, font::resolved_ref(old(exporter).fonts_view(), seg.font)))
        },
{
    if all_whitespace(seg.text.as_str()) {
        return String::new();
    }
    let inner = textbox_shape(exporter, seg);
    let id = exporter.next_docpr();
    let name = concat("t", nat_string(id as u64).as_str());
    let z = exporter.next_rel_height();
    proof { reveal_strlit("t"); }
    xml::drawing_run(&Anchor {
        x: seg.x,
        y: seg.y,
        cx: seg.cx,
        cy: seg.cy,
        id,
        name: name.as_str(),
        z,
        behind: false,
        uri: NS_WPS,
        inner: inner.as_str(),
    })
}

/// The text written for a segment holds no character that XML forbids,
/// and text without such characters is written as it is.
pub proof fn written_text_is_clean(s: Seq<char>)
    ensures
        !xml::has_c0_control(clean_text(s)),
        !xml::has_c0_control(s) ==> clean_text(s) == s,
{
    xml::strip_c0_is_clean(s);
}


/// The run properties of a segment's text box.
pub open spec fn segment_run_props(seg: TextSegment, f: font::FontRefView) -> Node {
    segment_node(seg, f)->kids[2]->kids[0]->kids[0]->kids[1]->kids[0]
}

/// The run of a text box is set bold exactly when its font reference is
/// bold, and italic exactly when the reference is italic: the run
/// properties hold a `w:b` element if and only if the reference is bold,
/// and a `w:i` element if and only if it is italic.
pub proof fn run_style_follows_font(seg: TextSegment, f: font::FontRefView)
    ensures
        segment_run_props(seg, f) is Elem,
        segment_run_props(seg, f)->tag == "w:rPr"@,
        xml::has_child(segment_run_props(seg, f), "w:b"@) <==> f.bold,
        xml::has_child(segment_run_props(seg, f), "w:i"@) <==> f.italic,
{
    let rpr = segment_run_props(seg, f);
    let lang = seg.lang@;
    assert(rpr == run_props_node(f, paint::solid_color(seg.fill), seg.size as int, lang));
    reveal_strlit("w:b");
    reveal_strlit("w:i");
    reveal_strlit("w:rPr");
    reveal_strlit("w:rFonts");
    reveal_strlit("w:noProof");
    reveal_strlit("w:color");
    reveal_strlit("w:kern");
    reveal_strlit("w:sz");
    reveal_strlit("w:szCs");
    reveal_strlit("w:lang");
    reveal_strlit("w14:ligatures");
    let head = seq![xml::el("w:rFonts"@, seq![
            xml::a_s("w:ascii"@, f.name), xml::a_s("w:hAnsi"@, f.name),
            xml::a_s("w:eastAsia"@, f.name), xml::a_s("w:cs"@, f.name),
        ], seq![])];
    let b: Seq<Node> = if f.bold { seq![shape::leaf_node("w:b"@)] } else { Seq::empty() };
    let i: Seq<Node> = if f.italic { seq![shape::leaf_node("w:i"@)] } else { Seq::empty() };
    let color = paint::solid_color(seg.fill);
    let sz = seg.size as int;
    let tail = seq![
            shape::leaf_node("w:noProof"@),
            xml::el("w:color"@, seq![xml::a_s("w:val"@, xml::hex6_spec(color))], seq![]),
            val_node("w:kern"@, 0),
            val_node("w:sz"@, sz),
            val_node("w:szCs"@, sz),
        ]
        + (if lang.len() > 0 {
            seq![xml::el("w:lang"@, seq![xml::a_s("w:val"@, lang), xml::a_s("w:eastAsia"@, lang)], seq![])]
        } else {
            Seq::empty()
        })
        + seq![xml::el("w14:ligatures"@, seq![xml::a_s("w14:val"@, "none"@)], seq![])];
    let kids = rpr->kids;
    assert(kids =~= head + b + i + tail);
    assert("w:rFonts"@.len() == 8);
    assert("w:i"@[2] != "w:b"@[2]);
    assert("w:i"@ != "w:b"@);
    let bl = b.len() as int;
    let il = i.len() as int;
    assert forall|k: int| 0 <= k < tail.len() implies (#[trigger] tail[k]) is Elem
        && tail[k]->tag.len() != 3 by {
        if k == 0 {
            assert(tail[k]->tag == "w:noProof"@);
        } else if k == 1 {
            assert(tail[k]->tag == "w:color"@);
        } else if k == 2 {
            assert(tail[k]->tag == "w:kern"@);
        } else if k == 3 {
            assert(tail[k]->tag == "w:sz"@);
        } else if k == 4 {
            assert(tail[k]->tag == "w:szCs"@);
        } else if k == 5 && lang.len() > 0 {
            assert(tail[k]->tag == "w:lang"@);
        } else {
            assert(tail[k]->tag == "w14:ligatures"@);
        }
    }
    assert forall|k: int| 0 <= k < kids.len() && (#[trigger] kids[k]) is Elem && kids[k]->tag == "w:b"@
        implies f.bold by {
        assert("w:b"@.len() == 3);
        if k == 0 {
            assert(kids[k] == head[0]);
            assert(kids[k]->tag == "w:rFonts"@);
        } else if k < 1 + bl {
            assert(kids[k] == b[k - 1]);
            assert(kids[k] == shape::leaf_node("w:b"@));
        } else if k < 1 + bl + il {
            assert(kids[k] == i[k - 1 - bl]);
            assert(kids[k] == shape::leaf_node("w:i"@));
        } else {
            assert(kids[k] == tail[k - 1 - bl - il]);
            assert(kids[k]->tag.len() != 3);
        }
    }
    assert forall|k: int| 0 <= k < kids.len() && (#[trigger] kids[k]) is Elem && kids[k]->tag == "w:i"@
        implies f.italic by {
        assert("w:i"@.len() == 3);
        if k == 0 {
            assert(kids[k] == head[0]);
            assert(kids[k]->tag == "w:rFonts"@);
        } else if k < 1 + bl {
            assert(kids[k] == b[k - 1]);
            assert(kids[k] == shape::leaf_node("w:b"@));
        } else if k < 1 + bl + il {
            assert(kids[k] == i[k - 1 - bl]);
            assert(kids[k] == shape::leaf_node("w:i"@));
        } else {
            assert(kids[k] == tail[k - 1 - bl - il]);
            assert(kids[k]->tag.len() != 3);
        }
    }
    if f.bold {
        assert(kids[1] == shape::leaf_node("w:b"@));
    }
    if f.italic {
        assert(kids[1 + bl] == shape::leaf_node("w:i"@));
    }
}

/// A face's OS/2 vertical metrics, in font units, as the font file gives
/// them (descenders negative below the baseline).
pub struct Os2Metrics {
    /// Whether the face asks for its typographic metrics to be used.
    pub use_typographic: bool,
    pub typographic_ascender: i16,
    pub typographic_descender: i16,
    pub windows_ascender: i16,
    pub windows_descender: i16,
}

/// A face's vertical metrics, in font units: its OS/2 values, if it has
/// that table, and its `hhea` ascender and descender.
pub struct VerticalMetrics {
    pub os2: Option<Os2Metrics>,
    pub hhea_ascender: i16,
    pub hhea_descender: i16,
}

/// The ascent and descent (positive below the baseline), in font units,
/// that a text line is laid out with: the typographic pair when the face
/// asks for it and it is sensible (ascent positive, descent not negative),
/// else the Windows pair when it is sensible, else the `hhea` pair.
pub open spec fn line_extent(m: VerticalMetrics) -> (int, int) {
    match m.os2 {
        Some(os2) => {
            let typo = (os2.typographic_ascender as int, -(os2.typographic_descender as int));
            let win = (os2.windows_ascender as int, -(os2.windows_descender as int));
            if os2.use_typographic && typo.0 > 0 && typo.1 >= 0 {
                typo
            } else if win.0 > 0 && win.1 >= 0 {
                win
            } else {
                (m.hhea_ascender as int, -(m.hhea_descender as int))
            }
        },
        None => (m.hhea_ascender as int, -(m.hhea_descender as int)),
    }
}

/// Choose the ascent and descent a text line is laid out with.
pub fn line_metrics(m: &VerticalMetrics) -> (r: (i32, i32))
    ensures
        (r.0 as int, r.1 as int) == line_extent(*m),
{
    let hhea = (m.hhea_ascender as i32, -(m.hhea_descender as i32));
    match &m.os2 {
        Some(os2) => {
            let typo_ascent = os2.typographic_ascender as i32;
            let typo_descent = -(os2.typographic_descender as i32);
            if os2.use_typographic && typo_ascent > 0 && typo_descent >= 0 {
                return (typo_ascent, typo_descent);
            }
            let win_ascent = os2.windows_ascender as i32;
            let win_descent = -(os2.windows_descender as i32);
            if win_ascent > 0 && win_descent >= 0 {
                (win_ascent, win_descent)
            } else {
                hhea
            }
        },
        None => hhea,
    }
}

} // verus!
