//! The document body: one Word section per page.
//!
//! Each page becomes a single "carrier" paragraph that holds all of the
//! page's anchored drawings and, for all but the last page, its section
//! properties (page size, zero margins). The carrier line is 1 twip tall so
//! it contributes no visible content of its own. The last page's section
//! properties are the body-level `w:sectPr`.

use vstd::prelude::*;

use crate::paint;
use crate::paint::Paint;
use crate::shape;
use crate::xml;
use crate::xml::{hex6, Ctx, Node, Xml, NS_WPS};
use crate::{push_if, with_warnings, with_warnings_concat, with_warnings_push, Exporter};

verus! {

broadcast use vstd::seq::group_seq_axioms;

/// Word's largest page side, 22 inches, in twips.
pub const MAX_TWIPS: i64 = 31680;

/// The width of an A4 page (595.28pt) in twips.
pub const A4_WIDTH_TWIPS: i64 = 11906;

/// The height of an A4 page (841.89pt) in twips.
pub const A4_HEIGHT_TWIPS: i64 = 16838;

/// `w:sectPr` for a page of the given size in twips: children type, pgSz
/// (each side at least 1), pgMar, in the order the schema fixes.
pub open spec fn sect_node(w: int, h: int) -> Node {
    xml::el("w:sectPr"@, seq![], seq![
        xml::el("w:type"@, seq![xml::a_s("w:val"@, "nextPage"@)], seq![]),
        xml::el("w:pgSz"@, seq![xml::ai("w:w"@, xml::max1(w)), xml::ai("w:h"@, xml::max1(h))], seq![]),
        xml::el("w:pgMar"@, seq![
            xml::ai("w:top"@, 0), xml::ai("w:right"@, 0), xml::ai("w:bottom"@, 0), xml::ai("w:left"@, 0),
            xml::ai("w:header"@, 0), xml::ai("w:footer"@, 0), xml::ai("w:gutter"@, 0),
        ], seq![]),
    ])
}

/// Build a `w:sectPr` for a page of the given size in twips.
///
/// Child order is fixed by the schema: type, pgSz, pgMar.
pub fn sect_pr(width_twips: i64, height_twips: i64) -> (r: String)
    ensures
        r@ == xml::ser(sect_node(width_twips as int, height_twips as int)),
{
    let ghost node = sect_node(width_twips as int, height_twips as int);
    let mut x = Xml::new();
    x.begin("w:sectPr");
    x.begin("w:type").attr("w:val", "nextPage");
    proof {
        assert(x@->attrs =~= node->kids[0]->attrs);
        assert(x@->kids =~= Seq::<Node>::empty());
    }
    x.end();
    let w = if width_twips < 1 { 1 } else { width_twips };
    let h = if height_twips < 1 { 1 } else { height_twips };
    x.begin("w:pgSz").attr_int("w:w", w).attr_int("w:h", h);
    proof {
        assert(x@->attrs =~= node->kids[1]->attrs);
        assert(x@->kids =~= Seq::<Node>::empty());
    }
    x.end();
    x.begin("w:pgMar")
        .attr_int("w:top", 0)
        .attr_int("w:right", 0)
        .attr_int("w:bottom", 0)
        .attr_int("w:left", 0)
        .attr_int("w:header", 0)
        .attr_int("w:footer", 0)
        .attr_int("w:gutter", 0);
    proof {
        assert(x@->attrs =~= node->kids[2]->attrs);
        assert(x@->kids =~= Seq::<Node>::empty());
    }
    x.end();
    proof {
        assert(x@->kids =~~= node->kids);
        assert(x@->attrs =~= node->attrs);
    }
    x.end();
    proof {
        assert(x@ =~~= Ctx::Top(seq![node]));
        xml::lemma_ser_single(node);
    }
    x.finish()
}

/// A page's carrier paragraph: a 1-twip exact line with 1pt text, the
/// section properties when given, then the page's drawing runs.
pub open spec fn carrier_node(runs: Seq<char>, sect: Option<Node>) -> Node {
    xml::el("w:p"@, seq![], seq![
        xml::el("w:pPr"@, seq![],
            seq![
                xml::el("w:spacing"@, seq![
                    xml::ai("w:before"@, 0), xml::ai("w:after"@, 0), xml::ai("w:line"@, 1),
                    xml::a_s("w:lineRule"@, "exact"@),
                ], seq![]),
                xml::el("w:rPr"@, seq![], seq![xml::el("w:sz"@, seq![xml::ai("w:val"@, 2)], seq![])]),
            ] + match sect { Some(s) => seq![s], None => Seq::empty() }),
        Node::Raw(runs),
    ])
}

/// The optional fragment as a verbatim node.
pub open spec fn raw_opt(s: Option<&str>) -> Option<Node> {
    match s {
        Some(t) => Some(Node::Raw(t@)),
        None => None,
    }
}

/// Build a page's carrier paragraph around its drawing runs.
pub fn carrier(runs: &str, sect: Option<&str>) -> (r: String)
    ensures
        r@ == xml::ser(carrier_node(runs@, raw_opt(sect))),
{
    let ghost node = carrier_node(runs@, raw_opt(sect));
    let mut x = Xml::new();
    x.begin("w:p");
    x.begin("w:pPr");
    x.begin("w:spacing")
        .attr_int("w:before", 0)
        .attr_int("w:after", 0)
        .attr_int("w:line", 1)
        .attr("w:lineRule", "exact");
    proof {
        assert(x@->attrs =~= node->kids[0]->kids[0]->attrs);
        assert(x@->kids =~= Seq::<Node>::empty());
    }
    x.end();
    x.begin("w:rPr");
    x.begin("w:sz").attr_int("w:val", 2);
    proof {
        assert(x@->attrs =~= seq![xml::ai("w:val"@, 2)]);
        assert(x@->kids =~= Seq::<Node>::empty());
    }
    x.end();
    proof { assert(x@->kids =~~= node->kids[0]->kids[1]->kids); }
    x.end();
    match sect {
        Some(s) => {
            x.raw(s);
        },
        None => {},
    }
    proof { assert(x@->kids =~~= node->kids[0]->kids); }
    x.end();
    x.raw(runs);
    proof { assert(x@->kids =~~= node->kids); }
    x.end();
    proof {
        assert(x@ =~~= Ctx::Top(seq![node]));
        xml::lemma_ser_single(node);
    }
    x.finish()
}

/// A rendered page: its size in twips and its drawing runs.
pub struct PageRuns {
    pub width_twips: i64,
    pub height_twips: i64,
    pub runs: String,
}

/// The body nodes of one page: its carrier, holding its section properties
/// unless it is the last page, whose section properties follow at body
/// level.
pub open spec fn page_nodes(p: PageRuns, last: bool) -> Seq<Node> {
    let sect = sect_node(p.width_twips as int, p.height_twips as int);
    if last {
        seq![carrier_node(p.runs@, None), sect]
    } else {
        seq![carrier_node(p.runs@, Some(sect))]
    }
}

/// What a page contributes to the document: its size and its runs.
pub open spec fn page_view(p: PageRuns) -> (i64, i64, Seq<char>) {
    (p.width_twips, p.height_twips, p.runs@)
}

/// Pages with the same sizes and runs give the same body.
pub proof fn lemma_body_nodes_by_view(pa: Seq<PageRuns>, pb: Seq<PageRuns>)
    requires
        pa.map_values(|p: PageRuns| page_view(p)) == pb.map_values(|p: PageRuns| page_view(p)),
    ensures
        body_nodes(pa) == body_nodes(pb),
{
    assert(pa.len() == pa.map_values(|p: PageRuns| page_view(p)).len());
    assert(pb.len() == pb.map_values(|p: PageRuns| page_view(p)).len());
    lemma_body_nodes_upto_by_view(pa, pb, pa.len());
}

proof fn lemma_body_nodes_upto_by_view(pa: Seq<PageRuns>, pb: Seq<PageRuns>, k: nat)
    requires
        pa.len() == pb.len(),
        k <= pa.len(),
        pa.map_values(|p: PageRuns| page_view(p)) == pb.map_values(|p: PageRuns| page_view(p)),
    ensures
        body_nodes_upto(pa, k) == body_nodes_upto(pb, k),
    decreases k,
{
    if k > 0 {
        lemma_body_nodes_upto_by_view(pa, pb, (k - 1) as nat);
        let i = k - 1;
        assert(pa.map_values(|p: PageRuns| page_view(p))[i] == page_view(pa[i]));
        assert(pb.map_values(|p: PageRuns| page_view(p))[i] == page_view(pb[i]));
        assert(page_nodes(pa[i], k == pa.len()) == page_nodes(pb[i], k == pb.len()));
    }
}

/// The body nodes of the first `k` pages.
pub open spec fn body_nodes_upto(pages: Seq<PageRuns>, k: nat) -> Seq<Node>
    decreases k,
{
    if k == 0 {
        Seq::empty()
    } else {
        body_nodes_upto(pages, (k - 1) as nat) + page_nodes(pages[k - 1], k == pages.len())
    }
}

/// The contents of `w:body`: the pages' nodes, or, for a document without
/// pages, the section properties of an A4 page, since a document needs a
/// final `w:sectPr`.
pub open spec fn body_nodes(pages: Seq<PageRuns>) -> Seq<Node> {
    if pages.len() == 0 {
        seq![sect_node(A4_WIDTH_TWIPS as int, A4_HEIGHT_TWIPS as int)]
    } else {
        body_nodes_upto(pages, pages.len())
    }
}

proof fn lemma_carrier_sect(runs: Seq<char>, s: Node)
    ensures
        xml::ser(carrier_node(runs, Some(Node::Raw(xml::ser(s))))) == xml::ser(carrier_node(runs, Some(s))),
{
    let a = carrier_node(runs, Some(Node::Raw(xml::ser(s))));
    let b = carrier_node(runs, Some(s));
    let pa = a->kids[0];
    let pb = b->kids[0];
    assert forall|i: int| 0 <= i < pa->kids.len() implies xml::ser(#[trigger] pa->kids[i]) == xml::ser(pb->kids[i]) by {}
    xml::lemma_ser_seq_same(pa->kids, pb->kids);
    assert(xml::ser(pa) == xml::ser(pb));
    assert forall|i: int| 0 <= i < a->kids.len() implies xml::ser(#[trigger] a->kids[i]) == xml::ser(b->kids[i]) by {}
    xml::lemma_ser_seq_same(a->kids, b->kids);
}

/// Build the contents of `w:body` from the rendered pages.
pub fn body(pages: &Vec<PageRuns>) -> (r: String)
    ensures
        r@ == xml::ser_seq(body_nodes(pages@)),
{
    if pages.len() == 0 {
        let s = sect_pr(A4_WIDTH_TWIPS, A4_HEIGHT_TWIPS);
        proof { xml::lemma_ser_single(sect_node(A4_WIDTH_TWIPS as int, A4_HEIGHT_TWIPS as int)); }
        return s;
    }
    let mut out = String::new();
    let mut i: usize = 0;
    proof { assert(xml::ser_seq(Seq::<Node>::empty()) =~= Seq::<char>::empty()); }
    while i < pages.len()
        invariant
            i <= pages@.len(),
            out@ == xml::ser_seq(body_nodes_upto(pages@, i as nat)),
        decreases pages@.len() - i,
    {
        let p = &pages[i];
        let last = i + 1 == pages.len();
        let sect = sect_pr(p.width_twips, p.height_twips);
        let ghost sn = sect_node(p.width_twips as int, p.height_twips as int);
        let ghost prev = body_nodes_upto(pages@, i as nat);
        let ghost pn = page_nodes(*p, last);
        if last {
            let c = carrier(p.runs.as_str(), None);
            out.append(c.as_str());
            out.append(sect.as_str());
            proof {
                assert(pn =~= seq![carrier_node(p.runs@, None), sn]);
                assert(pn.drop_last() =~= seq![carrier_node(p.runs@, None)]);
                xml::lemma_ser_single(carrier_node(p.runs@, None));
            }
        } else {
            let c = carrier(p.runs.as_str(), Some(sect.as_str()));
            out.append(c.as_str());
            proof {
                lemma_carrier_sect(p.runs@, sn);
                xml::lemma_ser_single(carrier_node(p.runs@, Some(sn)));
            }
        }
        proof {
            xml::lemma_ser_seq_concat(prev, pn);
        }
        i = i + 1;
        proof {
            assert(body_nodes_upto(pages@, i as nat) == prev + pn);
        }
    }
    out
}

pub open spec fn oversize_message() -> Seq<char> {
    "page size exceeds Word's 22 inch limit; written as-is"@
}

/// Whether a page is larger than Word accepts.
pub open spec fn oversize(width_twips: i64, height_twips: i64) -> bool {
    width_twips > MAX_TWIPS || height_twips > MAX_TWIPS
}

/// A page's size and background.
pub struct PageSpec {
    pub width_twips: i64,
    pub height_twips: i64,
    pub width_emu: i64,
    pub height_emu: i64,
    /// The page fill, if the page is not transparent.
    pub fill: Option<Paint>,
}

/// The background color drawn for a page: Word pages are white by
/// default, so only a non-white fill needs a rectangle.
pub open spec fn page_background(p: PageSpec) -> Option<xml::Rgba> {
    match p.fill {
        Some(f) => if xml::hex6_spec(paint::solid_color(f)) != "ffffff"@ { Some(paint::solid_color(f)) } else { None },
        None => None,
    }
}

/// The warnings raised when a page starts.
pub open spec fn page_warnings(p: PageSpec) -> Seq<Seq<char>> {
    push_if(Seq::empty(), oversize(p.width_twips, p.height_twips), oversize_message())
        + match p.fill { Some(f) => paint::solid_warnings(f, "page background"@), None => Seq::empty() }
}

/// Start a page: warn if it is larger than Word accepts, and draw its
/// background rectangle if it has a non-white fill. Returns the runs that
/// open the page.
pub fn page_start(exporter: &mut Exporter, page: &PageSpec) -> (r: String)
    requires
        old(exporter).wf(),
        old(exporter).last_docpr() < u32::MAX,
        old(exporter).last_rel_height() < u32::MAX,
    ensures
        final(exporter).wf(),
        final(exporter).fonts_view() == old(exporter).fonts_view(),
        final(exporter).media_view() == old(exporter).media_view(),
        final(exporter).warning_texts() == with_warnings(old(exporter).warning_texts(), page_warnings(*page)),
        match page_background(*page) {
            Some(c) => {
                &&& shape::drew_one(*old(exporter), *final(exporter))
                &&& r@ == shape::drawing(0, 0, xml::max1(page.width_emu as int), xml::max1(page.height_emu as int),
                        final(exporter).last_docpr() as int, "bg"@, final(exporter).last_rel_height() as int,
                        true, NS_WPS@, shape::background_node(page.width_emu as int, page.height_emu as int, c))
            },
            None => {
                &&& final(exporter).last_docpr() == old(exporter).last_docpr()
                &&& final(exporter).last_rel_height() == old(exporter).last_rel_height()
                &&& r@ == Seq::<char>::empty()
            },
        },
{
    let ghost w0 = exporter.warning_texts();
    let ghost ow = push_if(Seq::empty(), oversize(page.width_twips, page.height_twips), oversize_message());
    proof { with_warnings_push(w0, Seq::empty(), oversize_message()); }
    if page.width_twips > MAX_TWIPS || page.height_twips > MAX_TWIPS {
        exporter.warn_str("page size exceeds Word's 22 inch limit; written as-is");
    }
    match &page.fill {
        Some(f) => {
            let color = paint::solid(exporter, f, "page background");
            proof { with_warnings_concat(w0, ow, paint::solid_warnings(*f, "page background"@)); }
            let hex = hex6(&color);
            if !crate::font::str_eq(hex.as_str(), "ffffff") {
                shape::background(exporter, page.width_emu, page.height_emu, &color)
            } else {
                String::new()
            }
        },
        None => {
            proof {
                with_warnings_concat(w0, ow, Seq::empty());
                assert(ow + Seq::<Seq<char>>::empty() =~= ow);
            }
            String::new()
        },
    }
}

/// The number of `tag` elements in a node, itself included. Verbatim
/// fragments count for nothing.
pub open spec fn count_tag(n: Node, tag: Seq<char>) -> nat
    decreases n,
{
    match n {
        Node::Elem { tag: t, kids, .. } => (if t == tag { 1nat } else { 0nat }) + count_tag_seq(kids, tag),
        _ => 0,
    }
}

/// The number of `tag` elements in a sequence of siblings.
pub open spec fn count_tag_seq(s: Seq<Node>, tag: Seq<char>) -> nat
    decreases s,
{
    if s.len() == 0 {
        0
    } else {
        count_tag_seq(s.drop_last(), tag) + count_tag(s.last(), tag)
    }
}

/// The number of siblings that are `tag` elements.
pub open spec fn count_direct(s: Seq<Node>, tag: Seq<char>) -> nat
    decreases s.len(),
{
    if s.len() == 0 {
        0
    } else {
        count_direct(s.drop_last(), tag) + (if s.last() is Elem && s.last()->tag == tag { 1nat } else { 0nat })
    }
}

/// The number of `tag` elements that are children of `parent` elements in
/// a node.
pub open spec fn count_child(n: Node, parent: Seq<char>, tag: Seq<char>) -> nat
    decreases n,
{
    match n {
        Node::Elem { tag: t, kids, .. } => (if t == parent { count_direct(kids, tag) } else { 0nat })
            + count_child_seq(kids, parent, tag),
        _ => 0,
    }
}

/// The number of `tag` elements that are children of `parent` elements in
/// a sequence of siblings.
pub open spec fn count_child_seq(s: Seq<Node>, parent: Seq<char>, tag: Seq<char>) -> nat
    decreases s,
{
    if s.len() == 0 {
        0
    } else {
        count_child_seq(s.drop_last(), parent, tag) + count_child(s.last(), parent, tag)
    }
}

proof fn lemma_counts_concat(a: Seq<Node>, b: Seq<Node>)
    ensures
        count_tag_seq(a + b, "w:sectPr"@) == count_tag_seq(a, "w:sectPr"@) + count_tag_seq(b, "w:sectPr"@),
        count_child_seq(a + b, "w:pPr"@, "w:sectPr"@)
            == count_child_seq(a, "w:pPr"@, "w:sectPr"@) + count_child_seq(b, "w:pPr"@, "w:sectPr"@),
    decreases b.len(),
{
    if b.len() == 0 {
        assert(a + b =~= a);
    } else {
        lemma_counts_concat(a, b.drop_last());
        assert((a + b).drop_last() =~= a + b.drop_last());
    }
}

proof fn lemma_counts_zero(s: Seq<Node>)
    requires
        forall|i: int| 0 <= i < s.len() ==> count_tag(#[trigger] s[i], "w:sectPr"@) == 0
            && count_child(s[i], "w:pPr"@, "w:sectPr"@) == 0,
    ensures
        count_tag_seq(s, "w:sectPr"@) == 0,
        count_child_seq(s, "w:pPr"@, "w:sectPr"@) == 0,
    decreases s.len(),
{
    if s.len() > 0 {
        lemma_counts_zero(s.drop_last());
    }
}

proof fn lemma_tag_names()
    ensures
        "w:type"@ != "w:sectPr"@,
        "w:pgSz"@ != "w:sectPr"@,
        "w:pgMar"@ != "w:sectPr"@,
        "w:p"@ != "w:sectPr"@,
        "w:pPr"@ != "w:sectPr"@,
        "w:spacing"@ != "w:sectPr"@,
        "w:rPr"@ != "w:sectPr"@,
        "w:sz"@ != "w:sectPr"@,
        "w:type"@ != "w:pPr"@,
        "w:pgSz"@ != "w:pPr"@,
        "w:pgMar"@ != "w:pPr"@,
        "w:p"@ != "w:pPr"@,
        "w:sectPr"@ != "w:pPr"@,
        "w:spacing"@ != "w:pPr"@,
        "w:rPr"@ != "w:pPr"@,
        "w:sz"@ != "w:pPr"@,
{
    reveal_strlit("w:sectPr");
    reveal_strlit("w:pPr");
    reveal_strlit("w:type");
    reveal_strlit("w:pgSz");
    reveal_strlit("w:pgMar");
    reveal_strlit("w:p");
    reveal_strlit("w:spacing");
    reveal_strlit("w:rPr");
    reveal_strlit("w:sz");
    assert("w:sectPr"@.len() == 8);
    assert("w:pPr"@.len() == 5);
    assert("w:type"@.len() == 6);
    assert("w:pgSz"@.len() == 6);
    assert("w:pgMar"@.len() == 7);
    assert("w:p"@.len() == 3);
    assert("w:spacing"@.len() == 9);
    assert("w:rPr"@.len() == 5);
    assert("w:sz"@.len() == 4);
    assert("w:rPr"@[2] != "w:pPr"@[2]);
}

proof fn lemma_sect_counts(w: int, h: int)
    ensures
        count_tag(sect_node(w, h), "w:sectPr"@) == 1,
        count_child(sect_node(w, h), "w:pPr"@, "w:sectPr"@) == 0,
        count_tag_seq(seq![sect_node(w, h)], "w:sectPr"@) == 1,
        count_child_seq(seq![sect_node(w, h)], "w:pPr"@, "w:sectPr"@) == 0,
{
    lemma_tag_names();
    reveal_with_fuel(count_tag_seq, 4);
    reveal_with_fuel(count_child_seq, 4);
    let sect = sect_node(w, h);
    let sk = sect->kids;
    assert(count_tag(sk[0], "w:sectPr"@) == 0);
    assert(count_tag(sk[1], "w:sectPr"@) == 0);
    assert(count_tag(sk[2], "w:sectPr"@) == 0);
    assert(count_child(sk[0], "w:pPr"@, "w:sectPr"@) == 0);
    assert(count_child(sk[1], "w:pPr"@, "w:sectPr"@) == 0);
    assert(count_child(sk[2], "w:pPr"@, "w:sectPr"@) == 0);
    lemma_counts_zero(sk);
    assert(seq![sect].drop_last() =~= Seq::<Node>::empty());
}

proof fn lemma_page_counts(p: PageRuns, last: bool)
    ensures
        count_tag_seq(page_nodes(p, last), "w:sectPr"@) == 1,
        count_child_seq(page_nodes(p, last), "w:pPr"@, "w:sectPr"@) == if last { 0nat } else { 1nat },
{
    lemma_tag_names();
    reveal_with_fuel(count_tag_seq, 4);
    reveal_with_fuel(count_child_seq, 4);
    reveal_with_fuel(count_direct, 4);
    let sect = sect_node(p.width_twips as int, p.height_twips as int);
    lemma_sect_counts(p.width_twips as int, p.height_twips as int);
    let c = carrier_node(p.runs@, if last { None } else { Some(sect) });
    let ppr = c->kids[0];
    assert(c->kids.drop_last() =~= seq![ppr]);
    assert(seq![ppr].drop_last() =~= Seq::<Node>::empty());
    assert(count_tag(c->kids.last(), "w:sectPr"@) == 0);
    assert(count_child(c->kids.last(), "w:pPr"@, "w:sectPr"@) == 0);
    assert(c->kids.last() is Raw);
    assert(count_tag_seq(seq![ppr], "w:sectPr"@) == count_tag(ppr, "w:sectPr"@));
    assert(count_child_seq(seq![ppr], "w:pPr"@, "w:sectPr"@) == count_child(ppr, "w:pPr"@, "w:sectPr"@));
    assert(count_tag_seq(c->kids, "w:sectPr"@) == count_tag(ppr, "w:sectPr"@));
    assert(count_child_seq(c->kids, "w:pPr"@, "w:sectPr"@) == count_child(ppr, "w:pPr"@, "w:sectPr"@));
    assert(c->tag == "w:p"@);
    let sp = ppr->kids[0];
    let rp = ppr->kids[1];
    assert(count_tag(sp, "w:sectPr"@) == 0);
    assert(count_tag(rp->kids[0], "w:sectPr"@) == 0);
    assert(count_child(sp, "w:pPr"@, "w:sectPr"@) == 0);
    assert(count_child(rp->kids[0], "w:pPr"@, "w:sectPr"@) == 0);
    lemma_counts_zero(rp->kids);
    assert(count_tag(rp, "w:sectPr"@) == 0);
    assert(count_child(rp, "w:pPr"@, "w:sectPr"@) == 0);
    if last {
        assert(ppr->kids =~= seq![sp, rp]);
        lemma_counts_zero(ppr->kids);
        assert(count_tag(ppr, "w:sectPr"@) == 0);
        assert(count_child(ppr, "w:pPr"@, "w:sectPr"@) == 0);
        assert(count_tag(c, "w:sectPr"@) == 0);
        assert(count_child(c, "w:pPr"@, "w:sectPr"@) == 0);
        assert(page_nodes(p, last) =~= seq![c, sect]);
    } else {
        assert(ppr->kids =~= seq![sp, rp, sect]);
        assert(ppr->kids.drop_last() =~= seq![sp, rp]);
        lemma_counts_zero(ppr->kids.drop_last());
        assert(count_tag(ppr, "w:sectPr"@) == 1);
        assert(count_direct(ppr->kids, "w:sectPr"@) == 1);
        assert(count_child(ppr, "w:pPr"@, "w:sectPr"@) == 1);
        assert(count_tag(c, "w:sectPr"@) == 1);
        assert(count_child(c, "w:pPr"@, "w:sectPr"@) == 1);
        assert(page_nodes(p, last) =~= seq![c]);
    }
}

proof fn lemma_upto_counts(pages: Seq<PageRuns>, k: nat)
    requires
        k <= pages.len(),
    ensures
        count_tag_seq(body_nodes_upto(pages, k), "w:sectPr"@) == k,
        count_child_seq(body_nodes_upto(pages, k), "w:pPr"@, "w:sectPr"@)
            == if k == pages.len() && k > 0 { (k - 1) as nat } else { k },
    decreases k,
{
    if k > 0 {
        let last = k == pages.len();
        lemma_upto_counts(pages, (k - 1) as nat);
        lemma_counts_concat(body_nodes_upto(pages, (k - 1) as nat), page_nodes(pages[k - 1], last));
        lemma_page_counts(pages[k - 1], last);
    }
}

/// A document of `n` pages has one section per page: `n` section
/// properties, one in the paragraph properties of the carrier of every page
/// but the last, and the last page's as the last element of the body. A
/// document without pages has a single, A4 section. Drawings, which are
/// written verbatim, are not looked into.
pub proof fn one_section_per_page(pages: Seq<PageRuns>)
    ensures
        count_tag_seq(body_nodes(pages), "w:sectPr"@) == if pages.len() == 0 { 1 } else { pages.len() },
        count_child_seq(body_nodes(pages), "w:pPr"@, "w:sectPr"@) == if pages.len() == 0 { 0 } else { (pages.len() - 1) as nat },
        pages.len() > 0 ==> body_nodes(pages).last()
            == sect_node(pages.last().width_twips as int, pages.last().height_twips as int),
{
    if pages.len() == 0 {
        lemma_sect_counts(A4_WIDTH_TWIPS as int, A4_HEIGHT_TWIPS as int);
    } else {
        lemma_upto_counts(pages, pages.len());
        let n = pages.len();
        assert(body_nodes_upto(pages, n).last() == page_nodes(pages[n - 1], true).last());
    }
}


/// What kind of thing a placed item of a page is.
#[derive(Clone, Copy, PartialEq, Eq, Debug, Structural)]
pub enum ItemKind {
    Text,
    Shape,
    Image,
}

/// `r` cuts the items of a page, in order, into the batches they are
/// rendered in: each run of consecutive text items, taken whole, is one
/// batch, so that its segments can merge; every shape or image is a batch
/// of its own. A batch is the half-open range of item indices it covers.
pub open spec fn batched(kinds: Seq<ItemKind>, r: Seq<(usize, usize)>) -> bool {
    &&& (r.len() == 0 <==> kinds.len() == 0)
    &&& r.len() > 0 ==> r[0].0 == 0 && r.last().1 == kinds.len()
    &&& forall|k: int| 0 <= k < r.len() ==> (#[trigger] r[k]).0 < r[k].1 <= kinds.len()
    &&& forall|k: int| #![trigger r[k]] 0 <= k < r.len() - 1 ==> r[k].1 == r[k + 1].0
    &&& forall|k: int, x: int| 0 <= k < r.len() && r[k].0 <= x < r[k].1
            ==> (#[trigger] kinds[x] == ItemKind::Text <==> (#[trigger] r[k]).0 < kinds.len() && kinds[r[k].0 as int] == ItemKind::Text)
    &&& forall|k: int| 0 <= k < r.len() && kinds[(#[trigger] r[k]).0 as int] != ItemKind::Text ==> r[k].1 == r[k].0 + 1
    &&& forall|k: int| 0 <= k < r.len() && kinds[(#[trigger] r[k]).0 as int] == ItemKind::Text && r[k].1 < kinds.len()
            ==> kinds[r[k].1 as int] != ItemKind::Text
}

/// Cut the items of a page into the batches they are rendered in.
pub fn batches(kinds: &Vec<ItemKind>) -> (r: Vec<(usize, usize)>)
    ensures
        batched(kinds@, r@),
{
    let n = kinds.len();
    let mut r: Vec<(usize, usize)> = Vec::new();
    let mut i: usize = 0;
    while i < n
        invariant
            n == kinds@.len(),
            i <= n,
            (r@.len() == 0 <==> i == 0),
            r@.len() > 0 ==> r@[0].0 == 0 && r@.last().1 == i,
            forall|k: int| 0 <= k < r@.len() ==> (#[trigger] r@[k]).0 < r@[k].1 <= i,
            forall|k: int| #![trigger r@[k]] 0 <= k < r@.len() - 1 ==> r@[k].1 == r@[k + 1].0,
            forall|k: int, x: int| 0 <= k < r@.len() && r@[k].0 <= x < r@[k].1
                ==> (#[trigger] kinds@[x] == ItemKind::Text <==> (#[trigger] r@[k]).0 < kinds@.len() && kinds@[r@[k].0 as int] == ItemKind::Text),
            forall|k: int| 0 <= k < r@.len() && kinds@[(#[trigger] r@[k]).0 as int] != ItemKind::Text ==> r@[k].1 == r@[k].0 + 1,
            forall|k: int| 0 <= k < r@.len() && kinds@[(#[trigger] r@[k]).0 as int] == ItemKind::Text && r@[k].1 < n
                ==> kinds@[r@[k].1 as int] != ItemKind::Text,
        decreases n - i,
    {
        let text = kinds[i] == ItemKind::Text;
        let mut j: usize = i + 1;
        if text {
            while j < n && kinds[j] == ItemKind::Text
                invariant
                    n == kinds@.len(),
                    i < j <= n,
                    forall|x: int| i <= x < j ==> kinds@[x] == ItemKind::Text,
                decreases n - j,
            {
                j = j + 1;
            }
        }
        let ghost r0 = r@;
        r.push((i, j));
        proof {
            assert(r@ == r0.push((i, j)));
            assert forall|k: int, x: int| 0 <= k < r@.len() && r@[k].0 <= x < r@[k].1
                implies (#[trigger] kinds@[x] == ItemKind::Text <==> (#[trigger] r@[k]).0 < kinds@.len() && kinds@[r@[k].0 as int] == ItemKind::Text) by {
                if k < r0.len() {
                    assert(r@[k] == r0[k]);
                }
            }
        }
        i = j;
    }
    r
}

} // verus!
