//! A visually faithful DOCX exporter: the verified core.
//!
//! This crate holds the logic that turns already laid-out, already measured
//! page content into an OOXML WordprocessingML package: the XML builder, the
//! document parts, the section and carrier structure of the body, font
//! registration and ODTTF obfuscation, media registration, and the ZIP
//! packaging.

pub mod args;
pub mod xml;
pub mod parse;
pub mod font;
pub mod image;
pub mod package;
pub mod paint;
pub mod shape;
pub mod page;
pub mod text;

use vstd::prelude::*;

use crate::font::{FontCollection, FontFace, FontRef, FontsView};
use crate::image::{ImageSource, MediaCollection, MediaState};
use crate::package::PackError;
use crate::page::PageRuns;


verus! {

/// The result of exporting a document.
pub struct DocxOutput {
    /// The bytes of the `.docx` file.
    pub bytes: Vec<u8>,
    /// Non-fatal problems encountered during export.
    pub warnings: Vec<String>,
}

/// The texts of a list of strings.
pub open spec fn texts(v: Seq<String>) -> Seq<Seq<char>> {
    v.map_values(|s: String| s@)
}

/// Whether no text occurs twice.
pub open spec fn distinct_texts(v: Seq<Seq<char>>) -> bool {
    forall|i: int, j: int| 0 <= i < j < v.len() ==> v[i] != v[j]
}

/// The warnings after `m` is recorded: identical messages are kept once.
pub open spec fn with_warning(w: Seq<Seq<char>>, m: Seq<char>) -> Seq<Seq<char>> {
    if w.contains(m) { w } else { w.push(m) }
}

/// The warnings after each of `ms` is recorded in order.
pub open spec fn with_warnings(w: Seq<Seq<char>>, ms: Seq<Seq<char>>) -> Seq<Seq<char>>
    decreases ms.len(),
{
    if ms.len() == 0 {
        w
    } else {
        with_warning(with_warnings(w, ms.drop_last()), ms.last())
    }
}

/// A recorded message stays recorded, and recording a message that is
/// already recorded changes nothing: warnings are deduplicated.
pub proof fn warning_recorded_once(w: Seq<Seq<char>>, m: Seq<char>)
    ensures
        with_warning(w, m).contains(m),
        with_warning(with_warning(w, m), m) == with_warning(w, m),
        forall|x: Seq<char>| w.contains(x) ==> with_warning(w, m).contains(x),
        distinct_texts(w) ==> distinct_texts(with_warning(w, m)),
{
    if !w.contains(m) {
        assert(w.push(m)[w.len() as int] == m);
        assert forall|x: Seq<char>| w.contains(x) implies w.push(m).contains(x) by {
            let k = choose|k: int| 0 <= k < w.len() && w[k] == x;
            assert(w.push(m)[k] == x);
        }
        if distinct_texts(w) {
            assert forall|i: int, j: int| 0 <= i < j < w.push(m).len() implies w.push(m)[i] != w.push(m)[j] by {
                if j == w.len() {
                    assert(w[i] == w.push(m)[i]);
                }
            }
        }
    }
}

/// `ms` followed by `m` records `ms`, then `m`.
pub proof fn with_warnings_push(w: Seq<Seq<char>>, ms: Seq<Seq<char>>, m: Seq<char>)
    ensures
        with_warnings(w, ms.push(m)) == with_warning(with_warnings(w, ms), m),
        with_warnings(w, Seq::empty()) == w,
{
    assert(ms.push(m).drop_last() =~= ms);
}

/// Recording `a` and then `b` records `a + b`.
pub proof fn with_warnings_concat(w: Seq<Seq<char>>, a: Seq<Seq<char>>, b: Seq<Seq<char>>)
    ensures
        with_warnings(w, a + b) == with_warnings(with_warnings(w, a), b),
    decreases b.len(),
{
    if b.len() == 0 {
        assert(a + b =~= a);
    } else {
        with_warnings_concat(w, a, b.drop_last());
        assert((a + b).drop_last() =~= a + b.drop_last());
    }
}

/// `ms` optionally followed by `m`.
pub open spec fn push_if(ms: Seq<Seq<char>>, cond: bool, m: Seq<char>) -> Seq<Seq<char>> {
    if cond { ms.push(m) } else { ms }
}

/// `b` differs from `a` only in its warnings, which are now `w`.
pub open spec fn only_warned(a: Exporter, b: Exporter, w: Seq<Seq<char>>) -> bool {
    &&& b.wf()
    &&& b.fonts_view() == a.fonts_view()
    &&& b.media_view() == a.media_view()
    &&& b.last_docpr() == a.last_docpr()
    &&& b.last_rel_height() == a.last_rel_height()
    &&& b.warning_texts() == w
}

/// Shared state accumulated over the whole export.
pub struct Exporter {
    pub(crate) fonts: FontCollection,
    pub(crate) media: MediaCollection,
    warnings: Vec<String>,
    /// The last `wp:docPr` id handed out. Ids must be unique in the document.
    docpr_id: u32,
    /// The last `relativeHeight` handed out. Higher values are drawn on top.
    rel_height: u32,
}

/// The `relativeHeight` below the first one handed out.
pub open spec fn base_rel_height() -> u32 {
    251658240
}

impl Exporter {
    /// The last `wp:docPr` id handed out (0 before the first).
    pub closed spec fn last_docpr(&self) -> u32 {
        self.docpr_id
    }

    /// The last `relativeHeight` handed out.
    pub closed spec fn last_rel_height(&self) -> u32 {
        self.rel_height
    }

    /// The warnings recorded so far, in order.
    pub closed spec fn warning_texts(&self) -> Seq<Seq<char>> {
        texts(self.warnings@)
    }

    /// The fonts registered so far.
    pub closed spec fn fonts_view(&self) -> FontsView {
        self.fonts@
    }

    /// The media registered so far.
    pub closed spec fn media_view(&self) -> MediaState {
        self.media@
    }

    pub closed spec fn wf(&self) -> bool {
        &&& distinct_texts(self.warning_texts())
        &&& self.fonts.wf()
        &&& self.media.wf()
    }

    pub fn new() -> (r: Self)
        ensures
            r.wf(),
            r.warning_texts().len() == 0,
            r.last_docpr() == 0,
            r.last_rel_height() == base_rel_height(),
            r.fonts_view() == FontCollection::empty_view(),
            r.media_view().results == Map::<u64, Option<usize>>::empty(),
            r.media_view().items.len() == 0,
    {
        let r = Exporter {
            fonts: FontCollection::new(),
            media: MediaCollection::new(),
            warnings: Vec::new(),
            docpr_id: 0,
            rel_height: 251658240,
        };
        assert(r.warning_texts() =~= Seq::<Seq<char>>::empty());
        r
    }

    /// The exporter never holds the same warning twice.
    pub proof fn warnings_are_distinct(&self)
        requires
            self.wf(),
        ensures
            distinct_texts(self.warning_texts()),
    {
    }

    /// Record a warning. Identical messages are deduplicated.
    pub fn warn(&mut self, message: String)
        requires old(self).wf(),
        ensures
            final(self).wf(),
            final(self).fonts_view() == old(self).fonts_view(),
            final(self).media_view() == old(self).media_view(),
            final(self).last_docpr() == old(self).last_docpr(),
            final(self).last_rel_height() == old(self).last_rel_height(),
            final(self).warning_texts() == with_warning(old(self).warning_texts(), message@),
    {
        let mut i: usize = 0;
        let ghost w = self.warning_texts();
        while i < self.warnings.len()
            invariant
                i <= self.warnings@.len(),
                w == self.warning_texts(),
                self.wf(),
                forall|k: int| 0 <= k < i ==> w[k] != message@,
            decreases self.warnings@.len() - i,
        {
            if self.warnings[i] == message {
                assert(w[i as int] == message@);
                return;
            }
            i = i + 1;
        }
        proof {
            assert(!w.contains(message@)) by {
                if w.contains(message@) {
                    let k = choose|k: int| 0 <= k < w.len() && w[k] == message@;
                }
            }
        }
        self.warnings.push(message);
        proof {
            assert(self.warning_texts() =~= w.push(message@));
        }
    }

    /// Record a warning given as text.
    pub fn warn_str(&mut self, message: &str)
        requires old(self).wf(),
        ensures
            final(self).wf(),
            final(self).fonts_view() == old(self).fonts_view(),
            final(self).media_view() == old(self).media_view(),
            final(self).last_docpr() == old(self).last_docpr(),
            final(self).last_rel_height() == old(self).last_rel_height(),
            final(self).warning_texts() == with_warning(old(self).warning_texts(), message@),
    {
        self.warn(message.to_owned());
    }

    /// Record several warnings in order.
    pub fn warn_all(&mut self, messages: Vec<String>)
        requires old(self).wf(),
        ensures
            final(self).wf(),
            final(self).fonts_view() == old(self).fonts_view(),
            final(self).media_view() == old(self).media_view(),
            final(self).last_docpr() == old(self).last_docpr(),
            final(self).last_rel_height() == old(self).last_rel_height(),
            final(self).warning_texts() == with_warnings(old(self).warning_texts(), texts(messages@)),
    {
        let mut i: usize = 0;
        while i < messages.len()
            invariant
                i <= messages@.len(),
                self.wf(),
                self.fonts_view() == old(self).fonts_view(),
                self.media_view() == old(self).media_view(),
                self.last_docpr() == old(self).last_docpr(),
                self.last_rel_height() == old(self).last_rel_height(),
                self.warning_texts() == with_warnings(old(self).warning_texts(), texts(messages@).take(i as int)),
            decreases messages@.len() - i,
        {
            self.warn(messages[i].clone());
            i = i + 1;
            assert(texts(messages@).take(i as int).drop_last() =~= texts(messages@).take(i - 1));
        }
        assert(texts(messages@).take(i as int) =~= texts(messages@));
    }

    /// Resolve how runs should reference a font face, registering it for
    /// embedding and recording the warnings that raises.
    pub fn font_ref(&mut self, face: &FontFace) -> (r: FontRef)
        requires old(self).wf(),
        ensures
            final(self).wf(),
            crate::font::registered(old(self).fonts_view(), final(self).fonts_view(), face, r@),
            final(self).warning_texts() == with_warnings(old(self).warning_texts(),
                crate::font::new_messages(old(self).fonts_view(), face)),
            final(self).media_view() == old(self).media_view(),
            final(self).last_docpr() == old(self).last_docpr(),
            final(self).last_rel_height() == old(self).last_rel_height(),
    {
        let (r, msgs) = self.fonts.register(face);
        self.warn_all(msgs);
        r
    }

    /// Register an image in the media collection. Returns its index, or
    /// `None` (with a warning) if the image kind cannot be embedded.
    pub fn media_index(&mut self, image: &ImageSource) -> (r: Option<usize>)
        requires old(self).wf(),
        ensures
            final(self).wf(),
            final(self).fonts_view() == old(self).fonts_view(),
            final(self).last_docpr() == old(self).last_docpr(),
            final(self).last_rel_height() == old(self).last_rel_height(),
            r == crate::image::registration(old(self).media_view(), *image).0,
            final(self).media_view() == crate::image::registration(old(self).media_view(), *image).1,
            final(self).warning_texts() == match crate::image::registration(old(self).media_view(), *image).2 {
                Some(w) => with_warning(old(self).warning_texts(), w),
                None => old(self).warning_texts(),
            },
    {
        let ghost m0 = self.media_view();
        let (r, w) = self.media.register(image);
        proof {
            if crate::image::cached_result(m0.results, image.id) is None {
                assert(self.media_view() =~= crate::image::registration(m0, *image).1);
            }
        }
        match w {
            Some(message) => self.warn_str(message),
            None => {},
        }
        r
    }

    /// The fonts of the document.
    pub fn fonts(&self) -> (r: &FontCollection)
        ensures
            r@ == self.fonts_view(),
            self.wf() ==> r.wf(),
    {
        &self.fonts
    }

    /// The media files of the document.
    pub fn media(&self) -> (r: &MediaCollection)
        ensures
            r@ == self.media_view(),
            self.wf() ==> r.wf(),
    {
        &self.media
    }

    /// The warnings recorded, in order.
    pub fn warnings(&self) -> (r: &Vec<String>)
        ensures texts(r@) == self.warning_texts(),
    {
        &self.warnings
    }

    /// The last `wp:docPr` id handed out (0 before the first).
    pub fn docpr_id(&self) -> (r: u32)
        ensures r == self.last_docpr(),
    {
        self.docpr_id
    }

    /// The last z-order value handed out.
    pub fn rel_height(&self) -> (r: u32)
        ensures r == self.last_rel_height(),
    {
        self.rel_height
    }

    /// The next unique `wp:docPr` id.
    pub fn next_docpr(&mut self) -> (id: u32)
        requires old(self).last_docpr() < u32::MAX,
        ensures
            id == old(self).last_docpr() + 1,
            final(self).last_docpr() == id,
            final(self).last_rel_height() == old(self).last_rel_height(),
            final(self).warning_texts() == old(self).warning_texts(),
            final(self).fonts_view() == old(self).fonts_view(),
            final(self).media_view() == old(self).media_view(),
    {
        self.docpr_id = self.docpr_id + 1;
        self.docpr_id
    }

    /// The next z-order value, increasing in paint order.
    pub fn next_rel_height(&mut self) -> (z: u32)
        requires old(self).last_rel_height() < u32::MAX,
        ensures
            z == old(self).last_rel_height() + 1,
            final(self).last_rel_height() == z,
            final(self).last_docpr() == old(self).last_docpr(),
            final(self).warning_texts() == old(self).warning_texts(),
            final(self).fonts_view() == old(self).fonts_view(),
            final(self).media_view() == old(self).media_view(),
    {
        self.rel_height = self.rel_height + 1;
        self.rel_height
    }
}

/// The bytes of the `.docx` file for the given fonts, media and pages.
pub open spec fn docx_bytes(fonts: FontsView, media: MediaState, pages: Seq<PageRuns>) -> Seq<u8> {
    crate::package::zip_archive(crate::package::package_entries(fonts, media, xml::ser_seq(crate::page::body_nodes(pages))))
}

/// Whether every file of the package for the given fonts, media and pages
/// fits the ZIP writer.
pub open spec fn docx_fits(fonts: FontsView, media: MediaState, pages: Seq<PageRuns>) -> bool {
    crate::package::zip_entries_fit(crate::package::package_entries(fonts, media, xml::ser_seq(crate::page::body_nodes(pages))))
}

/// `out` is what exporting `pages` with `exporter` gives: the file's bytes
/// and the warnings the exporter collected.
pub open spec fn docx_output(exporter: Exporter, pages: Seq<PageRuns>, out: DocxOutput) -> bool {
    &&& out.bytes@ == docx_bytes(exporter.fonts_view(), exporter.media_view(), pages)
    &&& texts(out.warnings@) == exporter.warning_texts()
}

/// Assemble the `.docx` file from the rendered pages, with the fonts,
/// media and warnings the exporter collected while they were rendered. It
/// succeeds whenever every file of the package fits the ZIP writer.
pub fn docx(exporter: Exporter, pages: &Vec<PageRuns>) -> (r: Result<DocxOutput, PackError>)
    requires
        exporter.wf(),
    ensures
        r matches Ok(out) ==> docx_output(exporter, pages@, out),
        docx_fits(exporter.fonts_view(), exporter.media_view(), pages@) ==> r is Ok,
{
    let body = page::body(pages);
    let bytes = package::pack(&exporter, body.as_str())?;
    Ok(DocxOutput { bytes, warnings: exporter.warnings })
}

/// Exporting is deterministic: exporters that collected the same fonts,
/// media and warnings, given pages of the same sizes and runs, give
/// byte-identical files and the same warnings, and either both fit the
/// ZIP writer or neither does.
pub proof fn export_is_deterministic(a: Exporter, b: Exporter, pa: Seq<PageRuns>, pb: Seq<PageRuns>,
    oa: DocxOutput, ob: DocxOutput)
    requires
        a.fonts_view() == b.fonts_view(),
        a.media_view() == b.media_view(),
        a.warning_texts() == b.warning_texts(),
        pa.map_values(|p: PageRuns| page::page_view(p)) == pb.map_values(|p: PageRuns| page::page_view(p)),
        docx_output(a, pa, oa),
        docx_output(b, pb, ob),
    ensures
        oa.bytes@ == ob.bytes@,
        texts(oa.warnings@) == texts(ob.warnings@),
        docx_fits(a.fonts_view(), a.media_view(), pa) == docx_fits(b.fonts_view(), b.media_view(), pb),
{
    page::lemma_body_nodes_by_view(pa, pb);
}

} // verus!
