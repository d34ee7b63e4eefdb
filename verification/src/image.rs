//! Anchored raster images.

use vstd::prelude::*;

use std::collections::HashMap;

use crate::shape;
use crate::xml;
use crate::xml::{concat, nat_string, Anchor, Ctx, Node, Xml, NS_PIC};
use crate::{with_warning, with_warnings, with_warnings_push, push_if, Exporter};

verus! {

broadcast use {vstd::seq::group_seq_axioms, vstd::std_specs::hash::group_hash_axioms};

/// What an image holds, as far as the exporter cares.
pub enum ImageKind {
    /// An encoded PNG file.
    Png(Vec<u8>),
    /// An encoded JPEG file.
    Jpg(Vec<u8>),
    /// An encoded GIF file.
    Gif(Vec<u8>),
    /// An encoded WebP file.
    Webp(Vec<u8>),
    /// Raw pixels without an exchange format.
    Pixel,
    /// An SVG image.
    Svg,
    /// A PDF page.
    Pdf,
}

/// An image of the document.
pub struct ImageSource {
    /// Identifies the image: equal ids mean the same image.
    pub id: u64,
    pub kind: ImageKind,
}

/// A media file stored in the package.
pub struct Media {
    pub data: Vec<u8>,
    pub ext: &'static str,
    pub content_type: &'static str,
}

/// Collects all image files referenced by the document.
pub struct MediaCollection {
    /// Cache of per-image registration results.
    map: HashMap<u64, Option<usize>>,
    /// Registered media files, in order (`media/image{i+1}.{ext}`).
    items: Vec<Media>,
}

/// The abstract value of a media file: data, extension, content type.
pub type MediaView = (Seq<u8>, Seq<char>, Seq<char>);

/// The abstract state of the media collection.
pub struct MediaState {
    /// Registration results by image id.
    pub results: Map<u64, Option<usize>>,
    /// The media files, in order.
    pub items: Seq<MediaView>,
}

/// The registration result cached for an image id, if any.
pub open spec fn cached_result(results: Map<u64, Option<usize>>, id: u64) -> Option<Option<usize>> {
    if results.contains_key(id) {
        Some(results[id])
    } else {
        None
    }
}

/// The file an image kind is stored as: its bytes, extension and content
/// type, for the four exchange formats.
pub open spec fn stored_as(k: ImageKind) -> Option<MediaView> {
    match k {
        ImageKind::Png(d) => Some((d@, "png"@, "image/png"@)),
        ImageKind::Jpg(d) => Some((d@, "jpg"@, "image/jpeg"@)),
        ImageKind::Gif(d) => Some((d@, "gif"@, "image/gif"@)),
        ImageKind::Webp(d) => Some((d@, "webp"@, "image/webp"@)),
        _ => None,
    }
}

/// The warning an image kind raises when it is registered, if any.
pub open spec fn kind_warning(k: ImageKind) -> Option<Seq<char>> {
    match k {
        ImageKind::Webp(_) => Some("WebP images are embedded as-is; some Word versions cannot display them"@),
        ImageKind::Pixel => Some("raw pixel images are not supported and were skipped"@),
        ImageKind::Svg => Some("SVG images are not supported and were skipped"@),
        ImageKind::Pdf => Some("PDF images are not supported and were skipped"@),
        _ => None,
    }
}

/// The outcome of registering an image with the media in state `m`: its
/// file index (`None` if it cannot be embedded), the media afterwards, and
/// the warning raised, if any. An image registered before gives its cached
/// index again and changes nothing.
pub open spec fn registration(m: MediaState, image: ImageSource) -> (Option<usize>, MediaState, Option<Seq<char>>) {
    match cached_result(m.results, image.id) {
        Some(c) => (c, m, None),
        None => {
            let r = match stored_as(image.kind) {
                Some(_) => Some(m.items.len() as usize),
                None => None,
            };
            let items = match stored_as(image.kind) {
                Some(v) => m.items.push(v),
                None => m.items,
            };
            (r, MediaState { results: m.results.insert(image.id, r), items }, kind_warning(image.kind))
        },
    }
}

/// Registering an image a second time gives the index it got the first
/// time, raises no warning and changes nothing.
pub proof fn registration_is_cached(m: MediaState, image: ImageSource)
    ensures
        registration(registration(m, image).1, image)
            == (registration(m, image).0, registration(m, image).1, None::<Seq<char>>),
{
    let (r1, m1, w1) = registration(m, image);
    if cached_result(m.results, image.id) is None {
        assert(m1.results.contains_key(image.id));
    }
}

/// The distinct (extension, content type) pairs of `items`, in order of
/// first occurrence.
pub open spec fn distinct_types(items: Seq<MediaView>) -> Seq<(Seq<char>, Seq<char>)>
    decreases items.len(),
{
    if items.len() == 0 {
        Seq::empty()
    } else {
        let prev = distinct_types(items.drop_last());
        let t = (items.last().1, items.last().2);
        if prev.contains(t) { prev } else { prev.push(t) }
    }
}

/// Every media file's (extension, content type) pair is declared, and no
/// pair is declared twice.
pub proof fn media_types_declared(items: Seq<MediaView>)
    ensures
        forall|i: int| 0 <= i < items.len() ==> distinct_types(items).contains((#[trigger] items[i].1, items[i].2)),
        forall|a: int, b: int| 0 <= a < b < distinct_types(items).len()
            ==> distinct_types(items)[a] != distinct_types(items)[b],
    decreases items.len(),
{
    if items.len() > 0 {
        let p = items.drop_last();
        media_types_declared(p);
        let prev = distinct_types(p);
        let t = (items.last().1, items.last().2);
        let d = distinct_types(items);
        assert forall|i: int| 0 <= i < items.len() implies d.contains((#[trigger] items[i].1, items[i].2)) by {
            if i < items.len() - 1 {
                assert(items[i] == p[i]);
                assert(prev.contains((p[i].1, p[i].2)));
                if !prev.contains(t) {
                    let k = choose|k: int| 0 <= k < prev.len() && prev[k] == (p[i].1, p[i].2);
                    assert(d[k] == prev[k]);
                }
            } else {
                if !prev.contains(t) {
                    assert(d[prev.len() as int] == t);
                }
            }
        }
        if !prev.contains(t) {
            assert forall|a: int, b: int| 0 <= a < b < d.len() implies d[a] != d[b] by {
                if b == prev.len() {
                    assert(d[a] == prev[a]);
                }
            }
        }
    }
}

impl View for MediaCollection {
    type V = MediaState;

    closed spec fn view(&self) -> MediaState {
        MediaState {
            results: self.map@,
            items: self.items@.map_values(|m: Media| (m.data@, m.ext@, m.content_type@)),
        }
    }
}

/// Every cached index names a file.
pub open spec fn media_wf(v: MediaState) -> bool {
    forall|id: u64| #[trigger] v.results.contains_key(id) ==> (v.results[id] matches Some(k) ==> k < v.items.len())
}

fn copy_bytes(d: &Vec<u8>) -> (r: Vec<u8>)
    ensures r@ == d@,
{
    vstd::slice::slice_to_vec(d.as_slice())
}

impl MediaCollection {
    pub open spec fn wf(&self) -> bool {
        media_wf(self@)
    }

    pub fn new() -> (r: Self)
        ensures
            r.wf(),
            r@.results == Map::<u64, Option<usize>>::empty(),
            r@.items.len() == 0,
    {
        let r = MediaCollection { map: HashMap::new(), items: Vec::new() };
        assert(r@.items =~= Seq::<MediaView>::empty());
        r
    }

    /// The media files, in order.
    pub fn items(&self) -> (r: &Vec<Media>)
        ensures r@.map_values(|m: Media| (m.data@, m.ext@, m.content_type@)) == self@.items,
    {
        &self.items
    }

    /// The distinct (extension, content type) pairs of all media files.
    pub fn content_types(&self) -> (r: Vec<(&'static str, &'static str)>)
        ensures r@.map_values(|p: (&'static str, &'static str)| (p.0@, p.1@)) == distinct_types(self@.items),
    {
        let mut seen: Vec<(&'static str, &'static str)> = Vec::new();
        let ghost items = self@.items;
        let mut i: usize = 0;
        while i < self.items.len()
            invariant
                i <= self.items@.len(),
                items == self@.items,
                items.len() == self.items@.len(),
                seen@.map_values(|p: (&'static str, &'static str)| (p.0@, p.1@)) == distinct_types(items.take(i as int)),
            decreases self.items@.len() - i,
        {
            let m = &self.items[i];
            let ghost prev = seen@.map_values(|p: (&'static str, &'static str)| (p.0@, p.1@));
            let mut found = false;
            let mut k: usize = 0;
            while k < seen.len()
                invariant
                    k <= seen@.len(),
                    prev == seen@.map_values(|p: (&'static str, &'static str)| (p.0@, p.1@)),
                    found <==> exists|j: int| 0 <= j < k && prev[j] == (m.ext@, m.content_type@),
                decreases seen@.len() - k,
            {
                let (e, c) = seen[k];
                assert(prev[k as int] == (e@, c@));
                if crate::font::str_eq(e, m.ext) && crate::font::str_eq(c, m.content_type) {
                    found = true;
                }
                k = k + 1;
            }
            proof {
                assert(items.take(i + 1).drop_last() =~= items.take(i as int));
                assert(items[i as int] == (m.data@, m.ext@, m.content_type@));
                assert(found <==> prev.contains((m.ext@, m.content_type@)));
            }
            if !found {
                seen.push((m.ext, m.content_type));
                assert(seen@.map_values(|p: (&'static str, &'static str)| (p.0@, p.1@)) =~= prev.push((m.ext@, m.content_type@)));
            }
            i = i + 1;
        }
        assert(items.take(i as int) =~= items);
        seen
    }

    /// Register an image. Returns its file index, or `None` if the image
    /// kind cannot be embedded, and the warning that raises, if any.
    pub fn register(&mut self, image: &ImageSource) -> (r: (Option<usize>, Option<&'static str>))
        requires old(self).wf(),
        ensures
            final(self).wf(),
            cached_result(old(self)@.results, image.id) matches Some(c) ==> {
                &&& r.0 == c
                &&& r.1 is None
                &&& final(self)@ == old(self)@
            },
            cached_result(old(self)@.results, image.id) is None ==> {
                &&& final(self)@.items == match stored_as(image.kind) {
                        Some(m) => old(self)@.items.push(m),
                        None => old(self)@.items,
                    }
                &&& r.0 == match stored_as(image.kind) {
                        Some(_) => Some(old(self)@.items.len() as usize),
                        None => None::<usize>,
                    }
                &&& final(self)@.results == old(self)@.results.insert(image.id, r.0)
                &&& (r.1 matches Some(w) ==> kind_warning(image.kind) == Some(w@))
                &&& (r.1 is None ==> kind_warning(image.kind) is None)
            },
    {
        match self.map.get(&image.id) {
            Some(c) => return (*c, None),
            None => {},
        }
        let ghost v0 = self@;
        let (result, warning): (Option<usize>, Option<&'static str>) = match &image.kind {
            ImageKind::Png(d) => {
                self.items.push(Media { data: copy_bytes(d), ext: "png", content_type: "image/png" });
                (Some(self.items.len() - 1), None)
            },
            ImageKind::Jpg(d) => {
                self.items.push(Media { data: copy_bytes(d), ext: "jpg", content_type: "image/jpeg" });
                (Some(self.items.len() - 1), None)
            },
            ImageKind::Gif(d) => {
                self.items.push(Media { data: copy_bytes(d), ext: "gif", content_type: "image/gif" });
                (Some(self.items.len() - 1), None)
            },
            ImageKind::Webp(d) => {
                self.items.push(Media { data: copy_bytes(d), ext: "webp", content_type: "image/webp" });
                (Some(self.items.len() - 1), Some("WebP images are embedded as-is; some Word versions cannot display them"))
            },
            ImageKind::Pixel => (None, Some("raw pixel images are not supported and were skipped")),
            ImageKind::Svg => (None, Some("SVG images are not supported and were skipped")),
            ImageKind::Pdf => (None, Some("PDF images are not supported and were skipped")),
        };
        let ghost v1 = self@;
        proof {
            match stored_as(image.kind) {
                Some(m) => { assert(v1.items =~= v0.items.push(m)); },
                None => { assert(v1.items =~= v0.items); },
            }
        }
        self.map.insert(image.id, result);
        proof {
            assert(self@.items == v1.items);
            assert(self@.results =~= v0.results.insert(image.id, result));
        }
        (result, warning)
    }
}

/// Where an image goes on the page.
pub struct ImagePlacement {
    /// Page offset of the box in EMU.
    pub x: i64,
    pub y: i64,
    /// Box extent in EMU.
    pub cx: i64,
    pub cy: i64,
    /// Rotation in 60000ths of a degree, if any.
    pub rot: Option<i64>,
    /// Whether the transform was a skew or non-uniform scale, of which only
    /// the translation was kept.
    pub skewed: bool,
}

/// The `pic:pic` fragment of media file `index`, drawn as `i{id}`.
pub open spec fn pic_node(id: int, index: int, rot: Option<i64>, cx: int, cy: int) -> Node {
    xml::el("pic:pic"@, seq![], seq![
        xml::el("pic:nvPicPr"@, seq![], seq![
            xml::el("pic:cNvPr"@, seq![xml::ai("id"@, id), xml::a_s("name"@, "i"@ + xml::decimal(id))], seq![]),
            shape::leaf_node("pic:cNvPicPr"@),
        ]),
        xml::el("pic:blipFill"@, seq![], seq![
            xml::el("a:blip"@, seq![xml::a_s("r:embed"@, "rIdImg"@ + xml::decimal(index + 1))], seq![]),
            xml::el("a:stretch"@, seq![], seq![shape::leaf_node("a:fillRect"@)]),
        ]),
        xml::el("pic:spPr"@, seq![], seq![
            shape::xfrm_node(rot, cx, cy),
            shape::prst_rect_node(),
        ]),
    ])
}

pub open spec fn image_skew_message() -> Seq<char> {
    "skewed or non-uniformly scaled images are not supported; only their translation is applied"@
}

/// The warnings after registering an image that raised `w`.
pub open spec fn after_registration(warnings: Seq<Seq<char>>, w: Option<Seq<char>>) -> Seq<Seq<char>> {
    match w {
        Some(m) => with_warning(warnings, m),
        None => warnings,
    }
}

fn pic(id: u32, index: usize, rot: Option<i64>, cx: i64, cy: i64) -> (r: String)
    requires
        index < usize::MAX,
    ensures
        r@ == xml::ser(pic_node(id as int, index as int, rot, cx as int, cy as int)),
{
    let ghost node = pic_node(id as int, index as int, rot, cx as int, cy as int);
    let ids = nat_string(id as u64);
    let name = concat("i", ids.as_str());
    let n = nat_string(index as u64 + 1);
    let embed = concat("rIdImg", n.as_str());
    proof {
        reveal_strlit("i");
        reveal_strlit("rIdImg");
    }
    let mut x = Xml::new();
    x.begin("pic:pic");
    x.begin("pic:nvPicPr");
    x.begin("pic:cNvPr").attr_int("id", id as i64).attr("name", name.as_str());
    proof {
        assert(x@->attrs =~= node->kids[0]->kids[0]->attrs);
        assert(x@->kids =~= Seq::<Node>::empty());
    }
    x.end();
    x.leaf("pic:cNvPicPr");
    proof { assert(x@->kids =~~= node->kids[0]->kids); }
    x.end();
    x.begin("pic:blipFill");
    x.begin("a:blip").attr("r:embed", embed.as_str());
    proof {
        assert(x@->attrs =~= node->kids[1]->kids[0]->attrs);
        assert(x@->kids =~= Seq::<Node>::empty());
    }
    x.end();
    x.begin("a:stretch").leaf("a:fillRect");
    proof { assert(x@->kids =~~= node->kids[1]->kids[1]->kids); }
    x.end();
    proof { assert(x@->kids =~~= node->kids[1]->kids); }
    x.end();
    x.begin("pic:spPr");
    shape::xfrm(&mut x, rot, cx, cy);
    x.begin("a:prstGeom").attr("prst", "rect").leaf("a:avLst");
    proof {
        assert(x@->attrs =~= seq![xml::a_s("prst"@, "rect"@)]);
        assert(x@->kids =~= seq![shape::leaf_node("a:avLst"@)]);
    }
    x.end();
    proof { assert(x@->kids =~~= node->kids[2]->kids); }
    x.end();
    proof {
        assert(x@->kids =~~= node->kids);
        assert(x@->attrs =~= node->attrs);
    }
    x.end();
    proof {
        assert(x@ =~~= Ctx::Top(seq![node]));
        xml::lemma_ser_single(node);
    }
    x.finish()
}

/// Render an image placed on the page as an anchored picture. An image
/// that cannot be embedded is skipped (with the warning its registration
/// raised).
pub fn render(exporter: &mut Exporter, image: &ImageSource, place: &ImagePlacement) -> (r: String)
    requires
        old(exporter).wf(),
        old(exporter).last_docpr() < u32::MAX,
        old(exporter).last_rel_height() < u32::MAX,
    ensures
        final(exporter).wf(),
        final(exporter).fonts_view() == old(exporter).fonts_view(),
        final(exporter).media_view() == registration(old(exporter).media_view(), *image).1,
        match registration(old(exporter).media_view(), *image).0 {
            None => {
                &&& final(exporter).warning_texts() == after_registration(old(exporter).warning_texts(),
                        registration(old(exporter).media_view(), *image).2)
                &&& final(exporter).last_docpr() == old(exporter).last_docpr()
                &&& final(exporter).last_rel_height() == old(exporter).last_rel_height()
                &&& r@ == Seq::<char>::empty()
            },
            Some(k) => {
                &&& final(exporter).warning_texts() == with_warnings(
                        after_registration(old(exporter).warning_texts(), registration(old(exporter).media_view(), *image).2),
                        push_if(Seq::empty(), place.skewed, image_skew_message()))
                &&& shape::drew_one(*old(exporter), *final(exporter))
                &&& r@ == shape::drawing(place.x as int, place.y as int, xml::max1(place.cx as int), xml::max1(place.cy as int),
                        final(exporter).last_docpr() as int, "i"@, final(exporter).last_rel_height() as int, false, NS_PIC@,
                        pic_node(final(exporter).last_docpr() as int, k as int, place.rot,
                            xml::max1(place.cx as int), xml::max1(place.cy as int)))
            },
        },
{
    let ghost m0 = exporter.media_view();
    let index = match exporter.media_index(image) {
        Some(i) => i,
        None => return String::new(),
    };
    let ghost w1 = exporter.warning_texts();
    let count = exporter.media().items().len();
    proof {
        let m1 = exporter.media_view();
        match cached_result(m0.results, image.id) {
            Some(c) => {
                assert(m1.results.contains_key(image.id));
            },
            None => {
                assert(m1.results.contains_key(image.id));
            },
        }
        assert(index < count);
        with_warnings_push(w1, Seq::empty(), image_skew_message());
    }
    if place.skewed {
        exporter.warn_str("skewed or non-uniformly scaled images are not supported; only their translation is applied");
    }
    let cx = if place.cx < 1 { 1 } else { place.cx };
    let cy = if place.cy < 1 { 1 } else { place.cy };
    let id = exporter.next_docpr();
    let inner = pic(id, index, place.rot, cx, cy);
    let name = concat("i", nat_string(id as u64).as_str());
    let z = exporter.next_rel_height();
    proof { reveal_strlit("i"); }
    xml::drawing_run(&Anchor {
        x: place.x,
        y: place.y,
        cx,
        cy,
        id,
        name: name.as_str(),
        z,
        behind: false,
        uri: NS_PIC,
        inner: inner.as_str(),
    })
}

} // verus!
