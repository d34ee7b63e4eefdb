//! Assembling the OPC package (the `.docx` ZIP file).

use vstd::prelude::*;

use std::io::Cursor;
use zip::result::ZipError;
use zip::write::SimpleFileOptions;
use zip::{CompressionMethod, ZipWriter};

use crate::font;
use crate::image::MediaState;
use crate::xml;
use crate::xml::{concat, concat3, nat_string, Ctx, Xml, NS_A, NS_MC, NS_PIC, NS_R, NS_W, NS_W14, NS_WP, NS_WPS};
use crate::Exporter;

verus! {

broadcast use vstd::seq::group_seq_axioms;

pub open spec fn rel_ns() -> Seq<char> {
    "http://schemas.openxmlformats.org/package/2006/relationships"@
}

/// A `Default` entry of `[Content_Types].xml`.
pub open spec fn default_node(ext: Seq<char>, ty: Seq<char>) -> xml::Node {
    xml::el("Default"@, seq![xml::a_s("Extension"@, ext), xml::a_s("ContentType"@, ty)], seq![])
}

/// An `Override` entry of `[Content_Types].xml`.
pub open spec fn override_node(part: Seq<char>, ty: Seq<char>) -> xml::Node {
    xml::el("Override"@, seq![xml::a_s("PartName"@, part), xml::a_s("ContentType"@, ty)], seq![])
}

/// `[Content_Types].xml`: defaults for relationships and XML, for
/// obfuscated fonts when fonts are embedded, and for each media type;
/// overrides for the four WordprocessingML parts.
pub open spec fn content_types_node(has_embeds: bool, media: Seq<(Seq<char>, Seq<char>)>) -> xml::Node {
    xml::el("Types"@, seq![xml::a_s("xmlns"@, "http://schemas.openxmlformats.org/package/2006/content-types"@)],
        seq![
            default_node("rels"@, "application/vnd.openxmlformats-package.relationships+xml"@),
            default_node("xml"@, "application/xml"@),
        ]
        + (if has_embeds { seq![default_node("odttf"@, "application/vnd.openxmlformats-officedocument.obfuscatedFont"@)] } else { Seq::empty() })
        + media_defaults(media)
        + seq![
            override_node("/word/document.xml"@, "application/vnd.openxmlformats-officedocument.wordprocessingml.document.main+xml"@),
            override_node("/word/styles.xml"@, "application/vnd.openxmlformats-officedocument.wordprocessingml.styles+xml"@),
            override_node("/word/settings.xml"@, "application/vnd.openxmlformats-officedocument.wordprocessingml.settings+xml"@),
            override_node("/word/fontTable.xml"@, "application/vnd.openxmlformats-officedocument.wordprocessingml.fontTable+xml"@),
        ])
}

/// A `Relationship` element.
pub open spec fn rel_node(id: Seq<char>, ty: Seq<char>, target: Seq<char>) -> xml::Node {
    xml::el("Relationship"@, seq![xml::a_s("Id"@, id), xml::a_s("Type"@, ty), xml::a_s("Target"@, target)], seq![])
}

/// `_rels/.rels`: the package's single relationship to the main document.
pub open spec fn package_rels_node() -> xml::Node {
    xml::el("Relationships"@, seq![xml::a_s("xmlns"@, rel_ns())], seq![
        rel_node("rId1"@, "http://schemas.openxmlformats.org/officeDocument/2006/relationships/officeDocument"@, "word/document.xml"@),
    ])
}

/// `word/document.xml` around the body content.
pub open spec fn document_node(body: Seq<char>) -> xml::Node {
    xml::el("w:document"@, seq![
        xml::a_s("xmlns:w"@, NS_W@), xml::a_s("xmlns:r"@, NS_R@), xml::a_s("xmlns:wp"@, NS_WP@),
        xml::a_s("xmlns:a"@, NS_A@), xml::a_s("xmlns:pic"@, NS_PIC@), xml::a_s("xmlns:wps"@, NS_WPS@),
        xml::a_s("xmlns:mc"@, NS_MC@), xml::a_s("xmlns:w14"@, NS_W14@), xml::a_s("mc:Ignorable"@, "w14"@),
    ], seq![xml::el("w:body"@, seq![], seq![xml::Node::Raw(body)])])
}

/// Where media file `i` with extension `ext` lies, relative to `word/`.
pub open spec fn image_target(i: int, ext: Seq<char>) -> Seq<char> {
    "media/image"@ + xml::decimal(i + 1) + seq!['.'] + ext
}

/// The relationship of media file `i` with extension `ext`.
pub open spec fn image_rel_node(i: int, ext: Seq<char>) -> xml::Node {
    rel_node("rIdImg"@ + xml::decimal(i + 1),
        "http://schemas.openxmlformats.org/officeDocument/2006/relationships/image"@,
        image_target(i, ext))
}

/// `word/_rels/document.xml.rels`: styles, settings and font table, then
/// one relationship per media file.
pub open spec fn document_rels_node(exts: Seq<Seq<char>>) -> xml::Node {
    xml::el("Relationships"@, seq![xml::a_s("xmlns"@, rel_ns())],
        seq![
            rel_node("rId1"@, "http://schemas.openxmlformats.org/officeDocument/2006/relationships/styles"@, "styles.xml"@),
            rel_node("rId2"@, "http://schemas.openxmlformats.org/officeDocument/2006/relationships/settings"@, "settings.xml"@),
            rel_node("rId3"@, "http://schemas.openxmlformats.org/officeDocument/2006/relationships/fontTable"@, "fontTable.xml"@),
        ] + image_rels(exts))
}

/// A minimal `word/styles.xml`: no kerning and no paragraph spacing by
/// default, and the `Normal` paragraph style.
pub open spec fn styles_node() -> xml::Node {
    xml::el("w:styles"@, seq![xml::a_s("xmlns:w"@, NS_W@)], seq![
        xml::el("w:docDefaults"@, seq![], seq![
            xml::el("w:rPrDefault"@, seq![], seq![
                xml::el("w:rPr"@, seq![], seq![xml::el("w:kern"@, seq![xml::ai("w:val"@, 0)], seq![])]),
            ]),
            xml::el("w:pPrDefault"@, seq![], seq![
                xml::el("w:pPr"@, seq![], seq![xml::el("w:spacing"@, seq![xml::ai("w:before"@, 0), xml::ai("w:after"@, 0)], seq![])]),
            ]),
        ]),
        xml::el("w:style"@, seq![xml::a_s("w:type"@, "paragraph"@), xml::ai("w:default"@, 1), xml::a_s("w:styleId"@, "Normal"@)], seq![
            xml::el("w:name"@, seq![xml::a_s("w:val"@, "Normal"@)], seq![]),
        ]),
    ])
}

/// `word/settings.xml`: `embedTrueTypeFonts` when fonts are embedded, before
/// `compat`, as the `CT_Settings` sequence requires.
pub open spec fn settings_node(has_embeds: bool) -> xml::Node {
    xml::el("w:settings"@, seq![xml::a_s("xmlns:w"@, NS_W@)],
        (if has_embeds { seq![xml::el("w:embedTrueTypeFonts"@, seq![], seq![])] } else { Seq::empty() })
        + seq![xml::el("w:compat"@, seq![], seq![
            xml::el("w:compatSetting"@, seq![
                xml::a_s("w:name"@, "compatibilityMode"@),
                xml::a_s("w:uri"@, "http://schemas.microsoft.com/office/word"@),
                xml::ai("w:val"@, 15),
            ], seq![]),
        ])])
}

/// Write one `Relationship` element.
fn rel(x: &mut Xml, id: &str, ty: &str, target: &str)
    requires
        old(x).wf(),
    ensures
        final(x).wf(),
        final(x)@ == xml::add_node(old(x)@, rel_node(id@, ty@, target@)),
{
    let ghost c = x@;
    x.begin("Relationship").attr("Id", id).attr("Type", ty).attr("Target", target);
    proof {
        assert(x@->attrs =~= seq![xml::a_s("Id"@, id@), xml::a_s("Type"@, ty@), xml::a_s("Target"@, target@)]);
        assert(x@->kids =~= Seq::<xml::Node>::empty());
    }
    x.end();
}

/// Build `_rels/.rels`.
pub fn package_rels() -> (r: String)
    ensures r@ == xml::part(package_rels_node()),
{
    let mut x = Xml::new();
    x.begin("Relationships").attr("xmlns", "http://schemas.openxmlformats.org/package/2006/relationships");
    rel(&mut x, "rId1",
        "http://schemas.openxmlformats.org/officeDocument/2006/relationships/officeDocument",
        "word/document.xml");
    proof {
        assert(x@->attrs =~= seq![xml::a_s("xmlns"@, rel_ns())]);
        assert(x@->kids =~= seq![rel_node("rId1"@,
            "http://schemas.openxmlformats.org/officeDocument/2006/relationships/officeDocument"@,
            "word/document.xml"@)]);
    }
    x.end();
    assert(x@ =~~= Ctx::Top(seq![package_rels_node()]));
    x.finish_part()
}

/// Build `word/document.xml` around the body content.
pub fn document(body: &str) -> (r: String)
    ensures r@ == xml::part(document_node(body@)),
{
    let mut x = Xml::new();
    x.begin("w:document")
        .attr("xmlns:w", NS_W)
        .attr("xmlns:r", NS_R)
        .attr("xmlns:wp", NS_WP)
        .attr("xmlns:a", NS_A)
        .attr("xmlns:pic", NS_PIC)
        .attr("xmlns:wps", NS_WPS)
        .attr("xmlns:mc", NS_MC)
        .attr("xmlns:w14", NS_W14)
        .attr("mc:Ignorable", "w14");
    x.begin("w:body").raw(body).end();
    x.end();
    assert(x@ =~~= Ctx::Top(seq![document_node(body@)]));
    x.finish_part()
}

/// Write the `w:docDefaults` of the style sheet.
fn doc_defaults(x: &mut Xml)
    requires
        old(x).wf(),
    ensures
        final(x).wf(),
        final(x)@ == xml::add_node(old(x)@, styles_node()->kids[0]),
{
    let ghost c = x@;
    x.begin("w:docDefaults");
    x.begin("w:rPrDefault");
    x.begin("w:rPr");
    x.begin("w:kern").attr_int("w:val", 0).end();
    x.end();
    x.end();
    let ghost c1 = x@;
    assert(c1 =~~= xml::add_node(xml::push_frame(c, "w:docDefaults"@), styles_node()->kids[0]->kids[0]));
    x.begin("w:pPrDefault");
    x.begin("w:pPr");
    let ghost cp = x@;
    x.begin("w:spacing").attr_int("w:before", 0).attr_int("w:after", 0).end();
    assert(x@ =~~= xml::add_node(cp, xml::el("w:spacing"@, seq![xml::ai("w:before"@, 0), xml::ai("w:after"@, 0)], seq![])));
    x.end();
    x.end();
    let ghost c2 = x@;
    assert(c2 =~~= xml::add_node(c1, styles_node()->kids[0]->kids[1]));
    proof {
        assert(x@->kids =~~= styles_node()->kids[0]->kids);
    }
    x.end();
}

/// Build a minimal `word/styles.xml`.
pub fn styles() -> (r: String)
    ensures r@ == xml::part(styles_node()),
{
    let mut x = Xml::new();
    x.begin("w:styles").attr("xmlns:w", NS_W);
    let ghost c0 = x@;
    doc_defaults(&mut x);
    x.begin("w:style")
        .attr("w:type", "paragraph")
        .attr_int("w:default", 1)
        .attr("w:styleId", "Normal");
    x.begin("w:name").attr("w:val", "Normal").end();
    proof {
        assert(x@->attrs =~~= styles_node()->kids[1]->attrs);
        assert(x@->kids =~~= styles_node()->kids[1]->kids);
    }
    x.end();
    proof {
        assert(x@->attrs =~~= styles_node()->attrs);
        assert(x@->kids =~~= styles_node()->kids);
    }
    x.end();
    assert(x@ =~~= Ctx::Top(seq![styles_node()]));
    x.finish_part()
}

/// Build `word/settings.xml`.
///
/// Element order follows the `CT_Settings` sequence: `embedTrueTypeFonts`
/// comes before `compat`.
pub fn settings(exporter: &Exporter) -> (r: String)
    ensures r@ == xml::part(settings_node(exporter.fonts_view().embeds.len() > 0)),
{
    let has = exporter.fonts().has_embeds();
    let mut x = Xml::new();
    x.begin("w:settings").attr("xmlns:w", NS_W);
    if has {
        x.leaf("w:embedTrueTypeFonts");
    }
    let ghost c0 = x@;
    x.begin("w:compat");
    x.begin("w:compatSetting")
        .attr("w:name", "compatibilityMode")
        .attr("w:uri", "http://schemas.microsoft.com/office/word")
        .attr_int("w:val", 15);
    proof {
        assert(x@->attrs =~~= settings_node(has)->kids.last()->kids[0]->attrs);
    }
    x.end();
    x.end();
    assert(x@ =~~= xml::add_node(c0, settings_node(has)->kids.last()));
    proof {
        assert(x@->attrs =~~= settings_node(has)->attrs);
        assert(x@->kids =~~= settings_node(has)->kids);
    }
    x.end();
    assert(x@ =~~= Ctx::Top(seq![settings_node(has)]));
    x.finish_part()
}

/// Write one `Default` entry.
fn default_el(x: &mut Xml, ext: &str, ty: &str)
    requires
        old(x).wf(),
    ensures
        final(x).wf(),
        final(x)@ == xml::add_node(old(x)@, default_node(ext@, ty@)),
{
    x.begin("Default").attr("Extension", ext).attr("ContentType", ty);
    proof {
        assert(x@->attrs =~= seq![xml::a_s("Extension"@, ext@), xml::a_s("ContentType"@, ty@)]);
        assert(x@->kids =~= Seq::<xml::Node>::empty());
    }
    x.end();
}

/// Write one `Override` entry.
fn override_el(x: &mut Xml, part: &str, ty: &str)
    requires
        old(x).wf(),
    ensures
        final(x).wf(),
        final(x)@ == xml::add_node(old(x)@, override_node(part@, ty@)),
{
    x.begin("Override").attr("PartName", part).attr("ContentType", ty);
    proof {
        assert(x@->attrs =~= seq![xml::a_s("PartName"@, part@), xml::a_s("ContentType"@, ty@)]);
        assert(x@->kids =~= Seq::<xml::Node>::empty());
    }
    x.end();
}

/// The `Default` entries of the media types.
pub open spec fn media_defaults(media: Seq<(Seq<char>, Seq<char>)>) -> Seq<xml::Node> {
    Seq::new(media.len(), |i: int| default_node(media[i].0, media[i].1))
}

/// Build `[Content_Types].xml`.
pub fn content_types(exporter: &Exporter) -> (r: String)
    ensures
        r@ == xml::part(content_types_node(
            exporter.fonts_view().embeds.len() > 0,
            crate::image::distinct_types(exporter.media_view().items),
        )),
{
    let has = exporter.fonts().has_embeds();
    let types = exporter.media().content_types();
    let ghost media = crate::image::distinct_types(exporter.media_view().items);
    let ghost node = content_types_node(has, media);
    let mut x = Xml::new();
    x.begin("Types").attr("xmlns", "http://schemas.openxmlformats.org/package/2006/content-types");
    let ghost head = x@;
    default_el(&mut x, "rels", "application/vnd.openxmlformats-package.relationships+xml");
    default_el(&mut x, "xml", "application/xml");
    if has {
        default_el(&mut x, "odttf", "application/vnd.openxmlformats-officedocument.obfuscatedFont");
    }
    let ghost pre = x@->kids;
    proof {
        assert(pre =~~= seq![
            default_node("rels"@, "application/vnd.openxmlformats-package.relationships+xml"@),
            default_node("xml"@, "application/xml"@),
        ] + (if has { seq![default_node("odttf"@, "application/vnd.openxmlformats-officedocument.obfuscatedFont"@)] } else { Seq::empty() }));
        assert(pre + media_defaults(media).take(0) =~= pre);
    }
    let mut i: usize = 0;
    while i < types.len()
        invariant
            i <= types@.len(),
            types@.map_values(|p: (&'static str, &'static str)| (p.0@, p.1@)) == media,
            x.wf(),
            x@ == (Ctx::In { parent: head->parent, tag: head->tag, attrs: head->attrs,
                kids: pre + media_defaults(media).take(i as int) }),
        decreases types@.len() - i,
    {
        let (e, t) = types[i];
        assert(media[i as int] == (e@, t@));
        default_el(&mut x, e, t);
        i = i + 1;
        assert(media_defaults(media).take(i as int) =~= media_defaults(media).take(i - 1).push(default_node(e@, t@)));
        assert(pre + media_defaults(media).take(i as int) =~= (pre + media_defaults(media).take(i - 1)).push(default_node(e@, t@)));
    }
    assert(media_defaults(media).take(i as int) =~= media_defaults(media));
    let ghost mid = x@;
    override_el(&mut x, "/word/document.xml", "application/vnd.openxmlformats-officedocument.wordprocessingml.document.main+xml");
    override_el(&mut x, "/word/styles.xml", "application/vnd.openxmlformats-officedocument.wordprocessingml.styles+xml");
    override_el(&mut x, "/word/settings.xml", "application/vnd.openxmlformats-officedocument.wordprocessingml.settings+xml");
    override_el(&mut x, "/word/fontTable.xml", "application/vnd.openxmlformats-officedocument.wordprocessingml.fontTable+xml");
    proof {
        assert(x@->attrs =~~= node->attrs);
        assert(x@->kids =~~= node->kids);
    }
    x.end();
    assert(x@ =~~= Ctx::Top(seq![node]));
    x.finish_part()
}

/// The relationships of the media files.
pub open spec fn image_rels(exts: Seq<Seq<char>>) -> Seq<xml::Node> {
    Seq::new(exts.len(), |i: int| image_rel_node(i, exts[i]))
}

/// Build `word/_rels/document.xml.rels`.
pub fn document_rels(exporter: &Exporter) -> (r: String)
    ensures
        r@ == xml::part(document_rels_node(exporter.media_view().items.map_values(|m: crate::image::MediaView| m.1))),
{
    let items = exporter.media().items();
    let ghost exts = exporter.media_view().items.map_values(|m: crate::image::MediaView| m.1);
    let ghost node = document_rels_node(exts);
    let mut x = Xml::new();
    x.begin("Relationships").attr("xmlns", "http://schemas.openxmlformats.org/package/2006/relationships");
    let ghost head = x@;
    rel(&mut x, "rId1", "http://schemas.openxmlformats.org/officeDocument/2006/relationships/styles", "styles.xml");
    rel(&mut x, "rId2", "http://schemas.openxmlformats.org/officeDocument/2006/relationships/settings", "settings.xml");
    rel(&mut x, "rId3", "http://schemas.openxmlformats.org/officeDocument/2006/relationships/fontTable", "fontTable.xml");
    let ghost pre = x@->kids;
    proof {
        assert(pre + image_rels(exts).take(0) =~= pre);
    }
    let mut i: usize = 0;
    while i < items.len()
        invariant
            i <= items@.len(),
            items@.len() == exts.len(),
            forall|k: int| 0 <= k < exts.len() ==> exts[k] == (#[trigger] items@[k]).ext@,
            x.wf(),
            x@ == (Ctx::In { parent: head->parent, tag: head->tag, attrs: head->attrs,
                kids: pre + image_rels(exts).take(i as int) }),
        decreases items@.len() - i,
    {
        let n = nat_string(i as u64 + 1);
        let id = concat("rIdImg", n.as_str());
        let file = concat3("media/image", n.as_str(), ".");
        let target = concat(file.as_str(), items[i].ext);
        proof {
            reveal_strlit(".");
            assert(target@ =~= "media/image"@ + xml::decimal(i + 1) + seq!['.'] + exts[i as int]);
        }
        rel(&mut x, id.as_str(), "http://schemas.openxmlformats.org/officeDocument/2006/relationships/image", target.as_str());
        i = i + 1;
        assert(image_rels(exts).take(i as int) =~= image_rels(exts).take(i - 1).push(image_rel_node(i - 1, exts[i - 1])));
        assert(pre + image_rels(exts).take(i as int) =~= (pre + image_rels(exts).take(i - 1)).push(image_rel_node(i - 1, exts[i - 1])));
    }
    assert(image_rels(exts).take(i as int) =~= image_rels(exts));
    proof {
        assert(x@->attrs =~~= node->attrs);
        assert(x@->kids =~~= node->kids);
    }
    x.end();
    assert(x@ =~~= Ctx::Top(seq![node]));
    x.finish_part()
}

/// An in-memory ZIP writer: the archive's files are written into a growing
/// byte buffer, and are reached only through the functions below, which
/// say what each step does to the files it holds.
#[verifier::external_body]
pub struct ZipSink {
    writer: ZipWriter<Cursor<Vec<u8>>>,
}

#[verifier::external_type_specification]
#[verifier::external_body]
pub struct ExZipError(ZipError);

#[verifier::external_type_specification]
#[verifier::external_body]
pub struct ExIoError(std::io::Error);

/// How a file is stored in the package.
#[derive(Clone, Copy, PartialEq, Eq, Debug)]
pub enum Compression {
    Deflated,
    Stored,
}

/// A file of the archive: its name, its uncompressed contents, and how it
/// is stored.
pub type ZipEntry = (Seq<char>, Seq<u8>, Compression);

/// The files an in-memory ZIP writer holds, in the order they were started.
pub uninterp spec fn zip_entries(w: ZipSink) -> Seq<ZipEntry>;

/// The bytes of the finished archive with the given files. The writer
/// records the operating system it was built for in each file's header, so
/// the bytes are fixed by the files for a given build target.
pub uninterp spec fn zip_archive(entries: Seq<ZipEntry>) -> Seq<u8>;

/// `entries` with `data` appended to the contents of its last file.
pub open spec fn append_to_last(entries: Seq<ZipEntry>, data: Seq<u8>) -> Seq<ZipEntry> {
    let last = entries.last();
    entries.drop_last().push((last.0, last.1 + data, last.2))
}

/// `ZipWriter::new` over an empty in-memory buffer. The new writer holds no
/// file.
#[verifier::external_body]
fn zip_new() -> (w: ZipSink)
    ensures
        zip_entries(w) == Seq::<ZipEntry>::empty(),
{
    ZipSink { writer: ZipWriter::new(Cursor::new(Vec::new())) }
}

/// A file name the writer takes: its local header, 30 bytes and the
/// name's UTF-8 bytes (at most four per character), stays under the 64 KiB
/// that `start_file` allows.
pub open spec fn zip_name_fits(name: Seq<char>) -> bool {
    name.len() <= 16000
}

/// File contents the writer takes without the ZIP64 "large file" option:
/// under 2 GiB, both the contents and their DEFLATE encoding (which grows
/// incompressible data by at most about 14%) stay under `u32::MAX` bytes.
pub open spec fn zip_data_fits(data: Seq<u8>) -> bool {
    data.len() < 0x8000_0000
}

/// Every file has a name and contents that fit.
pub open spec fn zip_entries_fit(entries: Seq<ZipEntry>) -> bool {
    forall|i: int| 0 <= i < entries.len() ==> zip_name_fits(#[trigger] entries[i].0) && zip_data_fits(entries[i].1)
}

/// No file of `entries` is called `name`.
pub open spec fn name_is_new(entries: Seq<ZipEntry>, name: Seq<char>) -> bool {
    forall|i: int| 0 <= i < entries.len() ==> (#[trigger] entries[i]).0 != name
}

/// `ZipWriter::start_file` with default options and the given compression
/// method; the writer is given back when it succeeds. A new file with that
/// name and no contents then follows the files already held. The call
/// fails only on a duplicate name, a name too long for its header, or a
/// previous file too large to close without the ZIP64 option, so it
/// succeeds when the held files fit and the name fits and is new.
#[verifier::external_body]
fn zip_start_file(w: ZipSink, name: &str, method: Compression) -> (r: Result<ZipSink, ZipError>)
    ensures
        r matches Ok(w2) ==> zip_entries(w2) == zip_entries(w).push((name@, Seq::<u8>::empty(), method)),
        zip_entries_fit(zip_entries(w)) && zip_name_fits(name@) && name_is_new(zip_entries(w), name@) ==> r is Ok,
{
    let mut w = w;
    let method = match method {
        Compression::Deflated => CompressionMethod::Deflated,
        Compression::Stored => CompressionMethod::Stored,
    };
    match w.writer.start_file(name, SimpleFileOptions::default().compression_method(method)) {
        Ok(()) => Ok(w),
        Err(e) => Err(e),
    }
}

/// `Write::write_all` on a ZIP writer with a file started; the writer is
/// given back when it succeeds. `data` has then been appended to the
/// contents of the last file. The in-memory writer refuses a write only
/// when the file's contents reach `u32::MAX` bytes without the ZIP64
/// option, so it succeeds when the contents with `data` still fit.
#[verifier::external_body]
fn zip_write_all(w: ZipSink, data: &[u8]) -> (r: Result<ZipSink, std::io::Error>)
    requires
        zip_entries(w).len() > 0,
    ensures
        r matches Ok(w2) ==> zip_entries(w2) == append_to_last(zip_entries(w), data@),
        zip_data_fits(zip_entries(w).last().1 + data@) ==> r is Ok,
{
    let mut w = w;
    match std::io::Write::write_all(&mut w.writer, data) {
        Ok(()) => Ok(w),
        Err(e) => Err(e),
    }
}

/// `ZipWriter::finish`, returning the bytes of the in-memory buffer. When
/// it succeeds, they are the archive of the files the writer held. It
/// fails only when the last file is too large to close without the ZIP64
/// option, so it succeeds when the held files fit.
#[verifier::external_body]
fn zip_finish(w: ZipSink) -> (r: Result<Vec<u8>, ZipError>)
    ensures
        r matches Ok(b) ==> b@ == zip_archive(zip_entries(w)),
        zip_entries_fit(zip_entries(w)) ==> r is Ok,
{
    match w.writer.finish() {
        Ok(c) => Ok(c.into_inner()),
        Err(e) => Err(e),
    }
}

/// Why the package could not be written.
pub enum PackError {
    /// A file could not be started.
    StartEntry(ZipError),
    /// A file's contents could not be written.
    WriteEntry(std::io::Error),
    /// The archive could not be finished.
    Finish(ZipError),
}

/// Add one file to the archive. It is added whenever the files already
/// held fit, and the new file's name and contents fit and its name is new.
fn put(w: ZipSink, name: &str, data: &[u8], method: Compression) -> (r: Result<ZipSink, PackError>)
    ensures
        r matches Ok(w2) ==> zip_entries(w2) == zip_entries(w).push((name@, data@, method)),
        zip_entries_fit(zip_entries(w)) && zip_name_fits(name@) && zip_data_fits(data@)
            && name_is_new(zip_entries(w), name@) ==> r is Ok,
{
    let ghost before = zip_entries(w);
    let w = match zip_start_file(w, name, method) {
        Ok(w) => w,
        Err(e) => return Err(PackError::StartEntry(e)),
    };
    let ghost started = zip_entries(w);
    proof {
        assert(Seq::<u8>::empty() + data@ =~= data@);
    }
    match zip_write_all(w, data) {
        Ok(w) => {
            proof {
                assert(started.drop_last() =~= before);
            }
            Ok(w)
        },
        Err(e) => Err(PackError::WriteEntry(e)),
    }
}

/// The bytes of a whole XML part.
pub open spec fn part_bytes(root: xml::Node) -> Seq<u8> {
    vstd::utf8::encode_utf8(xml::part(root))
}

/// The obfuscated font files, `word/fonts/font{i+1}.odttf`.
pub open spec fn font_entries(embeds: Seq<(Seq<u8>, Seq<u8>)>) -> Seq<ZipEntry> {
    Seq::new(embeds.len(), |i: int| (
        "word/fonts/font"@ + xml::decimal(i + 1) + ".odttf"@,
        font::obfuscated(embeds[i].0, embeds[i].1),
        Compression::Deflated,
    ))
}

/// The media files, `word/media/image{i+1}.{ext}`, stored uncompressed.
pub open spec fn media_entries(items: Seq<crate::image::MediaView>) -> Seq<ZipEntry> {
    Seq::new(items.len(), |i: int| (
        "word/media/image"@ + xml::decimal(i + 1) + seq!['.'] + items[i].1,
        items[i].0,
        Compression::Stored,
    ))
}

/// The extensions of the media files.
pub open spec fn media_exts(items: Seq<crate::image::MediaView>) -> Seq<Seq<char>> {
    items.map_values(|m: crate::image::MediaView| m.1)
}

/// Every file of the package, in the order they are written: the XML
/// parts, then the font table's relationships and the obfuscated fonts when
/// fonts are embedded, then the media files.
pub open spec fn package_entries(fonts: font::FontsView, media: MediaState, body: Seq<char>) -> Seq<ZipEntry> {
    let has = fonts.embeds.len() > 0;
    seq![
        ("[Content_Types].xml"@, part_bytes(content_types_node(has, crate::image::distinct_types(media.items))), Compression::Deflated),
        ("_rels/.rels"@, part_bytes(package_rels_node()), Compression::Deflated),
        ("word/document.xml"@, part_bytes(document_node(body)), Compression::Deflated),
        ("word/_rels/document.xml.rels"@, part_bytes(document_rels_node(media_exts(media.items))), Compression::Deflated),
        ("word/styles.xml"@, part_bytes(styles_node()), Compression::Deflated),
        ("word/settings.xml"@, part_bytes(settings_node(has)), Compression::Deflated),
        ("word/fontTable.xml"@, part_bytes(font::font_table_node(fonts)), Compression::Deflated),
    ]
    + (if has {
        seq![("word/_rels/fontTable.xml.rels"@, part_bytes(font::font_rels_node(fonts.embeds.len())), Compression::Deflated)]
            + font_entries(fonts.embeds)
    } else {
        Seq::empty()
    })
    + media_entries(media.items)
}

/// The files before file `k` of the package, and file `k` itself, meet
/// what adding file `k` asks, whenever all files of the package fit.
proof fn lemma_next_fits(fonts: font::FontsView, media: MediaState, body: Seq<char>, k: int)
    requires
        0 <= k < package_entries(fonts, media, body).len(),
    ensures
        zip_entries_fit(package_entries(fonts, media, body)) ==> {
            let all = package_entries(fonts, media, body);
            &&& zip_entries_fit(all.take(k))
            &&& zip_name_fits(all[k].0)
            &&& zip_data_fits(all[k].1)
            &&& name_is_new(all.take(k), all[k].0)
        },
{
    let all = package_entries(fonts, media, body);
    part_names_are_distinct(fonts, media, body);
    if zip_entries_fit(all) {
        assert(zip_name_fits(all[k].0));
        assert forall|i: int| 0 <= i < all.take(k).len() implies zip_name_fits(#[trigger] all.take(k)[i].0)
            && zip_data_fits(all.take(k)[i].1) by {
            assert(all.take(k)[i] == all[i]);
            assert(zip_name_fits(all[i].0));
        }
        assert forall|i: int| 0 <= i < all.take(k).len() implies (#[trigger] all.take(k)[i]).0 != all[k].0 by {
            assert(all.take(k)[i] == all[i]);
        }
    }
}

/// Pack all parts into the final `.docx` bytes. Packing succeeds whenever
/// every file of the package has a name and contents that fit the writer.
#[verifier::rlimit(40)]
pub fn pack(exporter: &Exporter, body: &str) -> (r: Result<Vec<u8>, PackError>)
    requires
        exporter.wf(),
    ensures
        r matches Ok(b) ==> b@ == zip_archive(package_entries(exporter.fonts_view(), exporter.media_view(), body@)),
        zip_entries_fit(package_entries(exporter.fonts_view(), exporter.media_view(), body@)) ==> r is Ok,
{
    let ghost fv = exporter.fonts_view();
    let ghost mv = exporter.media_view();
    let ghost all = package_entries(fv, mv, body@);
    let has = exporter.fonts().has_embeds();
    let mut w = zip_new();
    let ct = content_types(exporter);
    proof { lemma_next_fits(fv, mv, body@, 0); }
    w = put(w, "[Content_Types].xml", ct.as_str().as_bytes(), Compression::Deflated)?;
    proof { assert(zip_entries(w) =~= all.take(1)); }
    let pr = package_rels();
    proof { lemma_next_fits(fv, mv, body@, 1); }
    w = put(w, "_rels/.rels", pr.as_str().as_bytes(), Compression::Deflated)?;
    proof { assert(zip_entries(w) =~= all.take(2)); }
    let doc = document(body);
    proof { lemma_next_fits(fv, mv, body@, 2); }
    w = put(w, "word/document.xml", doc.as_str().as_bytes(), Compression::Deflated)?;
    proof { assert(zip_entries(w) =~= all.take(3)); }
    let dr = document_rels(exporter);
    proof { lemma_next_fits(fv, mv, body@, 3); }
    w = put(w, "word/_rels/document.xml.rels", dr.as_str().as_bytes(), Compression::Deflated)?;
    proof { assert(zip_entries(w) =~= all.take(4)); }
    let st = styles();
    proof { lemma_next_fits(fv, mv, body@, 4); }
    w = put(w, "word/styles.xml", st.as_str().as_bytes(), Compression::Deflated)?;
    proof { assert(zip_entries(w) =~= all.take(5)); }
    let se = settings(exporter);
    proof { lemma_next_fits(fv, mv, body@, 5); }
    w = put(w, "word/settings.xml", se.as_str().as_bytes(), Compression::Deflated)?;
    proof { assert(zip_entries(w) =~= all.take(6)); }
    let ft = exporter.fonts().font_table();
    proof { lemma_next_fits(fv, mv, body@, 6); }
    w = put(w, "word/fontTable.xml", ft.as_str().as_bytes(), Compression::Deflated)?;
    proof { assert(zip_entries(w) =~= all.take(7)); }
    let ghost parts = zip_entries(w);
    proof {
        assert(parts =~= all.take(7));
    }
    let ghost mut count: int = 7;
    if has {
        let fr = exporter.fonts().font_table_rels();
        proof { lemma_next_fits(fv, mv, body@, 7); }
        w = put(w, "word/_rels/fontTable.xml.rels", fr.as_str().as_bytes(), Compression::Deflated)?;
        let embeds = exporter.fonts().embeds();
        let ghost fe = font_entries(fv.embeds);
        proof {
            assert(zip_entries(w) =~= all.take(8));
            assert(fe.take(0) =~= Seq::<ZipEntry>::empty());
        }
        let mut i: usize = 0;
        while i < embeds.len()
            invariant
                i <= embeds@.len(),
                embeds@.map_values(|e: font::Embed| (e.data@, e.guid@)) == fv.embeds,
                fv.embeds.len() > 0,
                fe == font_entries(fv.embeds),
                all == package_entries(fv, mv, body@),
                fv == exporter.fonts_view(),
                mv == exporter.media_view(),
                zip_entries(w) == all.take(8) + fe.take(i as int),
            decreases embeds@.len() - i,
        {
            let n = nat_string(i as u64 + 1);
            let name = concat3("word/fonts/font", n.as_str(), ".odttf");
            let e = &embeds[i];
            assert(fv.embeds[i as int] == (e.data@, e.guid@));
            let data = font::obfuscate(e.data.as_slice(), &e.guid);
            let ghost prev = zip_entries(w);
            proof {
                lemma_next_fits(fv, mv, body@, 8 + i);
                assert forall|j: int| 0 <= j < fe.len() implies #[trigger] all[8 + j] == fe[j] by {}
                assert(all.take(8) + fe.take(i as int) =~= all.take(8 + i));
            }
            w = put(w, name.as_str(), data.as_slice(), Compression::Deflated)?;
            i = i + 1;
            proof {
                assert(fe.take(i as int) =~= fe.take(i - 1).push(fe[i - 1]));
                assert(zip_entries(w) =~= all.take(8) + fe.take(i as int));
            }
        }
        proof {
            assert(fe.take(i as int) =~= fe);
        }
        proof { count = 8 + embeds@.len() as int; }
    }
    let ghost me = media_entries(mv.items);
    proof {
        assert(zip_entries(w) =~= all.take(count));
        assert(me.take(0) =~= Seq::<ZipEntry>::empty());
        assert(all.take(count) + me.take(0) =~= all.take(count));
    }
    let items = exporter.media().items();
    let mut i: usize = 0;
    while i < items.len()
        invariant
            i <= items@.len(),
            items@.map_values(|m: crate::image::Media| (m.data@, m.ext@, m.content_type@)) == mv.items,
            me == media_entries(mv.items),
            all == package_entries(fv, mv, body@),
            fv == exporter.fonts_view(),
            mv == exporter.media_view(),
            count + mv.items.len() == all.len(),
            count == 7 + if fv.embeds.len() > 0 { 1 + fv.embeds.len() as int } else { 0int },
            zip_entries(w) == all.take(count) + me.take(i as int),
        decreases items@.len() - i,
    {
        let n = nat_string(i as u64 + 1);
        let file = concat3("word/media/image", n.as_str(), ".");
        let name = concat(file.as_str(), items[i].ext);
        let m = &items[i];
        assert(mv.items[i as int] == (m.data@, m.ext@, m.content_type@));
        proof {
            reveal_strlit(".");
            assert(name@ =~= "word/media/image"@ + xml::decimal(i + 1) + seq!['.'] + mv.items[i as int].1);
        }
        proof {
            lemma_next_fits(fv, mv, body@, count + i);
            assert forall|j: int| 0 <= j < me.len() implies #[trigger] all[count + j] == me[j] by {}
            assert(all.take(count) + me.take(i as int) =~= all.take(count + i));
        }
        w = put(w, name.as_str(), m.data.as_slice(), Compression::Stored)?;
        i = i + 1;
        proof {
            assert(me.take(i as int) =~= me.take(i - 1).push(me[i - 1]));
            assert(zip_entries(w) =~= all.take(count) + me.take(i as int));
        }
    }
    proof {
        assert(me.take(i as int) =~= me);
        assert(zip_entries(w) =~= all);
    }
    match zip_finish(w) {
        Ok(bytes) => Ok(bytes),
        Err(e) => Err(PackError::Finish(e)),
    }
}

/// Each image relationship of the document targets a file of the package
/// that holds the image's bytes, stored uncompressed.
pub proof fn image_relationships_resolve(fonts: font::FontsView, media: MediaState, body: Seq<char>, i: int)
    requires
        0 <= i < media.items.len(),
    ensures
        document_rels_node(media_exts(media.items))->kids[3 + i] == image_rel_node(i, media.items[i].1),
        exists|j: int| 0 <= j < package_entries(fonts, media, body).len()
            && #[trigger] package_entries(fonts, media, body)[j]
                == ("word/"@ + image_target(i, media.items[i].1), media.items[i].0, Compression::Stored),
{
    let all = package_entries(fonts, media, body);
    let has = fonts.embeds.len() > 0;
    let pre: int = 7 + if has { 1 + fonts.embeds.len() as int } else { 0int };
    let j = pre + i;
    reveal_strlit("word/");
    reveal_strlit("media/image");
    reveal_strlit("word/media/image");
    assert(all[j] == media_entries(media.items)[i]);
    assert("word/"@ + image_target(i, media.items[i].1)
        =~= "word/media/image"@ + xml::decimal(i + 1) + seq!['.'] + media.items[i].1);
}

pub open spec fn styles_type() -> Seq<char> {
    "http://schemas.openxmlformats.org/officeDocument/2006/relationships/styles"@
}

pub open spec fn settings_type() -> Seq<char> {
    "http://schemas.openxmlformats.org/officeDocument/2006/relationships/settings"@
}

pub open spec fn font_table_type() -> Seq<char> {
    "http://schemas.openxmlformats.org/officeDocument/2006/relationships/fontTable"@
}

/// The target of the first relationship of type `ty` among `rels`.
pub open spec fn rel_target(rels: Seq<xml::Node>, ty: Seq<char>) -> Option<Seq<char>>
    decreases rels.len(),
{
    if rels.len() == 0 {
        None
    } else if rels[0] is Elem && xml::attr_value(rels[0]->attrs, "Type"@) == Some(ty) {
        xml::attr_value(rels[0]->attrs, "Target"@)
    } else {
        rel_target(rels.drop_first(), ty)
    }
}

/// Whether the package has a file named `"word/" + target` that holds
/// `data`.
pub open spec fn part_at(all: Seq<ZipEntry>, target: Seq<char>, data: Seq<u8>) -> bool {
    exists|j: int| 0 <= j < all.len() && (#[trigger] all[j]).0 == "word/"@ + target && all[j].1 == data
}

proof fn lemma_rel_attrs(id: Seq<char>, ty: Seq<char>, target: Seq<char>)
    ensures
        xml::attr_value(rel_node(id, ty, target)->attrs, "Type"@) == Some(ty),
        xml::attr_value(rel_node(id, ty, target)->attrs, "Target"@) == Some(target),
{
    reveal_strlit("Id");
    reveal_strlit("Type");
    reveal_strlit("Target");
    let a = rel_node(id, ty, target)->attrs;
    assert("Id"@.len() != "Type"@.len());
    assert("Id"@.len() != "Target"@.len());
    assert("Type"@.len() != "Target"@.len());
    xml::lemma_attr_value_at(a, 1);
    xml::lemma_attr_value_at(a, 2);
}

/// Each part relationship of the document resolves to the file of the
/// package that holds that part: the relationship of the styles type
/// targets, under `word/`, the file holding the styles part, the one of the
/// settings type the file holding the settings, and the one of the font
/// table type the file holding the font table.
pub proof fn part_relationships_resolve(fonts: font::FontsView, media: MediaState, body: Seq<char>)
    ensures ({
        let rels = document_rels_node(media_exts(media.items))->kids;
        let all = package_entries(fonts, media, body);
        let has = fonts.embeds.len() > 0;
        &&& rel_target(rels, styles_type()) matches Some(t) && part_at(all, t, part_bytes(styles_node()))
        &&& rel_target(rels, settings_type()) matches Some(t) && part_at(all, t, part_bytes(settings_node(has)))
        &&& rel_target(rels, font_table_type()) matches Some(t)
                && part_at(all, t, part_bytes(font::font_table_node(fonts)))
    }),
{
    let rels = document_rels_node(media_exts(media.items))->kids;
    let all = package_entries(fonts, media, body);
    reveal_strlit("http://schemas.openxmlformats.org/officeDocument/2006/relationships/styles");
    reveal_strlit("http://schemas.openxmlformats.org/officeDocument/2006/relationships/settings");
    reveal_strlit("http://schemas.openxmlformats.org/officeDocument/2006/relationships/fontTable");
    reveal_strlit("styles.xml");
    reveal_strlit("settings.xml");
    reveal_strlit("fontTable.xml");
    reveal_strlit("word/");
    reveal_strlit("word/styles.xml");
    reveal_strlit("word/settings.xml");
    reveal_strlit("word/fontTable.xml");
    lemma_rel_attrs("rId1"@, styles_type(), "styles.xml"@);
    lemma_rel_attrs("rId2"@, settings_type(), "settings.xml"@);
    lemma_rel_attrs("rId3"@, font_table_type(), "fontTable.xml"@);
    assert(styles_type().len() != settings_type().len());
    assert(styles_type().len() != font_table_type().len());
    assert(settings_type().len() != font_table_type().len());
    let d1 = rels.drop_first();
    let d2 = d1.drop_first();
    assert(d1[0] == rels[1]);
    assert(d2[0] == rels[2]);
    assert(rel_target(rels, styles_type()) == Some("styles.xml"@));
    assert(rel_target(rels, settings_type()) == rel_target(d1, settings_type()));
    assert(rel_target(rels, settings_type()) == Some("settings.xml"@));
    assert(rel_target(d1, font_table_type()) == rel_target(d2, font_table_type()));
    assert(rel_target(rels, font_table_type()) == Some("fontTable.xml"@));
    assert("word/"@ + "styles.xml"@ =~= "word/styles.xml"@);
    assert("word/"@ + "settings.xml"@ =~= "word/settings.xml"@);
    assert("word/"@ + "fontTable.xml"@ =~= "word/fontTable.xml"@);
    assert(all[4].0 == "word/"@ + "styles.xml"@);
    assert(all[5].0 == "word/"@ + "settings.xml"@);
    assert(all[6].0 == "word/"@ + "fontTable.xml"@);
}

/// The file of embedded font `i`, relative to `word/`.
pub open spec fn font_target(i: int) -> Seq<char> {
    "fonts/font"@ + xml::decimal(i + 1) + ".odttf"@
}

/// Each relationship of the font table targets a file of the package, and
/// that file holds the font obfuscated with its key: deobfuscating it with
/// the key gives back the font.
pub proof fn font_relationships_resolve(fonts: font::FontsView, media: MediaState, body: Seq<char>, i: int)
    requires
        font::fonts_wf(fonts),
        0 <= i < fonts.embeds.len(),
    ensures
        font::font_rels_node(fonts.embeds.len())->kids[i]->attrs[2] == xml::a_s("Target"@, font_target(i)),
        exists|j: int| 0 <= j < package_entries(fonts, media, body).len()
            && (#[trigger] package_entries(fonts, media, body)[j]).0 == "word/"@ + font_target(i)
            && font::obfuscated(package_entries(fonts, media, body)[j].1, fonts.embeds[i].1) == fonts.embeds[i].0,
{
    let all = package_entries(fonts, media, body);
    let j = 8 + i;
    reveal_strlit("word/");
    reveal_strlit("fonts/font");
    reveal_strlit("word/fonts/font");
    font::obfuscation_is_involution(fonts.embeds[i].0, fonts.embeds[i].1);
    assert(all[j] == font_entries(fonts.embeds)[i]);
    assert("word/"@ + font_target(i) =~= "word/fonts/font"@ + xml::decimal(i + 1) + ".odttf"@);
}

/// Names made of a common head, decimal digits, and a tail that begins
/// with something other than a digit are equal only if their numbers and
/// tails are.
proof fn lemma_numbered_names(head: Seq<char>, a: nat, b: nat, ta: Seq<char>, tb: Seq<char>)
    requires
        head + xml::decimal_nat(a) + ta == head + xml::decimal_nat(b) + tb,
        ta.len() > 0,
        !xml::is_digit(ta[0]),
        tb.len() > 0,
        !xml::is_digit(tb[0]),
    ensures
        a == b,
        ta == tb,
{
    xml::decimal_is_injective(a, b);
    xml::decimal_is_injective(b, a);
    let da = xml::decimal_nat(a);
    let db = xml::decimal_nat(b);
    let x = head + da + ta;
    let h = head.len() as int;
    if da.len() < db.len() {
        assert(x[h + da.len()] == ta[0]);
        assert((head + db + tb)[h + da.len()] == db[da.len() as int]);
        assert(false);
    } else if db.len() < da.len() {
        assert((head + db + tb)[h + db.len()] == tb[0]);
        assert(x[h + db.len()] == da[db.len() as int]);
        assert(false);
    }
    assert(da =~= x.subrange(h, h + da.len()));
    assert(db =~= (head + db + tb).subrange(h, h + db.len()));
    assert(ta =~= x.skip(h + da.len()));
    assert(tb =~= (head + db + tb).skip(h + db.len()));
}

/// No two files of the package have the same name, so the ZIP writer never
/// meets a duplicate.
pub proof fn part_names_are_distinct(fonts: font::FontsView, media: MediaState, body: Seq<char>)
    ensures
        forall|a: int, b: int| 0 <= a < b < package_entries(fonts, media, body).len()
            ==> (#[trigger] package_entries(fonts, media, body)[a]).0
                != (#[trigger] package_entries(fonts, media, body)[b]).0,
{
    let all = package_entries(fonts, media, body);
    assert forall|a: int, b: int| 0 <= a < b < all.len() implies (#[trigger] all[a]).0 != (#[trigger] all[b]).0 by {
        lemma_names_differ(fonts, media, body, a, b);
    }
}

proof fn lemma_names_differ(fonts: font::FontsView, media: MediaState, body: Seq<char>, a: int, b: int)
    requires
        0 <= a < b < package_entries(fonts, media, body).len(),
    ensures
        package_entries(fonts, media, body)[a].0 != package_entries(fonts, media, body)[b].0,
{
    reveal_strlit("[Content_Types].xml");
    reveal_strlit("_rels/.rels");
    reveal_strlit("word/document.xml");
    reveal_strlit("word/_rels/document.xml.rels");
    reveal_strlit("word/styles.xml");
    reveal_strlit("word/settings.xml");
    reveal_strlit("word/fontTable.xml");
    reveal_strlit("word/_rels/fontTable.xml.rels");
    reveal_strlit("word/fonts/font");
    reveal_strlit(".odttf");
    reveal_strlit("word/media/image");
    let all = package_entries(fonts, media, body);
    let has = fonts.embeds.len() > 0;
    let e = fonts.embeds.len() as int;
    let pre: int = 7 + if has { 1 + e } else { 0int };
    let fixed = seq![
        "[Content_Types].xml"@, "_rels/.rels"@, "word/document.xml"@, "word/_rels/document.xml.rels"@,
        "word/styles.xml"@, "word/settings.xml"@, "word/fontTable.xml"@,
    ];
    let rels = "word/_rels/fontTable.xml.rels"@;
    let fh = "word/fonts/font"@;
    let mh = "word/media/image"@;
    // Where each name is told apart: its first character, its sixth, and
    // for the two pairs that share these, a later one.
    assert forall|i: int| 0 <= i < 7 implies #[trigger] all[i].0 == fixed[i] by {}
    if has {
        assert(all[7].0 == rels);
    }
    assert forall|i: int| has && 8 <= i < 8 + e implies #[trigger] all[i].0
        == fh + xml::decimal_nat((i - 7) as nat) + ".odttf"@ by {
        assert(all[i] == font_entries(fonts.embeds)[i - 8]);
    }
    assert forall|i: int| pre <= i < all.len() implies #[trigger] all[i].0
        == mh + xml::decimal_nat((i - pre + 1) as nat) + (seq!['.'] + media.items[i - pre].1) by {
        assert(all[i] == media_entries(media.items)[i - pre]);
        assert(mh + xml::decimal((i - pre) + 1) + seq!['.'] + media.items[i - pre].1
            =~= mh + xml::decimal_nat((i - pre + 1) as nat) + (seq!['.'] + media.items[i - pre].1));
    }
    let na = all[a].0;
    let nb = all[b].0;
    if a < 7 && b < 7 {
        if a == 2 && b == 5 {
            assert(na[5] != nb[5]);
        } else {
            assert(na.len() != nb.len());
        }
    } else if b < 7 {
        assert(false);
    } else if a < 7 {
        if has && b == 7 {
            assert(na.len() != nb.len());
        } else if has && b < 8 + e {
            assert(nb[5] == 'f' && nb[9] == 's' && nb[0] == 'w');
            if a == 6 {
                assert(na[9] == 'T');
            } else if a >= 2 {
                assert(na[5] != 'f');
            } else {
                assert(na[0] != 'w');
            }
        } else {
            assert(nb[5] == 'm' && nb[0] == 'w');
            if a >= 2 {
                assert(na[5] != 'm');
            } else {
                assert(na[0] != 'w');
            }
        }
    } else if has && a == 7 {
        assert(na[5] == '_');
        if b < 8 + e {
            assert(nb[5] == 'f');
        } else {
            assert(nb[5] == 'm');
        }
    } else if has && a < 8 + e {
        if b < 8 + e {
            if na == nb {
                lemma_numbered_names(fh, (a - 7) as nat, (b - 7) as nat, ".odttf"@, ".odttf"@);
            }
        } else {
            assert(na[5] == 'f');
            assert(nb[5] == 'm');
        }
    } else {
        if na == nb {
            lemma_numbered_names(mh, (a - pre + 1) as nat, (b - pre + 1) as nat,
                seq!['.'] + media.items[a - pre].1, seq!['.'] + media.items[b - pre].1);
        }
    }
}

} // verus!
