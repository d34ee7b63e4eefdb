use typst_docx::font::{derive_guid, guid_string, obfuscate};

#[test]
fn odttf_obfuscation() {
    // Hand-computed vector: GUID bytes 00..0f, data bytes all 0xAA.
    let guid: [u8; 16] = [
        0x00, 0x01, 0x02, 0x03, 0x04, 0x05, 0x06, 0x07, 0x08, 0x09, 0x0a, 0x0b, 0x0c, 0x0d,
        0x0e, 0x0f,
    ];
    let data = vec![0xAA; 40];
    let out = obfuscate(&data, &guid);
    // Byte 0 is XORed with guid[15] = 0x0f.
    assert_eq!(out[0], 0xAA ^ 0x0f);
    // Byte 15 with guid[0], byte 16 with guid[15] again.
    assert_eq!(out[15], 0xAA ^ 0x00);
    assert_eq!(out[16], 0xAA ^ 0x0f);
    assert_eq!(out[31], 0xAA ^ 0x00);
    // Bytes past 32 are untouched.
    assert_eq!(out[32], 0xAA);
    // Applying the XOR twice restores the original.
    let round = obfuscate(&out, &guid);
    assert_eq!(round, data);
}

#[test]
fn guid_is_deterministic_and_formatted() {
    let a = derive_guid(b"some font data", 0);
    let b = derive_guid(b"some font data", 0);
    let c = derive_guid(b"some font data", 1);
    assert_eq!(a, b);
    assert_ne!(a, c);
    let s = guid_string(&a);
    assert_eq!(s.len(), 36);
    assert_eq!(s.chars().filter(|&c| c == '-').count(), 4);
}

use typst_docx::font::{FontCollection, FontFace};
use typst_library::foundations::Bytes;
use typst_library::text::{Font, FontStyle};

/// A face from the fonts that ship with Typst, with the given weight.
fn face_with(weight: u16, id: u64) -> Option<FontFace> {
    for data in typst_assets::fonts() {
        for font in Font::iter(Bytes::new(data)) {
            let info = font.info();
            if info.variant.weight.to_number() == weight && info.variant.style == FontStyle::Normal {
                return Some(FontFace {
                    id,
                    data: font.data().to_vec(),
                    index: font.index(),
                    family: info.family.clone(),
                    weight,
                    italic: false,
                });
            }
        }
    }
    None
}

/// Set the `fsType` field of the font's OS/2 table.
fn set_fs_type(data: &mut [u8], fs_type: u16) {
    let tables = u16::from_be_bytes([data[4], data[5]]) as usize;
    for i in 0..tables {
        let record = 12 + 16 * i;
        if &data[record..record + 4] == b"OS/2" {
            let offset = u32::from_be_bytes([data[record + 8], data[record + 9], data[record + 10], data[record + 11]]) as usize;
            data[offset + 8..offset + 10].copy_from_slice(&fs_type.to_be_bytes());
            return;
        }
    }
    panic!("no OS/2 table");
}

#[test]
fn regular_face_is_embedded_once() {
    let face = face_with(400, 1).unwrap();
    let mut fonts = FontCollection::new();
    let (r, msgs) = fonts.register(&face);
    assert_eq!(r.name, face.family);
    assert!(!r.bold && !r.italic);
    assert_eq!(fonts.embeds().len(), 1);
    assert_eq!(fonts.embeds()[0].data, face.data);
    let ttf = ttf_parser::Face::parse(&face.data, face.index).unwrap();
    let cff = ttf.tables().cff.is_some() || ttf.tables().cff2.is_some();
    let cff_warning = format!(
        "font \"{}\": PostScript (CFF) outlines are embedded as-is; some Word versions may not render them",
        face.family
    );
    assert_eq!(msgs.contains(&cff_warning), cff);
    let (again, msgs) = fonts.register(&face);
    assert_eq!(again.name, r.name);
    assert!(msgs.is_empty());
    assert_eq!(fonts.embeds().len(), 1);
    let table = fonts.font_table();
    assert!(table.contains(&format!("<w:font w:name=\"{}\">", face.family)));
    assert!(table.contains("<w:embedRegular r:id=\"rId1\" w:fontKey=\"{"));
    let rels = fonts.font_table_rels();
    assert!(rels.contains("Target=\"fonts/font1.odttf\""));
}

#[test]
fn restricted_font_is_not_embedded() {
    let mut face = face_with(400, 1).unwrap();
    set_fs_type(&mut face.data, 0x0002);
    let mut fonts = FontCollection::new();
    let (_, msgs) = fonts.register(&face);
    assert!(!fonts.has_embeds());
    assert_eq!(
        msgs,
        vec![format!(
            "font \"{}\": license restricts embedding (fsType), skipping; the document will only render correctly where the font is installed",
            face.family
        )]
    );
    // The family is still listed, without embedded files.
    let table = fonts.font_table();
    assert!(table.contains(&format!("<w:font w:name=\"{}\">", face.family)));
    assert!(!table.contains("embedRegular"));
}

#[test]
fn installable_font_is_embedded() {
    let mut face = face_with(400, 1).unwrap();
    set_fs_type(&mut face.data, 0x0000);
    let mut fonts = FontCollection::new();
    fonts.register(&face);
    assert!(fonts.has_embeds());
}

#[test]
fn font_collections_are_not_embedded() {
    let mut face = face_with(400, 1).unwrap();
    face.data.splice(0..0, b"ttcf".iter().copied());
    let mut fonts = FontCollection::new();
    let (_, msgs) = fonts.register(&face);
    assert!(!fonts.has_embeds());
    assert_eq!(
        msgs,
        vec![format!(
            "font \"{}\": TrueType collections cannot be embedded; the document will only render correctly where the font is installed",
            face.family
        )]
    );
}

#[test]
fn other_weights_use_the_full_name() {
    let Some(face) = [100, 200, 300, 500, 600, 800, 900].iter().find_map(|w| face_with(*w, 3)) else {
        return;
    };
    let ttf = ttf_parser::Face::parse(&face.data, face.index).unwrap();
    let full = ttf
        .names()
        .into_iter()
        .find(|n| n.name_id == ttf_parser::name_id::FULL_NAME && n.is_unicode())
        .and_then(|n| n.to_string())
        .filter(|n| !n.is_empty())
        .unwrap_or_else(|| face.family.clone());
    let mut fonts = FontCollection::new();
    let (r, _) = fonts.register(&face);
    assert_eq!(r.name, full);
    assert!(!r.bold && !r.italic);
}

#[test]
fn two_faces_in_one_slot_warn() {
    let first = face_with(400, 1).unwrap();
    let mut second = face_with(400, 2).unwrap();
    second.data.push(0);
    let mut fonts = FontCollection::new();
    fonts.register(&first);
    let (_, msgs) = fonts.register(&second);
    assert!(msgs.contains(&format!(
        "font \"{}\": multiple faces map to the same slot, embedding only the first",
        first.family
    )));
    assert_eq!(fonts.embeds().len(), 2);
    assert_eq!(fonts.font_table().matches("embedRegular").count(), 1);
}

#[test]
fn bold_face_sets_bold() {
    if let Some(face) = face_with(700, 4) {
        let mut fonts = FontCollection::new();
        let (r, _) = fonts.register(&face);
        assert_eq!(r.name, face.family);
        assert!(r.bold);
        assert!(fonts.font_table().contains("embedBold"));
    }
}
