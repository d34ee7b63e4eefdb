//! Font referencing, deduplication, and ODTTF embedding.

use vstd::prelude::*;

use std::collections::HashMap;

use crate::xml;
use crate::xml::{chars_of, concat, concat3, nat_string, string_from_chars, Xml, Ctx, Node, NS_W, NS_R};

verus! {

broadcast use {vstd::seq::group_seq_axioms, vstd::std_specs::hash::group_hash_axioms};

// ---------------------------------------------------------------------------
// Obfuscation GUIDs
// ---------------------------------------------------------------------------

/// One FNV-1a step: xor the byte in, multiply by the FNV prime modulo 2^64.
pub open spec fn fnv_step(h: u64, b: u8) -> u64 {
    (((h ^ (b as u64)) as nat * 0x100000001b3nat) % 0x1_0000_0000_0000_0000nat) as u64
}

/// FNV-1a over `data`, starting from `hash`.
pub open spec fn fnv1a(data: Seq<u8>, hash: u64) -> u64
    decreases data.len(),
{
    if data.len() == 0 {
        hash
    } else {
        fnv_step(fnv1a(data.drop_last(), hash), data.last())
    }
}

/// The eight big-endian bytes of `v`.
pub open spec fn be_bytes(v: u64) -> Seq<u8> {
    seq![
        (v >> 56) as u8, (v >> 48) as u8, (v >> 40) as u8, (v >> 32) as u8,
        (v >> 24) as u8, (v >> 16) as u8, (v >> 8) as u8, v as u8,
    ]
}

/// The obfuscation GUID of a face: two chained FNV-1a hashes of the data,
/// big-endian, with the RFC 4122 version 4 and variant bits stamped in.
pub open spec fn guid_of(data: Seq<u8>, index: u32) -> Seq<u8> {
    let a = fnv1a(data, 0xcbf29ce484222325u64 ^ (index as u64));
    let b = fnv1a(data, a ^ 0x9e3779b97f4a7c15u64);
    let raw = be_bytes(a) + be_bytes(b);
    raw.update(6, (raw[6] & 0x0f) | 0x40).update(8, (raw[8] & 0x3f) | 0x80)
}

fn fnv1a_exec(data: &[u8], hash: u64) -> (r: u64)
    ensures r == fnv1a(data@, hash),
{
    let mut h = hash;
    let mut i: usize = 0;
    while i < data.len()
        invariant
            i <= data@.len(),
            h == fnv1a(data@.take(i as int), hash),
        decreases data@.len() - i,
    {
        let byte = data[i];
        h = (h ^ (byte as u64)).wrapping_mul(0x100000001b3);
        i = i + 1;
        assert(data@.take(i as int).drop_last() =~= data@.take(i - 1));
    }
    assert(data@.take(i as int) =~= data@);
    h
}

/// Derive a deterministic obfuscation GUID from the font data via FNV-1a.
pub fn derive_guid(data: &[u8], index: u32) -> (guid: [u8; 16])
    ensures guid@ == guid_of(data@, index),
{
    let seed = 0xcbf29ce484222325u64 ^ (index as u64);
    let a = fnv1a_exec(data, seed);
    let b = fnv1a_exec(data, a ^ 0x9e3779b97f4a7c15u64);
    let a6 = ((a >> 8) as u8 & 0x0f) | 0x40;
    let b0 = ((b >> 56) as u8 & 0x3f) | 0x80;
    let guid: [u8; 16] = [
        (a >> 56) as u8, (a >> 48) as u8, (a >> 40) as u8, (a >> 32) as u8,
        (a >> 24) as u8, (a >> 16) as u8, a6, a as u8,
        b0, (b >> 48) as u8, (b >> 40) as u8, (b >> 32) as u8,
        (b >> 24) as u8, (b >> 16) as u8, (b >> 8) as u8, b as u8,
    ];
    assert(guid@ =~= guid_of(data@, index));
    guid
}

/// The GUID carries the RFC 4122 version 4 and variant 1 bit patterns.
pub proof fn guid_is_version4(data: Seq<u8>, index: u32)
    ensures
        guid_of(data, index).len() == 16,
        guid_of(data, index)[6] >> 4 == 4,
        guid_of(data, index)[8] >> 6 == 2,
{
    let g = guid_of(data, index);
    let a = fnv1a(data, 0xcbf29ce484222325u64 ^ (index as u64));
    let b = fnv1a(data, a ^ 0x9e3779b97f4a7c15u64);
    let raw = be_bytes(a) + be_bytes(b);
    let x = raw[6];
    let y = raw[8];
    assert(((x & 0x0f) | 0x40) >> 4 == 4u8) by (bit_vector);
    assert(((y & 0x3f) | 0x80) >> 6 == 2u8) by (bit_vector);
}

/// Uppercase hex digit.
pub open spec fn hex_upper(d: nat) -> char {
    if d < 10 { (48 + d) as char } else { (55 + d) as char }
}

/// The uppercase hex digits of bytes `lo..hi` of `g`.
pub open spec fn hex_range(g: Seq<u8>, lo: int, hi: int) -> Seq<char>
    decreases hi - lo,
{
    if hi <= lo {
        Seq::empty()
    } else {
        hex_range(g, lo, hi - 1) + seq![hex_upper(g[hi - 1] as nat / 16), hex_upper(g[hi - 1] as nat % 16)]
    }
}

/// `XXXXXXXX-XXXX-XXXX-XXXX-XXXXXXXXXXXX`.
pub open spec fn guid_text(g: Seq<u8>) -> Seq<char> {
    hex_range(g, 0, 4) + seq!['-'] + hex_range(g, 4, 6) + seq!['-'] + hex_range(g, 6, 8) + seq!['-']
        + hex_range(g, 8, 10) + seq!['-'] + hex_range(g, 10, 16)
}

fn hex_upper_char(d: u8) -> (c: char)
    requires d < 16,
    ensures c == hex_upper(d as nat),
{
    let table: [char; 16] = ['0', '1', '2', '3', '4', '5', '6', '7', '8', '9', 'A', 'B', 'C', 'D', 'E', 'F'];
    proof {
        assert(table@ == seq!['0', '1', '2', '3', '4', '5', '6', '7', '8', '9', 'A', 'B', 'C', 'D', 'E', 'F']);
    }
    table[d as usize]
}

fn push_hex_range(out: &mut Vec<char>, g: &[u8; 16], lo: usize, hi: usize)
    requires lo <= hi <= 16,
    ensures final(out)@ == old(out)@ + hex_range(g@, lo as int, hi as int),
{
    let mut i = lo;
    assert(hex_range(g@, lo as int, lo as int) =~= Seq::<char>::empty());
    assert(out@ =~= old(out)@ + hex_range(g@, lo as int, lo as int));
    while i < hi
        invariant
            lo <= i <= hi <= 16,
            out@ == old(out)@ + hex_range(g@, lo as int, i as int),
        decreases hi - i,
    {
        let b = g[i];
        out.push(hex_upper_char(b / 16));
        out.push(hex_upper_char(b % 16));
        i = i + 1;
        assert(out@ =~= old(out)@ + hex_range(g@, lo as int, i as int));
    }
}

/// Format a GUID as `XXXXXXXX-XXXX-XXXX-XXXX-XXXXXXXXXXXX` (no braces).
pub fn guid_string(guid: &[u8; 16]) -> (s: String)
    ensures s@ == guid_text(guid@),
{
    let mut out: Vec<char> = Vec::new();
    push_hex_range(&mut out, guid, 0, 4);
    out.push('-');
    push_hex_range(&mut out, guid, 4, 6);
    out.push('-');
    push_hex_range(&mut out, guid, 6, 8);
    out.push('-');
    push_hex_range(&mut out, guid, 8, 10);
    out.push('-');
    push_hex_range(&mut out, guid, 10, 16);
    assert(out@ =~= guid_text(guid@));
    string_from_chars(&out)
}

proof fn hex_range_shape(g: Seq<u8>, lo: int, hi: int)
    requires lo <= hi,
    ensures
        hex_range(g, lo, hi).len() == 2 * (hi - lo),
        forall|k: int| 0 <= k < hex_range(g, lo, hi).len() ==> #[trigger] hex_range(g, lo, hi)[k] != '-',
    decreases hi - lo,
{
    if hi > lo {
        hex_range_shape(g, lo, hi - 1);
        let p = hex_range(g, lo, hi - 1);
        let q = seq![hex_upper(g[hi - 1] as nat / 16), hex_upper(g[hi - 1] as nat % 16)];
        assert forall|k: int| 0 <= k < hex_range(g, lo, hi).len() implies #[trigger] hex_range(g, lo, hi)[k] != '-' by {
            if k < p.len() {
                assert(hex_range(g, lo, hi)[k] == p[k]);
            } else {
                assert(hex_range(g, lo, hi)[k] == q[k - p.len()]);
            }
        }
    }
}

/// The formatted GUID is 36 characters with dashes exactly at positions 8,
/// 13, 18 and 23.
pub proof fn guid_text_shape(g: Seq<u8>)
    ensures
        guid_text(g).len() == 36,
        forall|k: int| 0 <= k < 36 ==> (#[trigger] guid_text(g)[k] == '-' <==> (k == 8 || k == 13 || k == 18 || k == 23)),
{
    hex_range_shape(g, 0, 4);
    hex_range_shape(g, 4, 6);
    hex_range_shape(g, 6, 8);
    hex_range_shape(g, 8, 10);
    hex_range_shape(g, 10, 16);
    let t = guid_text(g);
    assert forall|k: int| 0 <= k < 36 implies (#[trigger] t[k] == '-' <==> (k == 8 || k == 13 || k == 18 || k == 23)) by {
        if k < 8 { assert(t[k] == hex_range(g, 0, 4)[k]); }
        else if k == 8 {}
        else if k < 13 { assert(t[k] == hex_range(g, 4, 6)[k - 9]); }
        else if k == 13 {}
        else if k < 18 { assert(t[k] == hex_range(g, 6, 8)[k - 14]); }
        else if k == 18 {}
        else if k < 23 { assert(t[k] == hex_range(g, 8, 10)[k - 19]); }
        else if k == 23 {}
        else { assert(t[k] == hex_range(g, 10, 16)[k - 24]); }
    }
}

/// Where the two characters for byte `k` of a GUID stand in its text: two
/// per byte, after the dashes that come before that byte's group.
pub open spec fn guid_key_pos(k: int) -> int {
    2 * k + (if k >= 4 { 1int } else { 0 }) + (if k >= 6 { 1int } else { 0 })
        + (if k >= 8 { 1int } else { 0 }) + (if k >= 10 { 1int } else { 0 })
}

/// An uppercase hexadecimal digit.
pub open spec fn is_upper_hex(c: char) -> bool {
    ('0' <= c && c <= '9') || ('A' <= c && c <= 'F')
}

proof fn lemma_hex_range_at(g: Seq<u8>, lo: int, hi: int, j: int)
    requires
        lo <= j < hi,
    ensures
        hex_range(g, lo, hi).len() == 2 * (hi - lo),
        hex_range(g, lo, hi)[2 * (j - lo)] == hex_upper(g[j] as nat / 16),
        hex_range(g, lo, hi)[2 * (j - lo) + 1] == hex_upper(g[j] as nat % 16),
    decreases hi - lo,
{
    hex_range_shape(g, lo, hi);
    hex_range_shape(g, lo, hi - 1);
    if j < hi - 1 {
        lemma_hex_range_at(g, lo, hi - 1, j);
    }
}

proof fn lemma_hex_upper_reads(d: nat)
    requires
        d < 16,
    ensures
        xml::hex_value(hex_upper(d)) == Some(d as u8),
        is_upper_hex(hex_upper(d)),
{
    if d < 10 {
        assert(((48 + d) as char) as u32 == 48 + d);
    } else {
        assert(((55 + d) as char) as u32 == 55 + d);
    }
}

/// The font key spells its GUID: for every byte, the two characters of the
/// key that stand for it are uppercase hexadecimal digits, high nibble
/// first, that read back as exactly that byte.
pub proof fn guid_key_spells_guid(g: Seq<u8>, k: int)
    requires
        g.len() == 16,
        0 <= k < 16,
    ensures ({
        let t = guid_text(g);
        let p = guid_key_pos(k);
        &&& 0 <= p && p + 1 < t.len()
        &&& is_upper_hex(t[p]) && is_upper_hex(t[p + 1])
        &&& xml::hex_pair(t[p], t[p + 1]) == Some(g[k])
    }),
{
    let t = guid_text(g);
    let (lo, hi, off): (int, int, int) = if k < 4 {
        (0, 4, 0)
    } else if k < 6 {
        (4, 6, 9)
    } else if k < 8 {
        (6, 8, 14)
    } else if k < 10 {
        (8, 10, 19)
    } else {
        (10, 16, 24)
    };
    hex_range_shape(g, 0, 4);
    hex_range_shape(g, 4, 6);
    hex_range_shape(g, 6, 8);
    hex_range_shape(g, 8, 10);
    hex_range_shape(g, 10, 16);
    lemma_hex_range_at(g, lo, hi, k);
    let h = hex_range(g, lo, hi);
    let p = guid_key_pos(k);
    assert(p == off + 2 * (k - lo));
    assert(t[p] == h[2 * (k - lo)]);
    assert(t[p + 1] == h[2 * (k - lo) + 1]);
    let b = g[k] as nat;
    lemma_hex_upper_reads(b / 16);
    lemma_hex_upper_reads(b % 16);
    assert(((b / 16) as u8) * 16 + ((b % 16) as u8) == b);
}

// ---------------------------------------------------------------------------
// ODTTF obfuscation
// ---------------------------------------------------------------------------

/// ECMA-376 Part 1 §15.2.13: the first 32 bytes are XORed with the GUID's 16
/// bytes in reverse order, repeated twice; the rest is unchanged.
pub open spec fn obfuscated(data: Seq<u8>, guid: Seq<u8>) -> Seq<u8> {
    Seq::new(data.len(), |i: int| if i < 32 { data[i] ^ guid[15 - (i % 16)] } else { data[i] })
}

/// Obfuscate font data according to ECMA-376 Part 1 §15.2.13.
///
/// The first 32 bytes are XORed with the GUID's 16 bytes in reverse order,
/// repeated twice.
pub fn obfuscate(data: &[u8], guid: &[u8; 16]) -> (out: Vec<u8>)
    ensures out@ == obfuscated(data@, guid@),
{
    let mut out: Vec<u8> = Vec::new();
    let mut i: usize = 0;
    while i < data.len()
        invariant
            i <= data@.len(),
            out@ =~= obfuscated(data@, guid@).take(i as int),
        decreases data@.len() - i,
    {
        let b = data[i];
        if i < 32 {
            out.push(b ^ guid[15 - (i % 16)]);
        } else {
            out.push(b);
        }
        i = i + 1;
    }
    assert(obfuscated(data@, guid@).take(i as int) =~= obfuscated(data@, guid@));
    out
}

/// Obfuscating twice with the same GUID restores the original data.
pub proof fn obfuscation_is_involution(data: Seq<u8>, guid: Seq<u8>)
    requires guid.len() == 16,
    ensures obfuscated(obfuscated(data, guid), guid) == data,
{
    let once = obfuscated(data, guid);
    let twice = obfuscated(once, guid);
    assert forall|i: int| 0 <= i < data.len() implies #[trigger] twice[i] == data[i] by {
        if i < 32 {
            let x = data[i];
            let k = guid[15 - (i % 16)];
            assert((x ^ k) ^ k == x) by (bit_vector);
        }
    }
    assert(twice =~= data);
}

} // verus!

verus! {

// ---------------------------------------------------------------------------
// What the font file itself says (ttf-parser)
// ---------------------------------------------------------------------------

/// The embedding permissions of a face's `fsType` field.
#[derive(Clone, Copy, PartialEq, Eq, Structural, Debug)]
pub enum Permission {
    Installable,
    Restricted,
    PreviewAndPrint,
    Editable,
}

/// A record of the `name` table: its name id, whether it is Unicode
/// encoded, and its text when it decodes.
pub type NameRecord = (u16, bool, Option<Seq<char>>);

/// Whether `ttf_parser::Face::parse(data, index)` succeeds.
pub uninterp spec fn ttf_face_parses(data: Seq<u8>, index: u32) -> bool;

/// The permissions (`os2::Table::permissions`) of the face's OS/2 table;
/// `None` when the face does not parse, has no OS/2 table, or the field is
/// malformed.
pub uninterp spec fn ttf_permissions(data: Seq<u8>, index: u32) -> Option<Permission>;

/// Whether the face has a `CFF ` table and whether it has a `CFF2` table;
/// neither when it does not parse.
pub uninterp spec fn ttf_outline_tables(data: Seq<u8>, index: u32) -> (bool, bool);

/// Whether the face parses and `Face::is_variable` holds.
pub uninterp spec fn ttf_is_variable(data: Seq<u8>, index: u32) -> bool;

/// The records of the face's `name` table, in order; none when the face
/// does not parse.
pub uninterp spec fn ttf_names(data: Seq<u8>, index: u32) -> Seq<NameRecord>;

/// Whether the license in the face's `fsType` restricts embedding.
pub open spec fn embedding_restricted(data: Seq<u8>, index: u32) -> bool {
    ttf_permissions(data, index) == Some(Permission::Restricted)
}

/// Whether the face has PostScript (CFF or CFF2) outlines.
pub open spec fn has_cff(data: Seq<u8>, index: u32) -> bool {
    ttf_outline_tables(data, index).0 || ttf_outline_tables(data, index).1
}

/// The `name` table's id of the full font name.
pub open spec fn full_name_id() -> u16 {
    4
}

/// The first Unicode record with the full-name id, if any.
pub open spec fn first_full_name(records: Seq<NameRecord>) -> Option<NameRecord>
    decreases records.len(),
{
    if records.len() == 0 {
        None
    } else if records[0].0 == full_name_id() && records[0].1 {
        Some(records[0])
    } else {
        first_full_name(records.drop_first())
    }
}

/// The face's full name: the text of its first Unicode full-name record,
/// if that record decodes.
pub open spec fn full_name_of(data: Seq<u8>, index: u32) -> Option<Seq<char>> {
    match first_full_name(ttf_names(data, index)) {
        Some(r) => r.2,
        None => None,
    }
}

/// Calls `ttf_parser::Face::parse` and reports whether it succeeded. The
/// contract claims only that the answer is a function of the bytes and the
/// face index.
#[verifier::external_body]
fn face_parses(data: &[u8], index: u32) -> (r: bool)
    ensures r == ttf_face_parses(data@, index),
{
    ttf_parser::Face::parse(data, index).is_ok()
}

/// Parses the face with `ttf_parser::Face::parse` and returns
/// `os2::Table::permissions` of its OS/2 table (`Face::tables`). The
/// contract claims only that the answer is a function of the bytes and the
/// face index.
#[verifier::external_body]
fn face_permissions(data: &[u8], index: u32) -> (r: Option<Permission>)
    ensures r == ttf_permissions(data@, index),
{
    let face = ttf_parser::Face::parse(data, index).ok()?;
    match face.tables().os2?.permissions()? {
        ttf_parser::Permissions::Installable => Some(Permission::Installable),
        ttf_parser::Permissions::Restricted => Some(Permission::Restricted),
        ttf_parser::Permissions::PreviewAndPrint => Some(Permission::PreviewAndPrint),
        ttf_parser::Permissions::Editable => Some(Permission::Editable),
    }
}

/// Parses the face with `ttf_parser::Face::parse` and reports which of the
/// `cff` and `cff2` tables its table set (`Face::tables`) holds. The
/// contract claims only that the answer is a function of the bytes and the
/// face index.
#[verifier::external_body]
fn face_outline_tables(data: &[u8], index: u32) -> (r: (bool, bool))
    ensures r == ttf_outline_tables(data@, index),
{
    match ttf_parser::Face::parse(data, index) {
        Ok(face) => (face.tables().cff.is_some(), face.tables().cff2.is_some()),
        Err(_) => (false, false),
    }
}

/// Parses the face with `ttf_parser::Face::parse` and calls
/// `Face::is_variable`. The contract claims only that the answer is a
/// function of the bytes and the face index.
#[verifier::external_body]
fn face_is_variable(data: &[u8], index: u32) -> (r: bool)
    ensures r == ttf_is_variable(data@, index),
{
    match ttf_parser::Face::parse(data, index) {
        Ok(face) => face.is_variable(),
        Err(_) => false,
    }
}

/// The view of a `name` record.
pub open spec fn name_record_view(r: (u16, bool, Option<String>)) -> NameRecord {
    (r.0, r.1, match r.2 { Some(s) => Some(s@), None => None })
}

/// Parses the face with `ttf_parser::Face::parse` and lists the records of
/// `Face::names`, each as its `name_id`, `Name::is_unicode` and
/// `Name::to_string`. The contract claims only that the answer is a
/// function of the bytes and the face index.
#[verifier::external_body]
fn face_names(data: &[u8], index: u32) -> (r: Vec<(u16, bool, Option<String>)>)
    ensures r@.map_values(|n: (u16, bool, Option<String>)| name_record_view(n)) == ttf_names(data@, index),
{
    match ttf_parser::Face::parse(data, index) {
        Ok(face) => face.names().into_iter().map(|n| (n.name_id, n.is_unicode(), n.to_string())).collect(),
        Err(_) => Vec::new(),
    }
}

/// The full name of a face from its `name` table.
fn full_name(data: &[u8], index: u32) -> (r: Option<String>)
    ensures
        r is Some <==> full_name_of(data@, index) is Some,
        r matches Some(s) ==> full_name_of(data@, index) == Some(s@),
{
    let records = face_names(data, index);
    let ghost all = ttf_names(data@, index);
    assert(all.skip(0) =~= all);
    let mut i: usize = 0;
    while i < records.len()
        invariant
            i <= records@.len(),
            all == ttf_names(data@, index),
            records@.map_values(|n: (u16, bool, Option<String>)| name_record_view(n)) == all,
            first_full_name(all) == first_full_name(all.skip(i as int)),
        decreases records@.len() - i,
    {
        let (id, unicode, text) = &records[i];
        assert(all[i as int] == name_record_view(records@[i as int]));
        assert(all.skip(i as int).drop_first() =~= all.skip(i + 1));
        assert(all.skip(i as int)[0] == all[i as int]);
        if *id == 4 && *unicode {
            proof {
                let rec = records@[i as int];
                assert(rec.0 == *id && rec.1 == *unicode && rec.2 == *text);
                assert(all[i as int].0 == full_name_id() && all[i as int].1);
                assert(first_full_name(all.skip(i as int)) == Some(all[i as int]));
                assert(full_name_of(data@, index) == all[i as int].2);
            }
            return match text {
                Some(t) => Some(t.as_str().to_owned()),
                None => None,
            };
        }
        i = i + 1;
    }
    assert(all.skip(i as int).len() == 0);
    None
}

// ---------------------------------------------------------------------------
// The font collection
// ---------------------------------------------------------------------------

/// A font face as the exporter needs it: its identity, its file, and the
/// family and style Typst resolved for it.
pub struct FontFace {
    /// Identifies the face: equal ids mean the same file and face index.
    pub id: u64,
    /// The font file.
    pub data: Vec<u8>,
    /// The face's index within the file.
    pub index: u32,
    /// The typographic family name.
    pub family: String,
    /// The weight, 100–900 (400 regular, 700 bold).
    pub weight: u16,
    /// Whether the style is anything other than normal.
    pub italic: bool,
}

/// How a run refers to a font in `w:rPr`.
pub struct FontRef {
    /// The value for all four `w:rFonts` slots.
    pub name: String,
    /// Whether the run sets `w:b`.
    pub bold: bool,
    /// Whether the run sets `w:i`.
    pub italic: bool,
}

/// The abstract value of a font reference.
pub struct FontRefView {
    pub name: Seq<char>,
    pub bold: bool,
    pub italic: bool,
}

impl View for FontRef {
    type V = FontRefView;

    open spec fn view(&self) -> FontRefView {
        FontRefView { name: self.name@, bold: self.bold, italic: self.italic }
    }
}

impl FontRef {
    pub fn duplicate(&self) -> (r: FontRef)
        ensures r@ == self@,
    {
        FontRef { name: self.name.clone(), bold: self.bold, italic: self.italic }
    }
}

/// The RIBBI slot a face occupies within a `w:font` entry.
#[derive(Debug, Copy, Clone, PartialEq, Eq, Structural)]
pub enum Slot {
    Regular,
    Bold,
    Italic,
    BoldItalic,
}

/// A font file prepared for embedding.
pub struct Embed {
    /// Raw (unobfuscated) font file data.
    pub data: Vec<u8>,
    /// The obfuscation GUID, derived deterministically from the data.
    pub guid: [u8; 16],
}

/// Per-family record in the font table.
pub struct Family {
    /// The `w:name` under which the family appears in the font table.
    pub name: String,
    /// Indices into the embeds per slot.
    pub slots: Vec<(Slot, usize)>,
}

/// Collects all fonts referenced by the document.
pub struct FontCollection {
    /// Cache of per-face resolution results.
    map: HashMap<u64, FontRef>,
    /// Families in ascending order of name.
    families: Vec<Family>,
    /// Embedded font files, in registration order (`font{i+1}.odttf`).
    embeds: Vec<Embed>,
}

/// The abstract state of the font collection.
pub struct FontsView {
    /// Resolved faces by id.
    pub refs: Map<u64, FontRefView>,
    /// Families (name, slots) in ascending order of name.
    pub families: Seq<(Seq<char>, Seq<(Slot, usize)>)>,
    /// Embedded files (data, GUID) in registration order.
    pub embeds: Seq<(Seq<u8>, Seq<u8>)>,
}

/// Lexicographic order of texts by code point, which is the order of their
/// UTF-8 bytes.
pub open spec fn text_lt(a: Seq<char>, b: Seq<char>) -> bool
    decreases a.len(),
{
    if b.len() == 0 {
        false
    } else if a.len() == 0 {
        true
    } else if a[0] != b[0] {
        (a[0] as int) < (b[0] as int)
    } else {
        text_lt(a.drop_first(), b.drop_first())
    }
}

/// The slots registered under a family name, if the family is listed.
pub open spec fn family_slots(fams: Seq<(Seq<char>, Seq<(Slot, usize)>)>, name: Seq<char>) -> Option<Seq<(Slot, usize)>> {
    if exists|i: int| 0 <= i < fams.len() && fams[i].0 == name {
        Some(fams[family_index(fams, name)].1)
    } else {
        None
    }
}

/// A position at which a family name is listed.
pub open spec fn family_index(fams: Seq<(Seq<char>, Seq<(Slot, usize)>)>, name: Seq<char>) -> int {
    choose|i: int| 0 <= i < fams.len() && fams[i].0 == name
}

/// The reference cached for a face id, if any.
pub open spec fn cached_ref(refs: Map<u64, FontRefView>, id: u64) -> Option<FontRefView> {
    if refs.contains_key(id) {
        Some(refs[id])
    } else {
        None
    }
}

impl View for FontCollection {
    type V = FontsView;

    closed spec fn view(&self) -> FontsView {
        FontsView {
            refs: self.map@.map_values(|r: FontRef| r@),
            families: self.families@.map_values(|f: Family| (f.name@, f.slots@)),
            embeds: self.embeds@.map_values(|e: Embed| (e.data@, e.guid@)),
        }
    }
}

/// The invariant of the collection: families sorted by name without
/// repeats, every slot of a family used at most once and pointing at an
/// embedded file.
pub open spec fn fonts_wf(v: FontsView) -> bool {
    &&& forall|i: int, j: int| 0 <= i < j < v.families.len() ==> text_lt(#[trigger] v.families[i].0, #[trigger] v.families[j].0)
    &&& forall|i: int, k: int| 0 <= i < v.families.len() && 0 <= k < v.families[i].1.len()
            ==> (#[trigger] v.families[i].1[k]).1 < v.embeds.len()
    &&& forall|i: int, k: int, l: int| 0 <= i < v.families.len() && 0 <= k < l < v.families[i].1.len()
            ==> (#[trigger] v.families[i].1[k]).0 != (#[trigger] v.families[i].1[l]).0
    &&& forall|i: int| 0 <= i < v.embeds.len() ==> (#[trigger] v.embeds[i]).1.len() == 16
}

impl FontCollection {
    pub open spec fn wf(&self) -> bool {
        fonts_wf(self@)
    }

    pub open spec fn empty_view() -> FontsView {
        FontsView { refs: Map::empty(), families: Seq::empty(), embeds: Seq::empty() }
    }

    pub fn new() -> (r: Self)
        ensures
            r.wf(),
            r@ == Self::empty_view(),
    {
        let r = FontCollection { map: HashMap::new(), families: Vec::new(), embeds: Vec::new() };
        assert(r@.refs =~= Map::<u64, FontRefView>::empty());
        assert(r@.families =~= Seq::<(Seq<char>, Seq<(Slot, usize)>)>::empty());
        assert(r@.embeds =~= Seq::<(Seq<u8>, Seq<u8>)>::empty());
        r
    }

    /// Whether any fonts will be embedded.
    pub fn has_embeds(&self) -> (r: bool)
        ensures r == (self@.embeds.len() > 0),
    {
        self.embeds.len() > 0
    }

    /// The embedded font files, in registration order.
    pub fn embeds(&self) -> (r: &Vec<Embed>)
        ensures r@.map_values(|e: Embed| (e.data@, e.guid@)) == self@.embeds,
    {
        &self.embeds
    }
}

} // verus!

verus! {

/// Whether the file starts with the `ttcf` tag of a TrueType collection.
pub open spec fn is_collection(d: Seq<u8>) -> bool {
    d.len() >= 4 && d[0] == 0x74 && d[1] == 0x74 && d[2] == 0x63 && d[3] == 0x66
}

/// Whether a face's file is embedded: not a collection, parseable, and
/// not restricted by its `fsType` permissions.
pub open spec fn can_embed(d: Seq<u8>, index: u32) -> bool {
    !is_collection(d) && ttf_face_parses(d, index) && !embedding_restricted(d, index)
}

/// The `w:rFonts` name of a face. Regular (400) and bold (700) faces use
/// the typographic family, so they land in Word's four RIBBI slots; any
/// other weight is referenced by the face's full name when it has one.
pub open spec fn face_name(f: &FontFace) -> Seq<char> {
    if f.weight == 400 || f.weight == 700 {
        f.family@
    } else {
        match full_name_of(f.data@, f.index) {
            Some(n) => if n.len() > 0 { n } else { f.family@ },
            None => f.family@,
        }
    }
}

/// The RIBBI slot of a face within its font-table entry.
pub open spec fn face_slot(f: &FontFace) -> Slot {
    if f.weight == 400 {
        if f.italic { Slot::Italic } else { Slot::Regular }
    } else if f.weight == 700 {
        if f.italic { Slot::BoldItalic } else { Slot::Bold }
    } else {
        Slot::Regular
    }
}

/// How runs in this face refer to it. A full-name reference already
/// identifies the exact face, so it sets no style flags.
pub open spec fn face_ref(f: &FontFace) -> FontRefView {
    FontRefView {
        name: face_name(f),
        bold: f.weight == 700,
        italic: f.italic && face_name(f) == f.family@,
    }
}

/// The families after `name` is listed, with `entry` added to its slots
/// (if given) unless its slot is taken. Stated by its effect on lookups.
pub open spec fn families_after(
    old_fams: Seq<(Seq<char>, Seq<(Slot, usize)>)>,
    new_fams: Seq<(Seq<char>, Seq<(Slot, usize)>)>,
    name: Seq<char>,
    entry: Option<(Slot, usize)>,
) -> bool {
    let before = match family_slots(old_fams, name) { Some(s) => s, None => Seq::empty() };
    &&& forall|n: Seq<char>| n != name ==> #[trigger] family_slots(new_fams, n) == family_slots(old_fams, n)
    &&& family_slots(new_fams, name) == Some(match entry {
            Some(e) => if slot_taken(before, e.0) { before } else { before.push(e) },
            None => before,
        })
}

fn text_less(a: &str, b: &str) -> (r: bool)
    ensures r == text_lt(a@, b@),
{
    let x = chars_of(a);
    let y = chars_of(b);
    let mut i: usize = 0;
    assert(a@.skip(0) =~= a@);
    assert(b@.skip(0) =~= b@);
    while i < x.len() && i < y.len() && x[i] == y[i]
        invariant
            i <= x@.len(),
            i <= y@.len(),
            x@ == a@,
            y@ == b@,
            text_lt(a@, b@) == text_lt(a@.skip(i as int), b@.skip(i as int)),
        decreases x@.len() - i,
    {
        proof {
            let p = a@.skip(i as int);
            let q = b@.skip(i as int);
            assert(p.drop_first() =~= a@.skip(i + 1));
            assert(q.drop_first() =~= b@.skip(i + 1));
        }
        i = i + 1;
    }
    if i < y.len() {
        if i < x.len() {
            x[i] < y[i]
        } else {
            true
        }
    } else {
        false
    }
}

proof fn text_lt_irreflexive(a: Seq<char>)
    ensures !text_lt(a, a),
    decreases a.len(),
{
    if a.len() > 0 {
        text_lt_irreflexive(a.drop_first());
    }
}

proof fn text_lt_transitive(a: Seq<char>, b: Seq<char>, c: Seq<char>)
    requires text_lt(a, b), text_lt(b, c),
    ensures text_lt(a, c),
    decreases a.len(),
{
    if a.len() > 0 && b.len() > 0 && c.len() > 0 && a[0] == b[0] && b[0] == c[0] {
        text_lt_transitive(a.drop_first(), b.drop_first(), c.drop_first());
    }
}

proof fn text_lt_total(a: Seq<char>, b: Seq<char>)
    ensures a == b || text_lt(a, b) || text_lt(b, a),
    decreases a.len(),
{
    if a.len() > 0 && b.len() > 0 && a[0] == b[0] {
        text_lt_total(a.drop_first(), b.drop_first());
        if a.drop_first() == b.drop_first() {
            assert(a =~= seq![a[0]] + a.drop_first());
            assert(b =~= seq![b[0]] + b.drop_first());
        }
    } else if a.len() == 0 && b.len() == 0 {
        assert(a =~= b);
    } else if a.len() > 0 && b.len() > 0 {
        assert((a[0] as int) != (b[0] as int));
    }
}

pub(crate) fn str_eq(a: &str, b: &str) -> (r: bool)
    ensures r == (a@ == b@),
{
    let x = chars_of(a);
    let y = chars_of(b);
    if x.len() != y.len() {
        return false;
    }
    let mut i: usize = 0;
    while i < x.len()
        invariant
            i <= x@.len(),
            x@.len() == y@.len(),
            x@ == a@,
            y@ == b@,
            forall|k: int| 0 <= k < i ==> x@[k] == y@[k],
        decreases x@.len() - i,
    {
        if x[i] != y[i] {
            return false;
        }
        i = i + 1;
    }
    assert(x@ =~= y@);
    true
}

impl FontCollection {
    /// The reference cached for a face id.
    fn lookup(&self, id: u64) -> (r: Option<FontRef>)
        requires self.wf(),
        ensures
            r is Some <==> cached_ref(self@.refs, id) is Some,
            r matches Some(x) ==> cached_ref(self@.refs, id) == Some(x@),
    {
        match self.map.get(&id) {
            Some(r) => Some(r.duplicate()),
            None => None,
        }
    }

    /// The position of the family `name`, or where it belongs.
    fn family_position(&self, name: &str) -> (r: (usize, bool))
        requires self.wf(),
        ensures
            r.0 <= self@.families.len(),
            r.1 ==> r.0 < self@.families.len() && self@.families[r.0 as int].0 == name@,
            !r.1 ==> (forall|k: int| 0 <= k < r.0 ==> text_lt(#[trigger] self@.families[k].0, name@))
                && (forall|k: int| r.0 <= k < self@.families.len() ==> text_lt(name@, #[trigger] self@.families[k].0)),
    {
        let mut i: usize = 0;
        while i < self.families.len()
            invariant
                i <= self.families@.len(),
                self@.families.len() == self.families@.len(),
                self.wf(),
                forall|k: int| 0 <= k < i ==> text_lt(#[trigger] self@.families[k].0, name@),
            decreases self.families@.len() - i,
        {
            let f = &self.families[i];
            assert(self@.families[i as int].0 == f.name@);
            if str_eq(f.name.as_str(), name) {
                return (i, true);
            }
            if text_less(name, f.name.as_str()) {
                proof {
                    assert forall|k: int| i <= k < self@.families.len() implies text_lt(name@, #[trigger] self@.families[k].0) by {
                        if k > i {
                            text_lt_transitive(name@, self@.families[i as int].0, self@.families[k].0);
                        }
                    }
                }
                return (i, false);
            }
            proof { text_lt_total(f.name@, name@); }
            i = i + 1;
        }
        (i, false)
    }
}

} // verus!

verus! {

pub open spec fn fams_sorted(f: Seq<(Seq<char>, Seq<(Slot, usize)>)>) -> bool {
    forall|i: int, j: int| 0 <= i < j < f.len() ==> text_lt(#[trigger] f[i].0, #[trigger] f[j].0)
}

proof fn lemma_family_at(f: Seq<(Seq<char>, Seq<(Slot, usize)>)>, i: int)
    requires
        fams_sorted(f),
        0 <= i < f.len(),
    ensures
        family_slots(f, f[i].0) == Some(f[i].1),
{
    let n = f[i].0;
    assert(exists|k: int| 0 <= k < f.len() && f[k].0 == n);
    let j = family_index(f, n);
    if j < i {
        assert(text_lt(f[j].0, f[i].0));
        text_lt_irreflexive(n);
    } else if j > i {
        assert(text_lt(f[i].0, f[j].0));
        text_lt_irreflexive(n);
    }
}

proof fn lemma_family_absent(f: Seq<(Seq<char>, Seq<(Slot, usize)>)>, n: Seq<char>)
    requires forall|k: int| 0 <= k < f.len() ==> (#[trigger] f[k]).0 != n,
    ensures family_slots(f, n) is None,
{
}

/// Listing a new family leaves the lookups of every other name as they were.
proof fn lemma_insert_lookup(
    f: Seq<(Seq<char>, Seq<(Slot, usize)>)>,
    pos: int,
    e: (Seq<char>, Seq<(Slot, usize)>),
    n: Seq<char>,
)
    requires
        fams_sorted(f),
        fams_sorted(f.insert(pos, e)),
        0 <= pos <= f.len(),
        n != e.0,
    ensures
        family_slots(f.insert(pos, e), n) == family_slots(f, n),
{
    let g = f.insert(pos, e);
    if exists|j: int| 0 <= j < f.len() && f[j].0 == n {
        let j = family_index(f, n);
        lemma_family_at(f, j);
        let k = if j < pos { j } else { j + 1 };
        assert(g[k] == f[j]);
        lemma_family_at(g, k);
    } else {
        assert forall|k: int| 0 <= k < g.len() implies (#[trigger] g[k]).0 != n by {
            if k < pos {
                assert(g[k] == f[k]);
            } else if k > pos {
                assert(g[k] == f[k - 1]);
            }
        }
    }
}

/// Changing the slots of one family leaves the lookups of every other name
/// as they were.
proof fn lemma_update_lookup(
    f: Seq<(Seq<char>, Seq<(Slot, usize)>)>,
    pos: int,
    e: (Seq<char>, Seq<(Slot, usize)>),
    n: Seq<char>,
)
    requires
        fams_sorted(f),
        0 <= pos < f.len(),
        f[pos].0 == e.0,
        n != e.0,
    ensures
        fams_sorted(f.update(pos, e)),
        family_slots(f.update(pos, e), n) == family_slots(f, n),
{
    let g = f.update(pos, e);
    assert forall|i: int, j: int| 0 <= i < j < g.len() implies text_lt(#[trigger] g[i].0, #[trigger] g[j].0) by {
        assert(g[i].0 == f[i].0);
        assert(g[j].0 == f[j].0);
    }
    if exists|j: int| 0 <= j < f.len() && f[j].0 == n {
        let j = family_index(f, n);
        lemma_family_at(f, j);
        assert(g[j] == f[j]);
        lemma_family_at(g, j);
    } else {
        assert forall|k: int| 0 <= k < g.len() implies (#[trigger] g[k]).0 != n by {
            if k != pos {
                assert(g[k] == f[k]);
            }
        }
    }
}

/// "font \"{name}\": {rest}"
pub open spec fn font_msg(name: Seq<char>, rest: Seq<char>) -> Seq<char> {
    "font \""@ + name + "\": "@ + rest
}

pub open spec fn ttc_rest() -> Seq<char> {
    "TrueType collections cannot be embedded; the document will only render correctly where the font is installed"@
}

pub open spec fn restricted_rest() -> Seq<char> {
    "license restricts embedding (fsType), skipping; the document will only render correctly where the font is installed"@
}

pub open spec fn cff_rest() -> Seq<char> {
    "PostScript (CFF) outlines are embedded as-is; some Word versions may not render them"@
}

pub open spec fn variable_rest() -> Seq<char> {
    "variable font is embedded; Word will use its default instance"@
}

pub open spec fn duplicate_slot_rest() -> Seq<char> {
    "multiple faces map to the same slot, embedding only the first"@
}

/// The warnings the embedding gates raise for a face's file.
pub open spec fn embed_messages(name: Seq<char>, d: Seq<u8>, i: u32) -> Seq<Seq<char>> {
    if is_collection(d) {
        seq![font_msg(name, ttc_rest())]
    } else if !ttf_face_parses(d, i) {
        Seq::empty()
    } else if embedding_restricted(d, i) {
        seq![font_msg(name, restricted_rest())]
    } else {
        (if has_cff(d, i) { seq![font_msg(name, cff_rest())] } else { Seq::empty() })
            + (if ttf_is_variable(d, i) { seq![font_msg(name, variable_rest())] } else { Seq::empty() })
    }
}

/// Whether a slot is already taken in a list of slots.
pub open spec fn slot_taken(slots: Seq<(Slot, usize)>, s: Slot) -> bool {
    exists|k: int| 0 <= k < slots.len() && (#[trigger] slots[k]).0 == s
}

/// The slots of the face's family before it was registered.
pub open spec fn slots_before(v: FontsView, f: &FontFace) -> Seq<(Slot, usize)> {
    match family_slots(v.families, face_name(f)) { Some(s) => s, None => Seq::empty() }
}

/// All warnings that registering a new face raises, in order.
pub open spec fn register_messages(v: FontsView, f: &FontFace) -> Seq<Seq<char>> {
    embed_messages(face_name(f), f.data@, f.index)
        + (if can_embed(f.data@, f.index) && slot_taken(slots_before(v, f), face_slot(f)) {
            seq![font_msg(face_name(f), duplicate_slot_rest())]
        } else {
            Seq::empty()
        })
}

fn font_message(name: &str, rest: &str) -> (s: String)
    ensures s@ == font_msg(name@, rest@),
{
    let head = concat3("font \"", name, "\": ");
    let s = concat(head.as_str(), rest);
    proof { reveal_strlit("font \""); reveal_strlit("\": "); }
    assert(s@ =~= font_msg(name@, rest@));
    s
}

fn slot_is_taken(slots: &Vec<(Slot, usize)>, s: Slot) -> (r: bool)
    ensures r == slot_taken(slots@, s),
{
    let mut i: usize = 0;
    while i < slots.len()
        invariant
            i <= slots@.len(),
            forall|k: int| 0 <= k < i ==> (#[trigger] slots@[k]).0 != s,
        decreases slots@.len() - i,
    {
        if slots[i].0 == s {
            assert(slots@[i as int].0 == s);
            return true;
        }
        i = i + 1;
    }
    false
}

impl FontCollection {
    /// Check the embedding gates and register the file for embedding.
    /// Returns the index into the embeds if the file will be embedded.
    fn embeddable(&mut self, face: &FontFace, name: &str, msgs: &mut Vec<String>) -> (r: Option<usize>)
        requires old(self).wf(),
        ensures
            final(self).wf(),
            final(self)@.refs == old(self)@.refs,
            final(self)@.families == old(self)@.families,
            r is Some <==> can_embed(face.data@, face.index),
            r matches Some(k) ==> k == old(self)@.embeds.len(),
            final(self)@.embeds == if can_embed(face.data@, face.index) {
                old(self)@.embeds.push((face.data@, guid_of(face.data@, face.index)))
            } else {
                old(self)@.embeds
            },
            crate::texts(final(msgs)@) == crate::texts(old(msgs)@) + embed_messages(name@, face.data@, face.index),
    {
        let data = &face.data;
        let ghost m0 = crate::texts(msgs@);
        if data.len() >= 4 && data[0] == 0x74 && data[1] == 0x74 && data[2] == 0x63 && data[3] == 0x66 {
            msgs.push(font_message(name, "TrueType collections cannot be embedded; the document will only render correctly where the font is installed"));
            assert(crate::texts(msgs@) =~= m0 + embed_messages(name@, face.data@, face.index));
            return None;
        }
        if !face_parses(data.as_slice(), face.index) {
            assert(crate::texts(msgs@) =~= m0 + embed_messages(name@, face.data@, face.index));
            return None;
        }
        let permissions = face_permissions(data.as_slice(), face.index);
        if permissions == Some(Permission::Restricted) {
            msgs.push(font_message(name, "license restricts embedding (fsType), skipping; the document will only render correctly where the font is installed"));
            assert(crate::texts(msgs@) =~= m0 + embed_messages(name@, face.data@, face.index));
            return None;
        }
        let (cff, cff2) = face_outline_tables(data.as_slice(), face.index);
        if cff || cff2 {
            msgs.push(font_message(name, "PostScript (CFF) outlines are embedded as-is; some Word versions may not render them"));
        }
        if face_is_variable(data.as_slice(), face.index) {
            msgs.push(font_message(name, "variable font is embedded; Word will use its default instance"));
        }
        assert(crate::texts(msgs@) =~= m0 + embed_messages(name@, face.data@, face.index));
        let guid = derive_guid(data.as_slice(), face.index);
        let copy = vstd::slice::slice_to_vec(data.as_slice());
        let ghost before = self@;
        self.embeds.push(Embed { data: copy, guid });
        assert(self@.embeds =~= before.embeds.push((face.data@, guid_of(face.data@, face.index))));
        assert(self@.families == before.families);
        assert(self@.refs == before.refs);
        Some(self.embeds.len() - 1)
    }
}

} // verus!

verus! {

/// The effect of resolving `face` on the collection, with `r` the
/// reference handed out: a cached face gets its cached reference and
/// changes nothing; a new face gets its computed reference, is cached, has
/// its file embedded when the gates allow, and has its family listed with
/// its slot filled when the file is embedded and the slot is free.
pub open spec fn registered(v0: FontsView, v1: FontsView, face: &FontFace, r: FontRefView) -> bool {
    match cached_ref(v0.refs, face.id) {
        Some(c) => r == c && v1 == v0,
        None => {
            &&& r == face_ref(face)
            &&& v1.refs == v0.refs.insert(face.id, face_ref(face))
            &&& v1.embeds == if can_embed(face.data@, face.index) {
                    v0.embeds.push((face.data@, guid_of(face.data@, face.index)))
                } else {
                    v0.embeds
                }
            &&& families_after(v0.families, v1.families, face_name(face),
                    if can_embed(face.data@, face.index) {
                        Some((face_slot(face), v0.embeds.len() as usize))
                    } else {
                        None
                    })
        },
    }
}

/// The reference `face` resolves to: the one cached for its id, or a fresh
/// one.
pub open spec fn resolved_ref(v: FontsView, face: &FontFace) -> FontRefView {
    match cached_ref(v.refs, face.id) {
        Some(c) => c,
        None => face_ref(face),
    }
}

/// Resolving a face a second time gives the reference it got the first
/// time and changes nothing.
pub proof fn resolution_is_cached(v0: FontsView, v1: FontsView, v2: FontsView, face: &FontFace,
    r1: FontRefView, r2: FontRefView)
    requires
        registered(v0, v1, face, r1),
        registered(v1, v2, face, r2),
    ensures
        r2 == r1,
        v2 == v1,
        r1 == resolved_ref(v0, face),
        new_messages(v1, face) == Seq::<Seq<char>>::empty(),
{
    if cached_ref(v0.refs, face.id) is None {
        assert(v1.refs.contains_key(face.id));
    }
}

/// The warnings raised by resolving `face`.
pub open spec fn new_messages(v0: FontsView, face: &FontFace) -> Seq<Seq<char>> {
    match cached_ref(v0.refs, face.id) {
        Some(_) => Seq::empty(),
        None => register_messages(v0, face),
    }
}

proof fn lemma_families_after(
    f0: Seq<(Seq<char>, Seq<(Slot, usize)>)>,
    f3: Seq<(Seq<char>, Seq<(Slot, usize)>)>,
    f4: Seq<(Seq<char>, Seq<(Slot, usize)>)>,
    name: Seq<char>,
    entry: Option<(Slot, usize)>,
)
    requires
        forall|n: Seq<char>| n != name ==> #[trigger] family_slots(f3, n) == family_slots(f0, n),
        family_slots(f3, name) == Some(match family_slots(f0, name) { Some(s) => s, None => Seq::empty() }),
        entry is None ==> f4 == f3,
        entry matches Some(e) ==> {
            let before = match family_slots(f0, name) { Some(s) => s, None => Seq::empty() };
            if slot_taken(before, e.0) {
                f4 == f3
            } else {
                &&& forall|n: Seq<char>| n != name ==> #[trigger] family_slots(f4, n) == family_slots(f3, n)
                &&& family_slots(f4, name) == Some(before.push(e))
            }
        },
    ensures
        families_after(f0, f4, name, entry),
{
}

impl FontCollection {
    /// List the family `name` in the font table (if it is not listed yet)
    /// and return its position.
    fn list_family(&mut self, name: &String) -> (pos: usize)
        requires old(self).wf(),
        ensures
            final(self).wf(),
            final(self)@.refs == old(self)@.refs,
            final(self)@.embeds == old(self)@.embeds,
            pos < final(self)@.families.len(),
            final(self)@.families[pos as int].0 == name@,
            final(self)@.families[pos as int].1 == match family_slots(old(self)@.families, name@) {
                Some(s) => s,
                None => Seq::empty(),
            },
            family_slots(final(self)@.families, name@) == Some(final(self)@.families[pos as int].1),
            forall|n: Seq<char>| n != name@ ==> #[trigger] family_slots(final(self)@.families, n) == family_slots(old(self)@.families, n),
    {
        let ghost v2 = self@;
        let (pos, found) = self.family_position(name.as_str());
        if !found {
            self.families.insert(pos, Family { name: name.clone(), slots: Vec::new() });
            proof {
                let e = (name@, Seq::<(Slot, usize)>::empty());
                assert(self@.families =~= v2.families.insert(pos as int, e));
                assert(self@.refs =~= v2.refs);
                assert(self@.embeds =~= v2.embeds);
                let g = self@.families;
                assert forall|i: int, j: int| 0 <= i < j < g.len() implies text_lt(#[trigger] g[i].0, #[trigger] g[j].0) by {
                    if i < pos && j < pos {
                        assert(g[i] == v2.families[i] && g[j] == v2.families[j]);
                    } else if i < pos && j == pos {
                    } else if i < pos {
                        assert(g[i] == v2.families[i] && g[j] == v2.families[j - 1]);
                        text_lt_transitive(g[i].0, name@, g[j].0);
                    } else if i == pos {
                        assert(g[j] == v2.families[j - 1]);
                    } else {
                        assert(g[i] == v2.families[i - 1] && g[j] == v2.families[j - 1]);
                    }
                }
                assert forall|n: Seq<char>| n != name@ implies #[trigger] family_slots(g, n) == family_slots(v2.families, n) by {
                    lemma_insert_lookup(v2.families, pos as int, e, n);
                }
                text_lt_irreflexive(name@);
                assert forall|k: int| 0 <= k < v2.families.len() implies (#[trigger] v2.families[k]).0 != name@ by {
                    if k < pos { assert(text_lt(v2.families[k].0, name@)); } else { assert(text_lt(name@, v2.families[k].0)); }
                }
                lemma_family_absent(v2.families, name@);
                assert(g[pos as int] == e);
                lemma_family_at(g, pos as int);
                assert forall|i: int, k: int| 0 <= i < g.len() && 0 <= k < g[i].1.len() implies (#[trigger] g[i].1[k]).1 < self@.embeds.len() by {
                    if i < pos { assert(g[i] == v2.families[i]); } else if i > pos { assert(g[i] == v2.families[i - 1]); }
                }
                assert forall|i: int, k: int, l: int| 0 <= i < g.len() && 0 <= k < l < g[i].1.len() implies (#[trigger] g[i].1[k]).0 != (#[trigger] g[i].1[l]).0 by {
                    if i < pos { assert(g[i] == v2.families[i]); } else if i > pos { assert(g[i] == v2.families[i - 1]); }
                }
            }
        } else {
            proof {
                lemma_family_at(v2.families, pos as int);
            }
        }
        pos
    }

    /// Record that the face in `slot` of the family at `pos` is embedded
    /// as file `index`.
    fn add_slot(&mut self, pos: usize, slot: Slot, index: usize)
        requires
            old(self).wf(),
            pos < old(self)@.families.len(),
            index < old(self)@.embeds.len(),
            !slot_taken(old(self)@.families[pos as int].1, slot),
        ensures
            final(self).wf(),
            final(self)@.refs == old(self)@.refs,
            final(self)@.embeds == old(self)@.embeds,
            family_slots(final(self)@.families, old(self)@.families[pos as int].0)
                == Some(old(self)@.families[pos as int].1.push((slot, index))),
            forall|n: Seq<char>| n != old(self)@.families[pos as int].0 ==> #[trigger] family_slots(final(self)@.families, n) == family_slots(old(self)@.families, n),
    {
        let ghost v3 = self@;
        let mut fam = self.families.remove(pos);
        fam.slots.push((slot, index));
        self.families.insert(pos, fam);
        proof {
            let e = (v3.families[pos as int].0, v3.families[pos as int].1.push((slot, index)));
            assert(self@.families =~= v3.families.update(pos as int, e));
            assert(self@.refs =~= v3.refs);
            assert(self@.embeds =~= v3.embeds);
            let g = self@.families;
            assert forall|i: int, j: int| 0 <= i < j < g.len() implies text_lt(#[trigger] g[i].0, #[trigger] g[j].0) by {
                assert(g[i].0 == v3.families[i].0);
                assert(g[j].0 == v3.families[j].0);
            }
            assert forall|n: Seq<char>| n != e.0 implies #[trigger] family_slots(g, n) == family_slots(v3.families, n) by {
                lemma_update_lookup(v3.families, pos as int, e, n);
            }
            lemma_family_at(g, pos as int);
            assert forall|i: int, k: int| 0 <= i < g.len() && 0 <= k < g[i].1.len() implies (#[trigger] g[i].1[k]).1 < self@.embeds.len() by {
                if i != pos { assert(g[i] == v3.families[i]); } else if k < g[i].1.len() - 1 { assert(g[i].1[k] == v3.families[i].1[k]); }
            }
            assert forall|i: int, k: int, l: int| 0 <= i < g.len() && 0 <= k < l < g[i].1.len() implies (#[trigger] g[i].1[k]).0 != (#[trigger] g[i].1[l]).0 by {
                if i != pos {
                    assert(g[i] == v3.families[i]);
                } else {
                    assert(g[i].1[k] == v3.families[i].1[k]);
                    if l < g[i].1.len() - 1 {
                        assert(g[i].1[l] == v3.families[i].1[l]);
                    }
                }
            }
        }
    }

    /// Remember the reference of a face that has none yet.
    fn cache(&mut self, id: u64, r: FontRef)
        requires
            old(self).wf(),
            cached_ref(old(self)@.refs, id) is None,
        ensures
            final(self).wf(),
            final(self)@.refs == old(self)@.refs.insert(id, r@),
            final(self)@.families == old(self)@.families,
            final(self)@.embeds == old(self)@.embeds,
    {
        let ghost v0 = self@;
        self.map.insert(id, r);
        proof {
            assert(self@.refs =~= v0.refs.insert(id, r@));
            assert(self@.families =~= v0.families);
            assert(self@.embeds =~= v0.embeds);
        }
    }

    /// Resolve how runs should reference a face and register it for
    /// embedding. Returns the reference and the warnings to record.
    #[verifier::rlimit(50)]
    pub fn register(&mut self, face: &FontFace) -> (r: (FontRef, Vec<String>))
        requires old(self).wf(),
        ensures
            final(self).wf(),
            registered(old(self)@, final(self)@, face, r.0@),
            crate::texts(r.1@) == new_messages(old(self)@, face),
    {
        if let Some(existing) = self.lookup(face.id) {
            let msgs: Vec<String> = Vec::new();
            assert(crate::texts(msgs@) =~= Seq::<Seq<char>>::empty());
            return (existing, msgs);
        }
        let ghost v0 = self@;

        let (name, slot, bold) = if face.weight == 400 {
            (face.family.clone(), if face.italic { Slot::Italic } else { Slot::Regular }, false)
        } else if face.weight == 700 {
            (face.family.clone(), if face.italic { Slot::BoldItalic } else { Slot::Bold }, true)
        } else {
            let full = match full_name(face.data.as_slice(), face.index) {
                Some(n) => if !n.as_str().is_empty() { n } else { face.family.clone() },
                None => face.family.clone(),
            };
            (full, Slot::Regular, false)
        };
        assert(name@ == face_name(face));
        assert(slot == face_slot(face));
        let same_family = name == face.family;
        let font_ref = FontRef { italic: face.italic && same_family, name: name.clone(), bold };
        assert(font_ref@ == face_ref(face));

        self.cache(face.id, font_ref.duplicate());

        let mut msgs: Vec<String> = Vec::new();
        assert(crate::texts(msgs@) =~= Seq::<Seq<char>>::empty());
        let embed_index = self.embeddable(face, name.as_str(), &mut msgs);
        let pos = self.list_family(&name);
        let ghost v3 = self@;
        assert(v3.families[pos as int].1 == slots_before(v0, face));

        match embed_index {
            Some(index) => {
                let taken = slot_is_taken(&self.families[pos].slots, slot);
                if taken {
                    msgs.push(font_message(name.as_str(), "multiple faces map to the same slot, embedding only the first"));
                    proof { reveal_strlit("multiple faces map to the same slot, embedding only the first"); }
                } else {
                    self.add_slot(pos, slot, index);
                }
            },
            None => {},
        }
        proof {
            assert(crate::texts(msgs@) =~= register_messages(v0, face));
            assert(self@.refs == v0.refs.insert(face.id, face_ref(face)));
            assert(self@.embeds == if can_embed(face.data@, face.index) {
                        v0.embeds.push((face.data@, guid_of(face.data@, face.index)))
                    } else {
                        v0.embeds
                    });
            lemma_families_after(v0.families, v3.families, self@.families, face_name(face),
                        if can_embed(face.data@, face.index) {
                            Some((face_slot(face), v0.embeds.len() as usize))
                        } else {
                            None
                        });
        }
        (font_ref, msgs)
    }
}

} // verus!

verus! {

/// The font-table element for a slot.
pub open spec fn slot_tag(s: Slot) -> Seq<char> {
    match s {
        Slot::Regular => "w:embedRegular"@,
        Slot::Bold => "w:embedBold"@,
        Slot::Italic => "w:embedItalic"@,
        Slot::BoldItalic => "w:embedBoldItalic"@,
    }
}

/// `rId{n}`.
pub open spec fn rel_id(n: int) -> Seq<char> {
    "rId"@ + xml::decimal(n)
}

/// An embedded face in a family entry: its relationship (`rId{i+1}`) and
/// the key that deobfuscates it.
pub open spec fn embed_node(e: (Slot, usize), embeds: Seq<(Seq<u8>, Seq<u8>)>) -> Node {
    xml::el(slot_tag(e.0), seq![
        xml::a_s("r:id"@, rel_id(e.1 + 1)),
        xml::a_s("w:fontKey"@, seq!['{'] + guid_text(embeds[e.1 as int].1) + seq!['}']),
    ], seq![])
}

/// The entry of one family in `word/fontTable.xml`.
pub open spec fn font_node(f: (Seq<char>, Seq<(Slot, usize)>), embeds: Seq<(Seq<u8>, Seq<u8>)>) -> Node {
    xml::el("w:font"@, seq![xml::a_s("w:name"@, f.0)],
        seq![
            xml::el("w:charset"@, seq![xml::a_s("w:val"@, "00"@)], seq![]),
            xml::el("w:family"@, seq![xml::a_s("w:val"@, "auto"@)], seq![]),
            xml::el("w:pitch"@, seq![xml::a_s("w:val"@, "variable"@)], seq![]),
        ] + Seq::new(f.1.len(), |k: int| embed_node(f.1[k], embeds)))
}

/// `word/fontTable.xml`: one entry per family, in name order.
pub open spec fn font_table_node(v: FontsView) -> Node {
    xml::el("w:fonts"@, seq![xml::a_s("xmlns:w"@, NS_W@), xml::a_s("xmlns:r"@, NS_R@)],
        Seq::new(v.families.len(), |i: int| font_node(v.families[i], v.embeds)))
}

/// One relationship of `word/_rels/fontTable.xml.rels`.
pub open spec fn font_rel_node(i: int) -> Node {
    xml::el("Relationship"@, seq![
        xml::a_s("Id"@, rel_id(i + 1)),
        xml::a_s("Type"@, "http://schemas.openxmlformats.org/officeDocument/2006/relationships/font"@),
        xml::a_s("Target"@, "fonts/font"@ + xml::decimal(i + 1) + ".odttf"@),
    ], seq![])
}

/// `word/_rels/fontTable.xml.rels`: one relationship per embedded file.
pub open spec fn font_rels_node(n: nat) -> Node {
    xml::el("Relationships"@, seq![xml::a_s("xmlns"@, "http://schemas.openxmlformats.org/package/2006/relationships"@)],
        Seq::new(n, |i: int| font_rel_node(i)))
}

fn write_embed(xml: &mut Xml, e: &(Slot, usize), embeds: &Vec<Embed>)
    requires
        old(xml).wf(),
        e.1 < embeds@.len(),
    ensures
        final(xml).wf(),
        final(xml)@ =~~= xml::add_node(old(xml)@, embed_node(*e, embeds@.map_values(|x: Embed| (x.data@, x.guid@)))),
{
    let tag: &'static str = match e.0 {
        Slot::Regular => "w:embedRegular",
        Slot::Bold => "w:embedBold",
        Slot::Italic => "w:embedItalic",
        Slot::BoldItalic => "w:embedBoldItalic",
    };
    let len = embeds.len();
    assert(e.1 < len);
    let n = nat_string((e.1 + 1) as u64);
    let id = concat("rId", n.as_str());
    let g = guid_string(&embeds[e.1].guid);
    let key = concat3("{", g.as_str(), "}");
    proof {
        reveal_strlit("{");
        reveal_strlit("}");
        assert(key@ =~= seq!['{'] + g@ + seq!['}']);
    }
    xml.begin(tag).attr("r:id", id.as_str()).attr("w:fontKey", key.as_str()).end();
}

fn write_font_entry(xml: &mut Xml, f: &Family, embeds: &Vec<Embed>)
    requires
        old(xml).wf(),
        forall|k: int| 0 <= k < f.slots@.len() ==> (#[trigger] f.slots@[k]).1 < embeds@.len(),
    ensures
        final(xml).wf(),
        final(xml)@ =~~= xml::add_node(old(xml)@, font_node((f.name@, f.slots@), embeds@.map_values(|x: Embed| (x.data@, x.guid@)))),
{
    let ghost ev = embeds@.map_values(|x: Embed| (x.data@, x.guid@));
    let ghost spec = font_node((f.name@, f.slots@), ev);
    let ghost c0 = xml@;
    xml.begin("w:font").attr("w:name", f.name.as_str());
    xml.begin("w:charset").attr("w:val", "00").end();
    xml.begin("w:family").attr("w:val", "auto").end();
    xml.begin("w:pitch").attr("w:val", "variable").end();
    let ghost head = seq![
        xml::el("w:charset"@, seq![xml::a_s("w:val"@, "00"@)], seq![]),
        xml::el("w:family"@, seq![xml::a_s("w:val"@, "auto"@)], seq![]),
        xml::el("w:pitch"@, seq![xml::a_s("w:val"@, "variable"@)], seq![]),
    ];
    let ghost slots_spec = Seq::new(f.slots@.len(), |k: int| embed_node(f.slots@[k], ev));
    assert(xml@ =~~= (Ctx::In { parent: Box::new(c0), tag: "w:font"@, attrs: seq![xml::a_s("w:name"@, f.name@)], kids: head }));
    let mut i: usize = 0;
    while i < f.slots.len()
        invariant
            i <= f.slots@.len(),
            xml.wf(),
            forall|k: int| 0 <= k < f.slots@.len() ==> (#[trigger] f.slots@[k]).1 < embeds@.len(),
            ev == embeds@.map_values(|x: Embed| (x.data@, x.guid@)),
            slots_spec == Seq::new(f.slots@.len(), |k: int| embed_node(f.slots@[k], ev)),
            xml@ =~~= (Ctx::In { parent: Box::new(c0), tag: "w:font"@, attrs: seq![xml::a_s("w:name"@, f.name@)], kids: head + slots_spec.take(i as int) }),
        decreases f.slots@.len() - i,
    {
        write_embed(xml, &f.slots[i], embeds);
        i = i + 1;
        assert(head + slots_spec.take(i as int) =~= (head + slots_spec.take(i - 1)).push(slots_spec[i - 1]));
    }
    assert(slots_spec.take(i as int) =~= slots_spec);
    xml.end();
    assert(xml@ =~~= xml::add_node(c0, spec));
}

impl FontCollection {
    /// Build `word/fontTable.xml`.
    pub fn font_table(&self) -> (r: String)
        requires self.wf(),
        ensures r@ == xml::part(font_table_node(self@)),
    {
        let mut xml = Xml::new();
        xml.begin("w:fonts").attr("xmlns:w", NS_W).attr("xmlns:r", NS_R);
        let ghost kids = Seq::new(self@.families.len(), |i: int| font_node(self@.families[i], self@.embeds));
        let ghost attrs = seq![xml::a_s("xmlns:w"@, NS_W@), xml::a_s("xmlns:r"@, NS_R@)];
        let ghost top = Ctx::Top(Seq::empty());
        assert(xml@ =~~= (Ctx::In { parent: Box::new(top), tag: "w:fonts"@, attrs, kids: kids.take(0) }));
        let mut i: usize = 0;
        while i < self.families.len()
            invariant
                i <= self.families@.len(),
                self.wf(),
                xml.wf(),
                kids == Seq::new(self@.families.len(), |i: int| font_node(self@.families[i], self@.embeds)),
                xml@ =~~= (Ctx::In { parent: Box::new(top), tag: "w:fonts"@, attrs, kids: kids.take(i as int) }),
            decreases self.families@.len() - i,
        {
            let f = &self.families[i];
            proof {
                assert(self@.families[i as int] == (f.name@, f.slots@));
                assert forall|k: int| 0 <= k < f.slots@.len() implies (#[trigger] f.slots@[k]).1 < self.embeds@.len() by {
                    assert(self@.families[i as int].1[k] == f.slots@[k]);
                }
            }
            write_font_entry(&mut xml, f, &self.embeds);
            i = i + 1;
            assert(kids.take(i as int) =~= kids.take(i - 1).push(kids[i - 1]));
        }
        assert(kids.take(i as int) =~= kids);
        xml.end();
        assert(xml@ =~~= Ctx::Top(seq![font_table_node(self@)]));
        xml.finish_part()
    }

    /// Build `word/_rels/fontTable.xml.rels`.
    pub fn font_table_rels(&self) -> (r: String)
        ensures r@ == xml::part(font_rels_node(self@.embeds.len())),
    {
        let mut xml = Xml::new();
        xml.begin("Relationships").attr("xmlns", "http://schemas.openxmlformats.org/package/2006/relationships");
        let ghost n = self@.embeds.len();
        let ghost kids = Seq::new(n, |i: int| font_rel_node(i));
        let ghost attrs = seq![xml::a_s("xmlns"@, "http://schemas.openxmlformats.org/package/2006/relationships"@)];
        let ghost top = Ctx::Top(Seq::empty());
        assert(xml@ =~~= (Ctx::In { parent: Box::new(top), tag: "Relationships"@, attrs, kids: kids.take(0) }));
        let mut i: usize = 0;
        while i < self.embeds.len()
            invariant
                i <= self.embeds@.len(),
                n == self@.embeds.len(),
                n == self.embeds@.len(),
                xml.wf(),
                kids == Seq::new(n, |i: int| font_rel_node(i)),
                xml@ =~~= (Ctx::In { parent: Box::new(top), tag: "Relationships"@, attrs, kids: kids.take(i as int) }),
            decreases self.embeds@.len() - i,
        {
            let num = nat_string((i + 1) as u64);
            let id = concat("rId", num.as_str());
            let target = concat3("fonts/font", num.as_str(), ".odttf");
            let ghost c = xml@;
            xml.begin("Relationship")
                .attr("Id", id.as_str())
                .attr("Type", "http://schemas.openxmlformats.org/officeDocument/2006/relationships/font")
                .attr("Target", target.as_str())
                .end();
            assert(xml@ =~~= xml::add_node(c, font_rel_node(i as int)));
            i = i + 1;
            assert(kids.take(i as int) =~= kids.take(i - 1).push(kids[i - 1]));
        }
        assert(kids.take(i as int) =~= kids);
        xml.end();
        assert(xml@ =~~= Ctx::Top(seq![font_rels_node(n)]));
        xml.finish_part()
    }
}

} // verus!
