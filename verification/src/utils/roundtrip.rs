//! What a parser reads back from an image that a builder wrote.
use vstd::prelude::*;
use vstd::utf8::{encode_utf8, valid_utf8};

use crate::codec::{
    le_u16, le_u32, lemma_u16_roundtrip, lemma_u32_roundtrip, u16_bytes, u32_bytes, zeros,
};
use crate::utils::padded;
use crate::utils::parser::{
    data_base, data_size, image_validation, init_error, law_init_ignores_trailing_bytes, lookup,
    records_readable,
    sections_validation, ContentLookup,
};
use crate::header::{versions_ordered, Header, PKEX_MAGIC};
use crate::sections::{
    hdr_in_bounds, index_at, name_bytes, name_readable, SectionIndex,
};
use crate::utils::builder::{
    data_base_of, data_bytes, data_offset, header_bytes, image, image_len, index_bytes,
    index_entry, lemma_offsets_monotone, meta_bytes, meta_offset, meta_start, recorded_name_len,
    section_hdr_bytes, BuilderView, SectionPlan,
};
use crate::{HEADER_SIZE, SECTION_HDR_SIZE, SECTION_INDEX_SIZE, VERSION_CURRENT, VERSION_MINIMAL};

verus! {

/// The image of `v` can be read back as written: it has between 1 and
/// `u16::MAX` sections, each name is valid UTF-8 and its length fits a
/// `u32`, and every offset fits a `u32`.
pub open spec fn layout_fits(v: BuilderView) -> bool {
    &&& 0 < v.sections.len() <= u16::MAX
    &&& offsets_fit(v)
}

/// Each name of `v` is valid UTF-8 and its length fits a `u32`, and every
/// offset in the image of `v` fits a `u32`.
pub open spec fn offsets_fit(v: BuilderView) -> bool {
    &&& forall|i: int|
        0 <= i < v.sections.len() ==> #[trigger] v.sections[i].name.len() <= u32::MAX && valid_utf8(
            v.sections[i].name,
        )
    &&& image_len(v) <= u32::MAX
}

/// Every section name of `v` is at most `u32::MAX` bytes long, so the name
/// lengths the builder records and counts are the true ones.
pub open spec fn names_fit(v: BuilderView) -> bool {
    forall|i: int| 0 <= i < v.sections.len() ==> #[trigger] v.sections[i].name.len() <= u32::MAX
}

/// A slice of a concatenation that lies inside one of its parts.
proof fn lemma_concat_subrange(a: Seq<u8>, b: Seq<u8>, x: int, y: int)
    ensures
        0 <= x <= y <= a.len() ==> (a + b).subrange(x, y) == a.subrange(x, y),
        a.len() <= x <= y <= a.len() + b.len() ==> (a + b).subrange(x, y) == b.subrange(
            x - a.len(),
            y - a.len(),
        ),
{
    if 0 <= x <= y <= a.len() {
        assert((a + b).subrange(x, y) =~= a.subrange(x, y));
    }
    if a.len() <= x <= y <= a.len() + b.len() {
        assert((a + b).subrange(x, y) =~= b.subrange(x - a.len(), y - a.len()));
    }
}

proof fn lemma_meta_offset_lower(ps: Seq<SectionPlan>, k: int)
    requires
        0 <= k,
    ensures
        meta_offset(ps, k) >= SECTION_HDR_SIZE * k,
    decreases k,
{
    if k > 0 {
        lemma_meta_offset_lower(ps, k - 1);
    }
}

proof fn lemma_index_bytes(ps: Seq<SectionPlan>, k: int, i: int)
    requires
        0 <= k,
    ensures
        index_bytes(ps, k).len() == SECTION_INDEX_SIZE * k,
        0 <= i < k ==> index_bytes(ps, k).subrange(
            SECTION_INDEX_SIZE * i,
            SECTION_INDEX_SIZE * i + SECTION_INDEX_SIZE,
        ) == index_entry(ps, i).encoding(),
    decreases k,
{
    if k > 0 {
        lemma_index_bytes(ps, k - 1, i);
        index_entry(ps, k - 1).lemma_encoding_decodes();
        lemma_concat_subrange(
            index_bytes(ps, k - 1),
            index_entry(ps, k - 1).encoding(),
            SECTION_INDEX_SIZE * i,
            SECTION_INDEX_SIZE * i + SECTION_INDEX_SIZE,
        );
        if i == k - 1 {
            assert(index_entry(ps, i).encoding().subrange(0, 8) =~= index_entry(ps, i).encoding());
        }
    }
}

proof fn lemma_meta_bytes(ps: Seq<SectionPlan>, k: int, i: int)
    requires
        0 <= k <= ps.len(),
        forall|j: int| 0 <= j < k ==> #[trigger] ps[j].name.len() <= u32::MAX,
    ensures
        meta_bytes(ps, k).len() == meta_offset(ps, k),
        0 <= i < k ==> meta_bytes(ps, k).subrange(
            meta_offset(ps, i),
            meta_offset(ps, i) + SECTION_HDR_SIZE,
        ) == section_hdr_bytes(ps, i),
        0 <= i < k ==> meta_bytes(ps, k).subrange(
            meta_offset(ps, i) + SECTION_HDR_SIZE,
            meta_offset(ps, i + 1),
        ) == ps[i].name,
    decreases k,
{
    if k > 0 {
        lemma_meta_bytes(ps, k - 1, i);
        if 0 <= i {
            lemma_offsets_monotone(ps, 0, i);
        }
        assert(ps[k - 1].name.len() <= u32::MAX);
        let a = meta_bytes(ps, k - 1);
        let h = section_hdr_bytes(ps, k - 1);
        let nm = ps[k - 1].name;
        assert(h.len() == 16);
        assert(meta_bytes(ps, k) == a + h + nm);
        assert(recorded_name_len(ps[k - 1]) == nm.len());
        assert(meta_offset(ps, k) == a.len() + 16 + nm.len());
        if i == k - 1 {
            lemma_concat_subrange(a + h, nm, meta_offset(ps, i), meta_offset(ps, i) + 16);
            lemma_concat_subrange(a, h, meta_offset(ps, i), meta_offset(ps, i) + 16);
            assert(h.subrange(0, 16) =~= h);
            lemma_concat_subrange(a + h, nm, meta_offset(ps, i) + 16, meta_offset(ps, i + 1));
            assert(nm.subrange(0, nm.len() as int) =~= nm);
        } else if 0 <= i < k - 1 {
            lemma_offsets_monotone(ps, i + 1, k - 1);
            assert(ps[i].name.len() <= u32::MAX);
            assert(meta_offset(ps, i + 1) == meta_offset(ps, i) + 16 + ps[i].name.len());
            lemma_concat_subrange(a + h, nm, meta_offset(ps, i), meta_offset(ps, i) + 16);
            lemma_concat_subrange(a, h, meta_offset(ps, i), meta_offset(ps, i) + 16);
            lemma_concat_subrange(a + h, nm, meta_offset(ps, i) + 16, meta_offset(ps, i + 1));
            lemma_concat_subrange(a, h, meta_offset(ps, i) + 16, meta_offset(ps, i + 1));
        }
    }
}

proof fn lemma_data_bytes(ps: Seq<SectionPlan>, k: int, i: int)
    requires
        0 <= k <= ps.len(),
    ensures
        data_bytes(ps, k).len() == data_offset(ps, k),
        0 <= i < k ==> data_bytes(ps, k).subrange(data_offset(ps, i), data_offset(ps, i + 1))
            == ps[i].data,
    decreases k,
{
    if k > 0 {
        lemma_data_bytes(ps, k - 1, i);
        if 0 <= i {
            lemma_offsets_monotone(ps, 0, i);
        }
        let a = data_bytes(ps, k - 1);
        let d = ps[k - 1].data;
        lemma_concat_subrange(a, d, data_offset(ps, i), data_offset(ps, i + 1));
        if i == k - 1 {
            assert(d.subrange(0, d.len() as int) =~= d);
        } else if 0 <= i < k - 1 {
            lemma_offsets_monotone(ps, i + 1, k - 1);
        }
    }
}


proof fn lemma_header_bytes_len(v: BuilderView)
    ensures
        header_bytes(v).len() == HEADER_SIZE,
{
}

/// The layout of the image of `v`, for any number of sections and any size:
/// it is [`image_len`] bytes long and starts with the header; section `i`'s
/// index entry lies at `HEADER_SIZE + 8 * i`, its header and name at
/// `meta_start + meta_offset(i)`, and its data at
/// `meta_start + meta_offset(n) + data_offset(i)`. The offsets the entries and
/// headers record are those positions cut to `u32`.
pub proof fn law_built_layout(v: BuilderView, i: int)
    requires
        names_fit(v),
    ensures
        image(v).len() == image_len(v),
        image(v).subrange(0, HEADER_SIZE as int) == header_bytes(v),
        0 <= i < v.sections.len() ==> image(v).subrange(
            HEADER_SIZE + SECTION_INDEX_SIZE * i,
            HEADER_SIZE + SECTION_INDEX_SIZE * i + SECTION_INDEX_SIZE,
        ) == index_entry(v.sections, i).encoding(),
        0 <= i < v.sections.len() ==> image(v).subrange(
            meta_start(v.sections.len()) + meta_offset(v.sections, i),
            meta_start(v.sections.len()) + meta_offset(v.sections, i) + SECTION_HDR_SIZE,
        ) == section_hdr_bytes(v.sections, i),
        0 <= i < v.sections.len() ==> image(v).subrange(
            meta_start(v.sections.len()) + meta_offset(v.sections, i) + SECTION_HDR_SIZE,
            meta_start(v.sections.len()) + meta_offset(v.sections, i + 1),
        ) == v.sections[i].name,
        0 <= i < v.sections.len() ==> image(v).subrange(
            meta_start(v.sections.len()) + meta_offset(v.sections, v.sections.len() as int)
                + data_offset(v.sections, i),
            meta_start(v.sections.len()) + meta_offset(v.sections, v.sections.len() as int)
                + data_offset(v.sections, i + 1),
        ) == v.sections[i].data,
{
    let ps = v.sections;
    let n = ps.len() as int;
    let h = header_bytes(v);
    let ix = index_bytes(ps, n);
    let m = meta_bytes(ps, n);
    let d = data_bytes(ps, n);
    lemma_header_bytes_len(v);
    lemma_index_bytes(ps, n, i);
    lemma_meta_bytes(ps, n, i);
    lemma_data_bytes(ps, n, i);
    reveal(image);
    assert(image(v) == h + ix + m + d);
    let ms = meta_start(ps.len());
    let mn = meta_offset(ps, n);
    lemma_concat_subrange(h + ix + m, d, 0, 128);
    lemma_concat_subrange(h + ix, m, 0, 128);
    lemma_concat_subrange(h, ix, 0, 128);
    assert(h.subrange(0, 128) =~= h);
    if 0 <= i < n {
        lemma_offsets_monotone(ps, 0, i);
        lemma_offsets_monotone(ps, i, i + 1);
        lemma_offsets_monotone(ps, i + 1, n);
        assert(ps[i].name.len() <= u32::MAX);
        let x = 128 + 8 * i;
        lemma_concat_subrange(h + ix + m, d, x, x + 8);
        lemma_concat_subrange(h + ix, m, x, x + 8);
        lemma_concat_subrange(h, ix, x, x + 8);
        let y = ms + meta_offset(ps, i);
        lemma_concat_subrange(h + ix + m, d, y, y + 16);
        lemma_concat_subrange(h + ix, m, y, y + 16);
        lemma_concat_subrange(h + ix + m, d, y + 16, ms + meta_offset(ps, i + 1));
        lemma_concat_subrange(h + ix, m, y + 16, ms + meta_offset(ps, i + 1));
        lemma_concat_subrange(h + ix + m, d, ms + mn + data_offset(ps, i), ms + mn + data_offset(ps, i + 1));
    }
}

/// Section `i` of the image of `v` reads back as it was appended: its
/// index entry, header and name lie inside the image, the name is the one
/// appended and is valid UTF-8, the header holds the flag bits, the data
/// offset and the data length, and the data found there is the data appended.
pub proof fn lemma_built_section(v: BuilderView, i: int)
    requires
        offsets_fit(v),
        0 <= i < v.sections.len(),
    ensures
        ({
            let img = image(v);
            let ps = v.sections;
            let si = index_at(img, i);
            let base = meta_start(ps.len()) + meta_offset(ps, ps.len() as int) + data_offset(ps, i);
            &&& si == index_entry(ps, i)
            &&& si.base == meta_start(ps.len()) + meta_offset(ps, i)
            &&& si.name_len == ps[i].name.len()
            &&& hdr_in_bounds(img, si)
            &&& name_readable(img, si)
            &&& name_bytes(img, si) == ps[i].name
            &&& img[si.base as int] == ps[i].flag
            &&& le_u32(img, si.base + 4) == base
            &&& le_u32(img, si.base + 8) == ps[i].data.len()
            &&& base + ps[i].data.len() <= img.len()
            &&& img.subrange(base, base + ps[i].data.len()) == ps[i].data
        }),
{
    let img = image(v);
    let ps = v.sections;
    let n = ps.len() as int;
    law_built_layout(v, i);
    lemma_offsets_monotone(ps, 0, i);
    lemma_offsets_monotone(ps, i, i + 1);
    lemma_offsets_monotone(ps, i + 1, n);
    lemma_offsets_monotone(ps, 0, n);
    assert(ps[i].name.len() <= u32::MAX);
    let e = index_entry(ps, i);
    e.lemma_encoding_decodes();
    let ms = meta_start(ps.len());
    let base = ms + meta_offset(ps, n) + data_offset(ps, i);
    assert(index_at(img, i) == SectionIndex::decode(e.encoding()));
    assert(e.base == ms + meta_offset(ps, i));
    let hb = section_hdr_bytes(ps, i);
    let t = img.subrange(e.base as int, e.base + 16);
    assert(t == hb);
    assert(img[e.base as int] == t[0]);
    assert(hb.subrange(4, 8) =~= u32_bytes(data_base_of(ps, i)));
    assert(hb.subrange(8, 12) =~= u32_bytes(ps[i].data.len() as u32));
    assert(img.subrange(e.base + 4, e.base + 8) =~= hb.subrange(4, 8));
    assert(img.subrange(e.base + 8, e.base + 12) =~= hb.subrange(8, 12));
    lemma_u32_roundtrip(data_base_of(ps, i), img, e.base + 4);
    lemma_u32_roundtrip(ps[i].data.len() as u32, img, e.base + 8);
}

#[verifier::spinoff_prover]
#[verifier::rlimit(30)]
proof fn lemma_header_bytes_shape(v: BuilderView)
    ensures
        ({
            let e = header_bytes(v);
            &&& e.len() == 128
            &&& e.subrange(0, 4) == u32_bytes(PKEX_MAGIC)
            &&& e.subrange(4, 8) == u32_bytes(VERSION_CURRENT)
            &&& e.subrange(8, 12) == u32_bytes(VERSION_MINIMAL)
            &&& e.subrange(12, 16) == zeros(4)
            &&& e.subrange(16, 18) == u16_bytes(v.min[0])
            &&& e.subrange(18, 20) == u16_bytes(v.min[1])
            &&& e.subrange(20, 22) == u16_bytes(v.min[2])
            &&& e.subrange(22, 24) == zeros(2)
            &&& e.subrange(24, 26) == u16_bytes(v.max[0])
            &&& e.subrange(26, 28) == u16_bytes(v.max[1])
            &&& e.subrange(28, 30) == u16_bytes(v.max[2])
            &&& e.subrange(30, 32) == zeros(2)
            &&& e[32] == v.mode
            &&& e.subrange(33, 36) == zeros(3)
            &&& e.subrange(36, 38) == u16_bytes(v.sections.len() as u16)
            &&& e.subrange(38, 40) == u16_bytes(v.entry_idx as u16)
            &&& e.subrange(40, 44) == u32_bytes(v.entry_off)
            &&& e.subrange(44, 76) == padded(encode_utf8(v.author), 32)
            &&& e.subrange(76, 108) == padded(encode_utf8(v.name), 32)
            &&& e.subrange(108, 128) == zeros(20)
        }),
{
    let e = header_bytes(v);
    assert(e.subrange(0, 4) =~= u32_bytes(PKEX_MAGIC));
    assert(e.subrange(4, 8) =~= u32_bytes(VERSION_CURRENT));
    assert(e.subrange(8, 12) =~= u32_bytes(VERSION_MINIMAL));
    assert(e.subrange(12, 16) =~= zeros(4));
    assert(e.subrange(16, 18) =~= u16_bytes(v.min[0]));
    assert(e.subrange(18, 20) =~= u16_bytes(v.min[1]));
    assert(e.subrange(20, 22) =~= u16_bytes(v.min[2]));
    assert(e.subrange(22, 24) =~= zeros(2));
    assert(e.subrange(24, 26) =~= u16_bytes(v.max[0]));
    assert(e.subrange(26, 28) =~= u16_bytes(v.max[1]));
    assert(e.subrange(28, 30) =~= u16_bytes(v.max[2]));
    assert(e.subrange(30, 32) =~= zeros(2));
    assert(e.subrange(33, 36) =~= zeros(3));
    assert(e.subrange(36, 38) =~= u16_bytes(v.sections.len() as u16));
    assert(e.subrange(38, 40) =~= u16_bytes(v.entry_idx as u16));
    assert(e.subrange(40, 44) =~= u32_bytes(v.entry_off));
    assert(e.subrange(44, 76) =~= padded(encode_utf8(v.author), 32));
    assert(e.subrange(76, 108) =~= padded(encode_utf8(v.name), 32));
    assert(e.subrange(108, 128) =~= zeros(20));
}

proof fn lemma_image_starts_with_header(v: BuilderView)
    ensures
        image(v).len() >= HEADER_SIZE,
        image(v).subrange(0, HEADER_SIZE as int) == header_bytes(v),
{
    reveal(image);
    let ps = v.sections;
    let n = ps.len() as int;
    let h = header_bytes(v);
    let ix = index_bytes(ps, n);
    let m = meta_bytes(ps, n);
    lemma_header_bytes_len(v);
    assert(image(v) == h + ix + m + data_bytes(ps, n));
    lemma_concat_subrange(h + ix + m, data_bytes(ps, n), 0, 128);
    lemma_concat_subrange(h + ix, m, 0, 128);
    lemma_concat_subrange(h, ix, 0, 128);
    assert(h.subrange(0, 128) =~= h);
}

proof fn lemma_image_header_fields(v: BuilderView)
    ensures
        ({
            let img = image(v);
            &&& img.len() >= 128
            &&& le_u32(img, 0) == PKEX_MAGIC
            &&& le_u32(img, 4) == VERSION_CURRENT
            &&& le_u32(img, 8) == VERSION_MINIMAL
            &&& img.subrange(12, 16) == zeros(4)
            &&& le_u16(img, 16) == v.min[0]
            &&& le_u16(img, 18) == v.min[1]
            &&& le_u16(img, 20) == v.min[2]
            &&& img.subrange(22, 24) == zeros(2)
            &&& le_u16(img, 24) == v.max[0]
            &&& le_u16(img, 26) == v.max[1]
            &&& le_u16(img, 28) == v.max[2]
            &&& img.subrange(30, 32) == zeros(2)
            &&& img[32] == v.mode
            &&& img.subrange(33, 36) == zeros(3)
            &&& le_u16(img, 36) == v.sections.len() as u16
            &&& le_u16(img, 38) == v.entry_idx as u16
            &&& le_u32(img, 40) == v.entry_off
            &&& img.subrange(44, 76) == padded(encode_utf8(v.author), 32)
            &&& img.subrange(76, 108) == padded(encode_utf8(v.name), 32)
            &&& img.subrange(108, 128) == zeros(20)
        }),
{
    let img = image(v);
    lemma_image_starts_with_header(v);
    lemma_header_bytes_shape(v);
    let e = header_bytes(v);
    assert(img.subrange(0, 4) =~= e.subrange(0, 4));
    assert(img.subrange(4, 8) =~= e.subrange(4, 8));
    assert(img.subrange(8, 12) =~= e.subrange(8, 12));
    assert(img.subrange(12, 16) =~= e.subrange(12, 16));
    assert(img.subrange(16, 18) =~= e.subrange(16, 18));
    assert(img.subrange(18, 20) =~= e.subrange(18, 20));
    assert(img.subrange(20, 22) =~= e.subrange(20, 22));
    assert(img.subrange(22, 24) =~= e.subrange(22, 24));
    assert(img.subrange(24, 26) =~= e.subrange(24, 26));
    assert(img.subrange(26, 28) =~= e.subrange(26, 28));
    assert(img.subrange(28, 30) =~= e.subrange(28, 30));
    assert(img.subrange(30, 32) =~= e.subrange(30, 32));
    assert(img[32] == e[32]);
    assert(img.subrange(33, 36) =~= e.subrange(33, 36));
    assert(img.subrange(36, 38) =~= e.subrange(36, 38));
    assert(img.subrange(38, 40) =~= e.subrange(38, 40));
    assert(img.subrange(40, 44) =~= e.subrange(40, 44));
    assert(img.subrange(44, 76) =~= e.subrange(44, 76));
    assert(img.subrange(76, 108) =~= e.subrange(76, 108));
    assert(img.subrange(108, 128) =~= e.subrange(108, 128));
    lemma_u32_roundtrip(PKEX_MAGIC, img, 0);
    lemma_u32_roundtrip(VERSION_CURRENT, img, 4);
    lemma_u32_roundtrip(VERSION_MINIMAL, img, 8);
    lemma_u16_roundtrip(v.min[0], img, 16);
    lemma_u16_roundtrip(v.min[1], img, 18);
    lemma_u16_roundtrip(v.min[2], img, 20);
    lemma_u16_roundtrip(v.max[0], img, 24);
    lemma_u16_roundtrip(v.max[1], img, 26);
    lemma_u16_roundtrip(v.max[2], img, 28);
    lemma_u16_roundtrip(v.sections.len() as u16, img, 36);
    lemma_u16_roundtrip(v.entry_idx as u16, img, 38);
    lemma_u32_roundtrip(v.entry_off, img, 40);
}

/// The header that the image of `v` starts with reads back as the builder
/// set it, whatever the number of sections and the size: the magic number,
/// the current versions, the kernel versions, the mode, the number of
/// sections and the entry section cut to `u16`, the entry offset, the author
/// and the name zero padded or cut to 32 bytes, and zero padding elsewhere.
pub proof fn lemma_built_header(v: BuilderView, h: Header)
    requires
        h.decoded_from(image(v)),
    ensures
        h.magic == PKEX_MAGIC,
        h.version_current == VERSION_CURRENT,
        h.version_minimal == VERSION_MINIMAL,
        h.min == v.min,
        h.max == v.max,
        h.mode@ == v.mode,
        h.sections == v.sections.len() as u16,
        h.entry_sec == v.entry_idx as u16,
        h.entry_off == v.entry_off,
        h.author@ == padded(encode_utf8(v.author), 32),
        h.name@ == padded(encode_utf8(v.name), 32),
        h._pad1@ == zeros(4),
        h._pad2@ == zeros(2),
        h._pad3@ == zeros(2),
        h._pad4@ == zeros(3),
        h._reserved@ == zeros(20),
{
    lemma_image_header_fields(v);
    let img = image(v);
    assert(h.min@ =~= v.min@) by {
        assert(h.min@ == seq![le_u16(img, 16), le_u16(img, 18), le_u16(img, 20)]);
        assert(v.min@ =~= seq![v.min[0], v.min[1], v.min[2]]);
    }
    assert(h.max@ =~= v.max@) by {
        assert(h.max@ == seq![le_u16(img, 24), le_u16(img, 26), le_u16(img, 28)]);
        assert(v.max@ =~= seq![v.max[0], v.max[1], v.max[2]]);
    }
    assert(h.min =~= v.min);
    assert(h.max =~= v.max);
}

/// [`crate::Parser::init`] accepts every image that a builder writes.
pub proof fn law_built_image_accepted(v: BuilderView)
    requires
        layout_fits(v),
    ensures
        init_error(image(v)) is None,
{
    let img = image(v);
    let ps = v.sections;
    let n = ps.len() as int;
    law_built_layout(v, 0);
    lemma_built_section(v, n - 1);
    lemma_offsets_monotone(ps, 0, n);
    lemma_image_header_fields(v);
    lemma_offsets_monotone(ps, n - 1, n);
    assert(ps[n - 1].name.len() <= u32::MAX);
}

/// The index of the first section from `j` on whose name is `name`, or the
/// number of sections when there is none.
pub open spec fn first_named(ps: Seq<SectionPlan>, name: Seq<u8>, j: int) -> int
    decreases ps.len() - j,
{
    if j >= ps.len() {
        ps.len() as int
    } else if ps[j].name == name {
        j
    } else {
        first_named(ps, name, j + 1)
    }
}

proof fn lemma_lookup_from(v: BuilderView, name: Seq<u8>, j: int)
    requires
        layout_fits(v),
        0 <= j <= v.sections.len(),
    ensures
        ({
            let ps = v.sections;
            let f = first_named(ps, name, j);
            &&& j <= f <= ps.len()
            &&& f < ps.len() ==> ps[f].name == name && lookup(image(v), ps.len() as int, name, j)
                == (ContentLookup::Found { base: data_base_of(ps, f), size: ps[f].data.len() as u32 })
            &&& f == ps.len() ==> lookup(image(v), ps.len() as int, name, j) is Missing
        }),
    decreases v.sections.len() - j,
{
    let ps = v.sections;
    let n = ps.len() as int;
    let img = image(v);
    if j < n {
        lemma_built_section(v, j);
        lemma_lookup_from(v, name, j + 1);
        lemma_offsets_monotone(ps, 0, j);
        lemma_offsets_monotone(ps, j, n);
        assert(data_base(img, j) == meta_start(ps.len()) + meta_offset(ps, n) + data_offset(ps, j));
        assert(data_size(img, j) == ps[j].data.len());
    }
}

/// Looking a name up in the image of `v` finds the data of the first section
/// appended with that name, and finds nothing when no section has that name.
pub proof fn law_built_content(v: BuilderView, name: Seq<u8>)
    requires
        layout_fits(v),
    ensures
        ({
            let ps = v.sections;
            let f = first_named(ps, name, 0);
            let found = lookup(image(v), ps.len() as int, name, 0);
            &&& f < ps.len() ==> (found matches ContentLookup::Found { base, size } && image(
                v,
            ).subrange(base as int, base + size) == ps[f].data)
            &&& f == ps.len() ==> found is Missing
            &&& f == ps.len() <==> forall|i: int| 0 <= i < ps.len() ==> #[trigger] ps[i].name != name
        }),
{
    let ps = v.sections;
    lemma_lookup_from(v, name, 0);
    let f = first_named(ps, name, 0);
    if f < ps.len() {
        lemma_built_section(v, f);
        lemma_offsets_monotone(ps, 0, ps.len() as int);
    }
    lemma_first_named(ps, name, 0);
}

proof fn lemma_first_named(ps: Seq<SectionPlan>, name: Seq<u8>, j: int)
    requires
        0 <= j <= ps.len(),
    ensures
        first_named(ps, name, j) == ps.len() <==> forall|i: int|
            j <= i < ps.len() ==> #[trigger] ps[i].name != name,
    decreases ps.len() - j,
{
    if j < ps.len() {
        lemma_first_named(ps, name, j + 1);
    }
}

/// Each section of the image of `v` passes the checks of
/// [`crate::Parser::validate`]: its data is not empty, and it holds the
/// entry offset if it is the entry section.
pub open spec fn built_sections_valid(v: BuilderView) -> bool {
    forall|i: int|
        0 <= i < v.sections.len() ==> #[trigger] v.sections[i].data.len() > 0 && (i == v.entry_idx
            as u16 ==> v.entry_off <= v.sections[i].data.len())
}

proof fn lemma_validation_from(v: BuilderView, h: Header, j: int)
    requires
        layout_fits(v),
        h.decoded_from(image(v)),
        0 <= j <= v.sections.len(),
    ensures
        sections_validation(h, image(v), j) is Ok <==> forall|i: int|
            j <= i < v.sections.len() ==> #[trigger] v.sections[i].data.len() > 0 && (i
                == v.entry_idx as u16 ==> v.entry_off <= v.sections[i].data.len()),
    decreases v.sections.len() - j,
{
    let ps = v.sections;
    let n = ps.len() as int;
    let img = image(v);
    lemma_built_header(v, h);
    if j < n {
        lemma_validation_from(v, h, j + 1);
        lemma_built_section(v, j);
        lemma_offsets_monotone(ps, 0, j);
        lemma_offsets_monotone(ps, j, n);
        lemma_meta_offset_lower(ps, n);
        assert(data_base(img, j) == meta_start(ps.len()) + meta_offset(ps, n) + data_offset(ps, j));
        assert(data_size(img, j) == ps[j].data.len());
    }
}

/// [`crate::Parser::validate`] accepts the image of `v`, whose versions are
/// ordered, exactly when every section has data and the entry section holds
/// the entry offset.
pub proof fn law_built_validation(v: BuilderView, h: Header)
    requires
        layout_fits(v),
        versions_ordered(v.min@, v.max@),
        h.decoded_from(image(v)),
    ensures
        image_validation(h, image(v)) is Ok <==> built_sections_valid(v),
{
    lemma_built_header(v, h);
    lemma_validation_from(v, h, 0);
}
/// Every record of an image that a builder writes can be read, so
/// [`crate::Parser::check_records`] returns `true` on it.
pub proof fn law_built_records_readable(v: BuilderView)
    requires
        layout_fits(v),
    ensures
        records_readable(image(v), v.sections.len() as int, 0),
{
    assert forall|i: int| 0 <= i < v.sections.len() implies {
        &&& hdr_in_bounds(image(v), #[trigger] index_at(image(v), i))
        &&& name_readable(image(v), index_at(image(v), i))
        &&& data_base(image(v), i) + data_size(image(v), i) <= image(v).len()
    } by {
        lemma_built_section(v, i);
    }
}

/// [`crate::Parser::init`] accepts every image that a builder writes, also
/// when more bytes follow it in the buffer.
pub proof fn law_built_image_accepted_in_larger_buffer(v: BuilderView, extra: Seq<u8>)
    requires
        layout_fits(v),
    ensures
        init_error(image(v) + extra) is None,
{
    law_built_image_accepted(v);
    law_init_ignores_trailing_bytes(image(v), extra);
}

} // verus!
