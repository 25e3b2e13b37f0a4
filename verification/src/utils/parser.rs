//! The parser of proka executables.
use vstd::prelude::*;
use vstd::slice::slice_subrange;
use vstd::string::StringSliceAdditionalSpecFns;

use crate::codec::{le_u16, le_u32};
use crate::header::{version_below, versions_ordered, Header, PKEX_MAGIC};
use crate::sections::{
    hdr_bytes, hdr_in_bounds, index_at, name_bytes, name_readable, SectionError,
    SectionTable,
};
use crate::utils::slice_to_str;
use crate::{Error, Result, HEADER_SIZE, SECTION_HDR_SIZE, SECTION_INDEX_SIZE};

verus! {

/// Why [`Parser::init`] refuses image `buf`, or `None` when it accepts it:
/// the image must hold a header with the magic number, at least one section,
/// the whole section index, and the header and name of the last section.
pub open spec fn init_error(buf: Seq<u8>) -> Option<Error> {
    if buf.len() < HEADER_SIZE {
        Some(Error::ExecutableCorrupted)
    } else if le_u32(buf, 0) != PKEX_MAGIC {
        Some(Error::NotValidExecutable)
    } else if le_u16(buf, 36) == 0 {
        Some(Error::NoSections)
    } else if buf.len() < HEADER_SIZE + SECTION_INDEX_SIZE * le_u16(buf, 36) {
        Some(Error::ExecutableCorrupted)
    } else {
        let last = index_at(buf, le_u16(buf, 36) - 1);
        if buf.len() < last.base + last.name_len + SECTION_HDR_SIZE {
            Some(Error::ExecutableCorrupted)
        } else {
            None
        }
    }
}

/// The data offset recorded in the header of the section that the `i`-th
/// index entry locates.
pub open spec fn data_base(buf: Seq<u8>, i: int) -> u32 {
    le_u32(buf, index_at(buf, i).base + 4)
}

/// The data length recorded in the header of the section that the `i`-th
/// index entry locates.
pub open spec fn data_size(buf: Seq<u8>, i: int) -> u32 {
    le_u32(buf, index_at(buf, i).base + 8)
}

/// The outcome of checking section `i` of image `buf` with header `h`.
pub open spec fn section_validation(h: Header, buf: Seq<u8>, i: int) -> Result<()> {
    let base = data_base(buf, i);
    let size = data_size(buf, i);
    if !hdr_in_bounds(buf, index_at(buf, i)) {
        Err(Error::ExecutableCorrupted)
    } else if base < HEADER_SIZE + SECTION_HDR_SIZE * h.sections {
        Err(Error::SectionError(SectionError::BaseError(base)))
    } else if size == 0 {
        Err(Error::SectionError(SectionError::LengthError))
    } else if i == h.entry_sec && h.entry_off > size {
        Err(Error::SectionError(SectionError::EntryOffsetOutOfRange(h.entry_off, size)))
    } else if base + size > buf.len() {
        Err(Error::ExecutableCorrupted)
    } else {
        Ok(())
    }
}

/// The first error among sections `i..h.sections`, in index order.
pub open spec fn sections_validation(h: Header, buf: Seq<u8>, i: int) -> Result<()>
    decreases h.sections - i,
{
    if i >= h.sections {
        Ok(())
    } else {
        match section_validation(h, buf, i) {
            Err(e) => Err(e),
            Ok(_) => sections_validation(h, buf, i + 1),
        }
    }
}

/// The outcome of [`Parser::validate`] on image `buf` with header `h`.
pub open spec fn image_validation(h: Header, buf: Seq<u8>) -> Result<()> {
    if !versions_ordered(h.min@, h.max@) {
        Err(Error::VersionIncorrect(h.min, h.max))
    } else {
        sections_validation(h, buf, 0)
    }
}

/// [`Parser::validate`] refuses an image exactly when, first, its maximal
/// kernel version is lower than its minimal one (a lower major, or the same
/// major and a lower minor, or the same major and minor and a lower fix),
/// whatever its sections; otherwise it gives the outcome of the section
/// checks.
pub proof fn law_validate_version_check(h: Header, buf: Seq<u8>)
    ensures
        (h.max[0] < h.min[0] || (h.max[0] == h.min[0] && h.max[1] < h.min[1]) || (h.max[0]
            == h.min[0] && h.max[1] == h.min[1] && h.max[2] < h.min[2])) ==> image_validation(h, buf)
            == Err::<(), Error>(Error::VersionIncorrect(h.min, h.max)),
        !(h.max[0] < h.min[0] || (h.max[0] == h.min[0] && h.max[1] < h.min[1]) || (h.max[0]
            == h.min[0] && h.max[1] == h.min[1] && h.max[2] < h.min[2])) ==> image_validation(h, buf)
            == sections_validation(h, buf, 0),
{
}

/// [`Parser::init`] judges only the bytes up to the end of the last
/// section's name: an image it accepts stays accepted with any bytes after
/// it.
pub proof fn law_init_ignores_trailing_bytes(buf: Seq<u8>, extra: Seq<u8>)
    requires
        init_error(buf) is None,
    ensures
        init_error(buf + extra) is None,
{
    let all = buf + extra;
    assert(buf.len() >= HEADER_SIZE);
    assert forall|k: int| 0 <= k < buf.len() implies all[k] == buf[k] by {}
    assert(le_u32(all, 0) == le_u32(buf, 0));
    assert(le_u16(all, 36) == le_u16(buf, 36));
    let n = le_u16(buf, 36) as int;
    let at = HEADER_SIZE + SECTION_INDEX_SIZE * (n - 1);
    assert(all.subrange(at, at + 8) =~= buf.subrange(at, at + 8));
}

/// Every record of the sections `j..total` of `buf` can be read: the
/// header and name lie inside the image, the name is valid UTF-8 and the data
/// lies inside the image.
pub open spec fn records_readable(buf: Seq<u8>, total: int, j: int) -> bool {
    forall|i: int|
        j <= i < total ==> {
            &&& hdr_in_bounds(buf, #[trigger] index_at(buf, i))
            &&& name_readable(buf, index_at(buf, i))
            &&& data_base(buf, i) + data_size(buf, i) <= buf.len()
        }
}

/// When every record of the sections `j..total` can be read, looking up any
/// name from `j` on never meets an unreadable record.
pub proof fn lemma_lookup_readable(buf: Seq<u8>, total: int, name: Seq<u8>, j: int)
    requires
        records_readable(buf, total, j),
    ensures
        !(lookup(buf, total, name, j) is Unreadable),
    decreases total - j,
{
    if j < total {
        assert(hdr_in_bounds(buf, index_at(buf, j)));
        lemma_lookup_readable(buf, total, name, j + 1);
    }
}

/// What looking a section up by name finds.
pub enum ContentLookup {
    /// The section's data is `buf[base..base + size]`.
    Found { base: u32, size: u32 },
    /// No section has that name.
    Missing,
    /// A record met on the way cannot be read: a name or header lies outside
    /// the image, a name is not UTF-8, or the data of the section found lies
    /// outside the image.
    Unreadable,
}

/// Look up the first section from index `i` on whose name has the bytes
/// `name`.
pub open spec fn lookup(buf: Seq<u8>, total: int, name: Seq<u8>, i: int) -> ContentLookup
    decreases total - i,
{
    if i >= total {
        ContentLookup::Missing
    } else {
        let si = index_at(buf, i);
        if !name_readable(buf, si) || !hdr_in_bounds(buf, si) {
            ContentLookup::Unreadable
        } else if name_bytes(buf, si) == name {
            if data_base(buf, i) + data_size(buf, i) > buf.len() {
                ContentLookup::Unreadable
            } else {
                ContentLookup::Found { base: data_base(buf, i), size: data_size(buf, i) }
            }
        } else {
            lookup(buf, total, name, i + 1)
        }
    }
}

/// Whether `a` and `b` hold the same bytes.
fn bytes_equal(a: &[u8], b: &[u8]) -> (r: bool)
    ensures
        r == (a@ == b@),
{
    if a.len() != b.len() {
        return false;
    }
    let mut i: usize = 0;
    while i < a.len()
        invariant
            i <= a@.len(),
            a@.len() == b@.len(),
            forall|j: int| 0 <= j < i ==> a@[j] == b@[j],
        decreases a@.len() - i,
    {
        if a[i] != b[i] {
            return false;
        }
        i = i + 1;
    }
    assert(a@ =~= b@);
    true
}

/// The parser of a proka executable held in a byte slice.
#[derive(Debug, Clone, Copy)]
pub struct Parser<'a> {
    buf: &'a [u8],
    header: Header,
    total_sections: u16,
}

impl<'a> Parser<'a> {
    #[verifier::type_invariant]
    spec fn inv(self) -> bool {
        &&& self.header.decoded_from(self.buf@)
        &&& self.total_sections == self.header.sections
        &&& HEADER_SIZE + SECTION_INDEX_SIZE * self.header.sections <= self.buf@.len()
    }

    /// The bytes of the image.
    pub closed spec fn bytes(self) -> Seq<u8> {
        self.buf@
    }

    /// The header of the image.
    pub closed spec fn spec_header(self) -> Header {
        self.header
    }

    /// Initialize the parser on image `buf`, checking it: see
    /// [`init_error`] for when it is refused and why.
    pub fn init(buf: &'a [u8]) -> (res: Result<Self>)
        ensures
            match res {
                Ok(p) => init_error(buf@) is None && p.bytes() == buf@ && p.spec_header().decoded_from(buf@),
                Err(e) => init_error(buf@) == Some(e),
            },
    {
        if buf.len() < HEADER_SIZE {
            return Err(Error::ExecutableCorrupted);
        }
        let header = Header::from_bytes(buf);
        if header.validate().is_err() {
            return Err(Error::NotValidExecutable);
        }
        if header.sections == 0 {
            return Err(Error::NoSections);
        }
        let sections = header.sections as usize;
        if buf.len() < HEADER_SIZE + sections * SECTION_INDEX_SIZE {
            return Err(Error::ExecutableCorrupted);
        }
        let table = SectionTable::new(buf, header.sections);
        let index = match table.get(sections - 1) {
            Some(index) => index,
            None => {
                proof {
                    assert(false);
                }
                return Err(Error::ExecutableCorrupted);
            },
        };
        let len = index.base as u64 + index.name_len as u64 + SECTION_HDR_SIZE as u64;
        if (buf.len() as u64) < len {
            return Err(Error::ExecutableCorrupted);
        }
        Ok(Self::init_unchecked(buf))
    }

    /// Initialize the parser without the checks of [`Parser::init`].
    ///
    /// The image must start with a header that holds the magic number and
    /// must contain the whole section index.
    pub fn init_unchecked(buf: &'a [u8]) -> (p: Self)
        requires
            buf@.len() >= HEADER_SIZE,
            le_u32(buf@, 0) == PKEX_MAGIC,
            HEADER_SIZE + SECTION_INDEX_SIZE * le_u16(buf@, 36) <= buf@.len(),
        ensures
            p.bytes() == buf@,
            p.spec_header().decoded_from(buf@),
    {
        let header = Header::from_bytes(buf);
        Self { buf, header, total_sections: header.sections }
    }

    /// Check the image further: the maximal kernel version must not be
    /// lower than the minimal one, and for each section
    /// in index order, its header must lie inside the image, its data must
    /// start after the metadata, be non-empty, hold the entry offset if it is
    /// the entry section, and lie inside the image. The first failure is
    /// returned; see [`image_validation`]. Names are not checked here; see
    /// [`Parser::check_records`].
    pub fn validate(&self) -> (res: Result<()>)
        ensures
            res == image_validation(self.spec_header(), self.bytes()),
    {
        proof {
            use_type_invariant(self);
        }
        let minimal = self.header.min;
        let maximum = self.header.max;
        if version_below(&maximum, &minimal) {
            return Err(Error::VersionIncorrect(minimal, maximum));
        }
        let table = self.sections();
        let total = self.header.sections as usize;
        let min_base = HEADER_SIZE + total * SECTION_HDR_SIZE;
        let entry_sec = self.header.entry_sec as usize;
        let entry_off = self.header.entry_off;
        let buf_len = self.buf.len();
        let mut index: usize = 0;
        while index < total
            invariant
                index <= total,
                total == self.header.sections,
                min_base == HEADER_SIZE + SECTION_HDR_SIZE * total,
                entry_sec == self.header.entry_sec,
                entry_off == self.header.entry_off,
                buf_len == self.buf@.len(),
                table.bytes() == self.buf@,
                table.total() == total,
                versions_ordered(self.header.min@, self.header.max@),
                sections_validation(self.header, self.buf@, 0) == sections_validation(
                    self.header,
                    self.buf@,
                    index as int,
                ),
            decreases total - index,
        {
            let section_index = match table.get(index) {
                Some(si) => si,
                None => {
                    proof {
                        assert(false);
                    }
                    return Err(Error::ExecutableCorrupted);
                },
            };
            if section_index.base as usize > buf_len || buf_len - (section_index.base as usize)
                < SECTION_HDR_SIZE {
                return Err(Error::ExecutableCorrupted);
            }
            let section = table.get_hdr_secindex(section_index);
            proof {
                let t = hdr_bytes(self.buf@, section_index);
                assert(le_u32(t, 4) == data_base(self.buf@, index as int));
                assert(le_u32(t, 8) == data_size(self.buf@, index as int));
            }
            let base_off = section.base as usize;
            let len = section.size as usize;
            if base_off < min_base {
                return Err(Error::SectionError(SectionError::BaseError(base_off as u32)));
            }
            if len == 0 {
                return Err(Error::SectionError(SectionError::LengthError));
            }
            if index == entry_sec {
                let entry = entry_off as usize;
                if entry > len {
                    return Err(
                        Error::SectionError(
                            SectionError::EntryOffsetOutOfRange(entry as u32, len as u32),
                        ),
                    );
                }
            }
            if base_off > buf_len || buf_len - base_off < len {
                return Err(Error::ExecutableCorrupted);
            }
            index = index + 1;
        }
        Ok(())
    }

    /// Whether every section record can be read: each header and name lies
    /// inside the image, each name is valid UTF-8, and each section's data
    /// lies inside the image. When it holds, looking any name up with
    /// [`Parser::get_section_content`] never meets an unreadable record.
    pub fn check_records(&self) -> (r: bool)
        ensures
            r == records_readable(self.bytes(), self.spec_header().sections as int, 0),
            r ==> forall|name: Seq<u8>|
                !(#[trigger] lookup(self.bytes(), self.spec_header().sections as int, name, 0)
                    is Unreadable),
    {
        proof {
            use_type_invariant(self);
        }
        let table = self.sections();
        let total = self.header.sections as usize;
        let buf_len = self.buf.len();
        let mut index: usize = 0;
        while index < total
            invariant
                index <= total,
                total == self.header.sections,
                buf_len == self.buf@.len(),
                table.bytes() == self.buf@,
                table.total() == total,
                records_readable(self.buf@, total as int, 0) == records_readable(
                    self.buf@,
                    total as int,
                    index as int,
                ),
            decreases total - index,
        {
            let section_index = match table.get(index) {
                Some(si) => si,
                None => {
                    proof {
                        assert(false);
                    }
                    return false;
                },
            };
            let hdr_off = section_index.base as usize;
            if hdr_off > buf_len || buf_len - hdr_off < SECTION_HDR_SIZE {
                return false;
            }
            let section = table.get_hdr_secindex(section_index);
            proof {
                let t = hdr_bytes(self.buf@, section_index);
                assert(le_u32(t, 4) == data_base(self.buf@, index as int));
                assert(le_u32(t, 8) == data_size(self.buf@, index as int));
            }
            let base_off = section.base as usize;
            let len = section.size as usize;
            if base_off > buf_len || buf_len - base_off < len {
                return false;
            }
            let name_off = hdr_off + SECTION_HDR_SIZE;
            let name_len = section_index.name_len as usize;
            if buf_len - name_off < name_len {
                return false;
            }
            let name = slice_subrange(self.buf, name_off, name_off + name_len);
            if slice_to_str(name).is_err() {
                return false;
            }
            proof {
                assert(records_readable(self.buf@, total as int, index as int)
                    == records_readable(self.buf@, total as int, index + 1));
            }
            index = index + 1;
        }
        proof {
            assert forall|name: Seq<u8>|
                !(#[trigger] lookup(self.buf@, total as int, name, 0) is Unreadable) by {
                lemma_lookup_readable(self.buf@, total as int, name, 0);
            }
        }
        true
    }

    /// The data of the first section, in index order, whose name is
    /// `secname`, or `None` when no section has that name. Every record met
    /// on the way must be readable, which holds for any name once
    /// [`Parser::check_records`] has returned `true`.
    pub fn get_section_content(&self, secname: &str) -> (res: Option<&'a [u8]>)
        requires
            !(lookup(
                self.bytes(),
                self.spec_header().sections as int,
                secname.spec_bytes(),
                0,
            ) is Unreadable),
        ensures
            match lookup(
                self.bytes(),
                self.spec_header().sections as int,
                secname.spec_bytes(),
                0,
            ) {
                ContentLookup::Found { base, size } => res matches Some(c) && c@ == self.bytes().subrange(
                    base as int,
                    base + size,
                ),
                _ => res is None,
            },
    {
        proof {
            use_type_invariant(self);
        }
        let wanted = secname.as_bytes();
        let buf_len = self.buf.len();
        let table = self.sections();
        let total = self.header.sections as usize;
        let mut i: usize = 0;
        while i < total
            invariant
                i <= total,
                total == self.header.sections,
                wanted@ == secname.spec_bytes(),
                buf_len == self.buf@.len(),
                table.bytes() == self.buf@,
                table.total() == total,
                lookup(self.buf@, total as int, wanted@, 0) == lookup(
                    self.buf@,
                    total as int,
                    wanted@,
                    i as int,
                ),
                !(lookup(self.buf@, total as int, wanted@, 0) is Unreadable),
            decreases total - i,
        {
            let section_index = match table.get(i) {
                Some(si) => si,
                None => {
                    proof {
                        assert(false);
                    }
                    return None;
                },
            };
            let name = table.get_name_secindex(section_index);
            let section = table.get_hdr_secindex(section_index);
            if bytes_equal(wanted, name.as_bytes()) {
                proof {
                    let t = hdr_bytes(self.buf@, section_index);
                    assert(le_u32(t, 4) == data_base(self.buf@, i as int));
                    assert(le_u32(t, 8) == data_size(self.buf@, i as int));
                }
                assert(section.base + section.size <= buf_len);
                let base = section.base as usize;
                let length = section.size as usize;
                let content = slice_subrange(self.buf, base, base + length);
                return Some(content);
            }
            i = i + 1;
        }
        None
    }

    /// The header of the image.
    pub fn header(&self) -> (h: Header)
        ensures
            h == self.spec_header(),
            h.decoded_from(self.bytes()),
    {
        proof {
            use_type_invariant(self);
        }
        self.header
    }

    /// A table over the sections of the image, positioned at the first one.
    pub fn sections(&self) -> (t: SectionTable<'a>)
        ensures
            t.bytes() == self.bytes(),
            t.total() == self.spec_header().sections,
            t.position() == 0,
    {
        proof {
            use_type_invariant(self);
        }
        SectionTable::new(self.buf, self.total_sections)
    }
}

} // verus!
