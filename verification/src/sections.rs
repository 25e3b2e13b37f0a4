//! Section records: the section index, the section header, and a table that
//! reads them out of an image.
use vstd::prelude::*;
use vstd::slice::slice_subrange;
use vstd::string::StringSliceAdditionalSpecFns;
use vstd::utf8::valid_utf8;

use crate::codec::{
    le_u32, lemma_u32_bytes_of_read, lemma_u32_roundtrip, push_bytes, push_u32, read_array,
    read_u32, u32_bytes,
};
use crate::utils::slice_to_str;
use crate::{Error, Result, HEADER_SIZE, SECTION_HDR_SIZE, SECTION_INDEX_SIZE};

verus! {

/// Errors found in a section record.
#[derive(Debug, Clone, Copy, PartialEq, Eq, Structural)]
pub enum SectionError {
    /// The recorded section length is 0.
    LengthError,
    /// The section data starts inside the metadata; holds the base found.
    BaseError(u32),
    /// The entry offset lies beyond the end of its section; holds the entry
    /// offset and the section length.
    EntryOffsetOutOfRange(u32, u32),
}

/// The flags of a section, kept as raw bits.
#[derive(Debug, Clone, Copy, PartialEq, Eq, Structural)]
pub struct SectionFlag {
    bits: u8,
}

impl View for SectionFlag {
    type V = u8;

    closed spec fn view(&self) -> u8 {
        self.bits
    }
}

impl SectionFlag {
    /// The bit of a loadable section.
    pub const LOADABLE: u8 = 1;

    /// The bit of an executable section.
    pub const EXECABLE: u8 = 2;

    /// The flags with exactly these bits.
    pub fn from_bits_retain(bits: u8) -> (f: SectionFlag)
        ensures
            f@ == bits,
    {
        SectionFlag { bits }
    }

    /// No flag set.
    pub fn empty() -> (f: SectionFlag)
        ensures
            f@ == 0,
    {
        SectionFlag { bits: 0 }
    }

    /// The raw bits.
    pub fn bits(&self) -> (b: u8)
        ensures
            b == self@,
    {
        self.bits
    }

    /// Whether every bit of `other` is set here.
    pub fn contains(&self, other: u8) -> (b: bool)
        ensures
            b == (self@ & other == other),
    {
        self.bits & other == other
    }

    /// Two flags with the same bits are the same flags.
    pub proof fn lemma_view_injective(a: SectionFlag, b: SectionFlag)
        requires
            a@ == b@,
        ensures
            a == b,
    {
    }
}

/// The fixed-size header of a section's metadata.
///
/// Encoded as 16 bytes: `flag` at 0, padding at 1, `base` at 4, `size` at 8,
/// padding at 12; integers little-endian.
#[derive(Debug, Clone, Copy)]
pub struct SectionHdr {
    /// The flags of the section.
    pub flag: SectionFlag,
    /// Padding.
    pub _pad1: [u8; 3],
    /// The offset of the section's data in the image.
    pub base: u32,
    /// The length of the section's data.
    pub size: u32,
    /// Padding.
    pub _pad2: [u8; 4],
}

impl SectionHdr {
    /// The 16 bytes that encode this section header.
    pub open spec fn encoding(self) -> Seq<u8> {
        seq![self.flag@] + self._pad1@ + u32_bytes(self.base) + u32_bytes(self.size)
            + self._pad2@
    }

    /// This section header is what the first 16 bytes of `s` encode.
    pub open spec fn decoded_from(self, s: Seq<u8>) -> bool {
        &&& s.len() >= SECTION_HDR_SIZE
        &&& self.flag@ == s[0]
        &&& self._pad1@ == s.subrange(1, 4)
        &&& self.base == le_u32(s, 4)
        &&& self.size == le_u32(s, 8)
        &&& self._pad2@ == s.subrange(12, 16)
    }

    /// The outcome of [`SectionHdr::validate`].
    pub open spec fn validation(self) -> Result<()> {
        if self.size == 0 {
            Err(Error::SectionError(SectionError::LengthError))
        } else {
            Ok(())
        }
    }

    /// [`SectionHdr::validate`] accepts a section header exactly when its size
    /// is not zero, and refuses it with a length error otherwise.
    pub proof fn law_validate_size(self)
        ensures
            self.validation() is Ok <==> self.size != 0,
            self.size == 0 ==> self.validation() == Err::<(), Error>(
                Error::SectionError(SectionError::LengthError),
            ),
            self.size != 0 ==> self.validation() == Ok::<(), Error>(()),
    {
    }

    /// The encoding of a section header is 16 bytes long and decodes to it.
    pub proof fn lemma_encoding_decodes(self)
        ensures
            self.encoding().len() == SECTION_HDR_SIZE,
            self.decoded_from(self.encoding()),
    {
        let e = self.encoding();
        assert(e.subrange(1, 4) =~= self._pad1@);
        assert(e.subrange(4, 8) =~= u32_bytes(self.base));
        assert(e.subrange(8, 12) =~= u32_bytes(self.size));
        assert(e.subrange(12, 16) =~= self._pad2@);
        lemma_u32_roundtrip(self.base, e, 4);
        lemma_u32_roundtrip(self.size, e, 8);
    }

    /// A section header decoded from bytes encodes back to those bytes.
    pub proof fn lemma_decoded_encodes(self, s: Seq<u8>)
        requires
            self.decoded_from(s),
        ensures
            self.encoding() == s.subrange(0, SECTION_HDR_SIZE as int),
    {
        lemma_u32_bytes_of_read(s, 4);
        lemma_u32_bytes_of_read(s, 8);
        let e = self.encoding();
        let t = s.subrange(0, 16);
        self.lemma_encoding_decodes();
        assert forall|i: int| 0 <= i < 16 implies e[i] == t[i] by {
            if 4 <= i < 8 {
                assert(e[i] == e.subrange(4, 8)[i - 4]);
                assert(t[i] == s.subrange(4, 8)[i - 4]);
            } else if 8 <= i < 12 {
                assert(e[i] == e.subrange(8, 12)[i - 8]);
                assert(t[i] == s.subrange(8, 12)[i - 8]);
            }
        }
        assert(e =~= t);
    }

    /// Two section headers decoded from the same bytes are the same.
    pub proof fn lemma_decoded_unique(a: SectionHdr, b: SectionHdr, s: Seq<u8>)
        requires
            a.decoded_from(s),
            b.decoded_from(s),
        ensures
            a == b,
    {
        assert(a._pad1 =~= b._pad1);
        assert(a._pad2 =~= b._pad2);
        SectionFlag::lemma_view_injective(a.flag, b.flag);
    }

    /// Append the encoding of this section header to `out`.
    pub(crate) fn write_to(&self, out: &mut Vec<u8>)
        ensures
            final(out)@ == old(out)@ + self.encoding(),
    {
        out.push(self.flag.bits());
        push_bytes(out, self._pad1.as_slice());
        push_u32(out, self.base);
        push_u32(out, self.size);
        push_bytes(out, self._pad2.as_slice());
        assert(out@ =~= old(out)@ + self.encoding());
    }

    /// Decode the section header held in `s[at..at + 16]`.
    pub(crate) fn from_bytes(s: &[u8], at: usize) -> (h: SectionHdr)
        requires
            at + SECTION_HDR_SIZE <= s@.len(),
        ensures
            h.decoded_from(s@.subrange(at as int, at + SECTION_HDR_SIZE)),
    {
        let h = SectionHdr {
            flag: SectionFlag::from_bits_retain(s[at]),
            _pad1: read_array(s, at + 1),
            base: read_u32(s, at + 4),
            size: read_u32(s, at + 8),
            _pad2: read_array(s, at + 12),
        };
        let ghost t = s@.subrange(at as int, at + 16);
        assert(h._pad1@ =~= t.subrange(1, 4));
        assert(h._pad2@ =~= t.subrange(12, 16));
        h
    }

    /// Convert this section header to its [`SECTION_HDR_SIZE`] bytes.
    pub fn to_array(&self) -> (a: [u8; SECTION_HDR_SIZE])
        ensures
            a@ == self.encoding(),
    {
        let mut v: Vec<u8> = Vec::new();
        self.write_to(&mut v);
        proof {
            self.lemma_encoding_decodes();
        }
        let mut a = [0u8; SECTION_HDR_SIZE];
        let mut i: usize = 0;
        while i < SECTION_HDR_SIZE
            invariant
                i <= SECTION_HDR_SIZE,
                v@ == self.encoding(),
                v@.len() == SECTION_HDR_SIZE,
                a@.len() == SECTION_HDR_SIZE,
                forall|j: int| 0 <= j < i ==> a@[j] == v@[j],
            decreases SECTION_HDR_SIZE - i,
        {
            a[i] = v[i];
            i = i + 1;
        }
        assert(a@ =~= self.encoding());
        a
    }

    /// Check that the section is not corrupted: its length must not be 0.
    pub fn validate(&self) -> (res: Result<()>)
        ensures
            res == self.validation(),
    {
        if self.size == 0 {
            return Err(Error::SectionError(SectionError::LengthError));
        }
        Ok(())
    }
}

/// The index entry of a section, which locates the section's metadata.
///
/// Encoded as 8 bytes: `base` at 0 and `name_len` at 4, little-endian.
#[derive(Debug, Clone, Copy, PartialEq, Eq, Structural)]
pub struct SectionIndex {
    /// The offset of the section's header ([`SectionHdr`]) in the image.
    pub base: u32,
    /// The length of the section's name, which follows the section header.
    pub name_len: u32,
}

impl SectionIndex {
    /// The 8 bytes that encode this index entry.
    pub open spec fn encoding(self) -> Seq<u8> {
        u32_bytes(self.base) + u32_bytes(self.name_len)
    }

    /// The index entry encoded in the first 8 bytes of `s`.
    pub open spec fn decode(s: Seq<u8>) -> SectionIndex {
        SectionIndex { base: le_u32(s, 0), name_len: le_u32(s, 4) }
    }

    /// Decoding the encoding of an index entry gives the entry back.
    pub proof fn lemma_encoding_decodes(self)
        ensures
            self.encoding().len() == SECTION_INDEX_SIZE,
            SectionIndex::decode(self.encoding()) == self,
    {
        let e = self.encoding();
        assert(e.subrange(0, 4) =~= u32_bytes(self.base));
        assert(e.subrange(4, 8) =~= u32_bytes(self.name_len));
        lemma_u32_roundtrip(self.base, e, 0);
        lemma_u32_roundtrip(self.name_len, e, 4);
    }

    /// Encoding a decoded index entry gives the bytes back.
    pub proof fn lemma_decoded_encodes(s: Seq<u8>)
        requires
            s.len() >= SECTION_INDEX_SIZE,
        ensures
            SectionIndex::decode(s).encoding() == s.subrange(0, SECTION_INDEX_SIZE as int),
    {
        lemma_u32_bytes_of_read(s, 0);
        lemma_u32_bytes_of_read(s, 4);
        let e = SectionIndex::decode(s).encoding();
        let t = s.subrange(0, 8);
        assert forall|i: int| 0 <= i < 8 implies e[i] == t[i] by {
            if i < 4 {
                assert(t[i] == s.subrange(0, 4)[i]);
            } else {
                assert(t[i] == s.subrange(4, 8)[i - 4]);
            }
        }
        assert(e =~= t);
    }

    /// Append the encoding of this index entry to `out`.
    pub(crate) fn write_to(&self, out: &mut Vec<u8>)
        ensures
            final(out)@ == old(out)@ + self.encoding(),
    {
        push_u32(out, self.base);
        push_u32(out, self.name_len);
        assert(out@ =~= old(out)@ + self.encoding());
    }

    /// Convert this index entry to its [`SECTION_INDEX_SIZE`] bytes.
    pub fn to_array(&self) -> (a: [u8; SECTION_INDEX_SIZE])
        ensures
            a@ == self.encoding(),
    {
        let mut a = [0u8; SECTION_INDEX_SIZE];
        let b = self.base;
        let n = self.name_len;
        a[0] = (b & 0xff) as u8;
        a[1] = ((b >> 8u32) & 0xff) as u8;
        a[2] = ((b >> 16u32) & 0xff) as u8;
        a[3] = (b >> 24u32) as u8;
        a[4] = (n & 0xff) as u8;
        a[5] = ((n >> 8u32) & 0xff) as u8;
        a[6] = ((n >> 16u32) & 0xff) as u8;
        a[7] = (n >> 24u32) as u8;
        assert(a@ =~= self.encoding());
        a
    }
}

/// The `i`-th entry of the section index of image `buf`.
pub open spec fn index_at(buf: Seq<u8>, i: int) -> SectionIndex {
    SectionIndex::decode(buf.subrange(HEADER_SIZE + SECTION_INDEX_SIZE * i, HEADER_SIZE + SECTION_INDEX_SIZE * i + SECTION_INDEX_SIZE))
}

/// The header of the section that `si` locates lies inside `buf`.
pub open spec fn hdr_in_bounds(buf: Seq<u8>, si: SectionIndex) -> bool {
    si.base + SECTION_HDR_SIZE <= buf.len()
}

/// The bytes of the section header that `si` locates.
pub open spec fn hdr_bytes(buf: Seq<u8>, si: SectionIndex) -> Seq<u8> {
    buf.subrange(si.base as int, si.base + SECTION_HDR_SIZE)
}

/// The name of the section that `si` locates lies inside `buf`.
pub open spec fn name_in_bounds(buf: Seq<u8>, si: SectionIndex) -> bool {
    si.base + SECTION_HDR_SIZE + si.name_len <= buf.len()
}

/// The bytes of the name of the section that `si` locates.
pub open spec fn name_bytes(buf: Seq<u8>, si: SectionIndex) -> Seq<u8> {
    buf.subrange(si.base + SECTION_HDR_SIZE, si.base + SECTION_HDR_SIZE + si.name_len)
}

/// The name of the section that `si` locates can be read as a string.
pub open spec fn name_readable(buf: Seq<u8>, si: SectionIndex) -> bool {
    name_in_bounds(buf, si) && valid_utf8(name_bytes(buf, si))
}

/// A table over the sections of an image, read from its section index.
///
/// `next` walks the index from the first entry to the last.
#[derive(Debug, Clone, Copy)]
pub struct SectionTable<'a> {
    buf: &'a [u8],
    total: u16,
    current: u16,
}

impl<'a> SectionTable<'a> {
    #[verifier::type_invariant]
    spec fn inv(self) -> bool {
        &&& HEADER_SIZE + SECTION_INDEX_SIZE * self.total <= self.buf@.len()
        &&& self.current <= self.total
    }

    /// The bytes of the image.
    pub closed spec fn bytes(self) -> Seq<u8> {
        self.buf@
    }

    /// The number of sections.
    pub closed spec fn total(self) -> nat {
        self.total as nat
    }

    /// The position of the next entry that `next` gives.
    pub closed spec fn position(self) -> nat {
        self.current as nat
    }

    /// Create a table over the `total` sections of image `buf`, whose
    /// section index must lie inside `buf`.
    pub(crate) fn new(buf: &'a [u8], total: u16) -> (t: Self)
        requires
            HEADER_SIZE + SECTION_INDEX_SIZE * total <= buf@.len(),
        ensures
            t.bytes() == buf@,
            t.total() == total,
            t.position() == 0,
    {
        Self { buf, total, current: 0 }
    }

    /// The index entry of section `index`, or `None` when there is no such
    /// section.
    pub fn get(&self, index: usize) -> (res: Option<SectionIndex>)
        ensures
            index >= self.total() ==> res is None,
            index < self.total() ==> res == Some(index_at(self.bytes(), index as int)),
    {
        proof {
            use_type_invariant(self);
        }
        if index >= self.total as usize {
            return None;
        }
        let offset = HEADER_SIZE + index * SECTION_INDEX_SIZE;
        let si = SectionIndex { base: read_u32(self.buf, offset), name_len: read_u32(self.buf, offset + 4) };
        proof {
            let t = self.buf@.subrange(offset as int, offset + 8);
            assert(le_u32(t, 0) == le_u32(self.buf@, offset as int));
            assert(le_u32(t, 4) == le_u32(self.buf@, offset + 4));
        }
        Some(si)
    }

    /// The section header that `section_index` locates.
    pub fn get_hdr_secindex(&self, section_index: SectionIndex) -> (res: SectionHdr)
        requires
            hdr_in_bounds(self.bytes(), section_index),
        ensures
            res.decoded_from(hdr_bytes(self.bytes(), section_index)),
    {
        SectionHdr::from_bytes(self.buf, section_index.base as usize)
    }

    /// The section header of section `index`, or `None` when there is no
    /// such section.
    pub fn get_hdr_idx(&self, index: usize) -> (res: Option<SectionHdr>)
        requires
            index < self.total() ==> hdr_in_bounds(self.bytes(), index_at(self.bytes(), index as int)),
        ensures
            index >= self.total() ==> res is None,
            index < self.total() ==> (res matches Some(h) && h.decoded_from(
                hdr_bytes(self.bytes(), index_at(self.bytes(), index as int)),
            )),
    {
        let section_index = self.get(index)?;
        Some(self.get_hdr_secindex(section_index))
    }

    /// The name of the section that `section_index` locates.
    pub fn get_name_secindex(&self, section_index: SectionIndex) -> (res: &'a str)
        requires
            name_readable(self.bytes(), section_index),
        ensures
            res.spec_bytes() == name_bytes(self.bytes(), section_index),
    {
        let len = self.buf.len();
        assert(section_index.base + SECTION_HDR_SIZE + section_index.name_len <= len);
        let offset = section_index.base as usize + SECTION_HDR_SIZE;
        let content = slice_subrange(self.buf, offset, offset + section_index.name_len as usize);
        match slice_to_str(content) {
            Ok(s) => s,
            Err(_) => {
                proof {
                    assert(false);
                }
                ""
            },
        }
    }

    /// The name of section `index`, or `None` when there is no such section.
    pub fn get_name_idx(&self, index: usize) -> (res: Option<&'a str>)
        requires
            index < self.total() ==> name_readable(self.bytes(), index_at(self.bytes(), index as int)),
        ensures
            index >= self.total() ==> res is None,
            index < self.total() ==> (res matches Some(s) && s.spec_bytes() == name_bytes(
                self.bytes(),
                index_at(self.bytes(), index as int),
            )),
    {
        let section_index = self.get(index)?;
        Some(self.get_name_secindex(section_index))
    }

    /// The index entries that successive calls of `next` give, from the
    /// current position to the last section, in order. The table itself does
    /// not move.
    pub fn remaining(&self) -> (res: Vec<SectionIndex>)
        ensures
            self.position() <= self.total(),
            res@ == Seq::new(
                (self.total() - self.position()) as nat,
                |k: int| index_at(self.bytes(), self.position() + k),
            ),
    {
        proof {
            use_type_invariant(self);
        }
        let mut t = *self;
        let mut res: Vec<SectionIndex> = Vec::new();
        loop
            invariant
                t.bytes() == self.bytes(),
                t.total() == self.total(),
                self.position() <= t.position() <= t.total(),
                res@ == Seq::new(
                    (t.position() - self.position()) as nat,
                    |k: int| index_at(self.bytes(), self.position() + k),
                ),
            ensures
                t.position() == t.total(),
                res@ == Seq::new(
                    (t.position() - self.position()) as nat,
                    |k: int| index_at(self.bytes(), self.position() + k),
                ),
            decreases t.total() - t.position(),
        {
            proof {
                use_type_invariant(&t);
            }
            match t.next() {
                Some(entry) => {
                    res.push(entry);
                    assert(res@ =~= Seq::new(
                        (t.position() - self.position()) as nat,
                        |k: int| index_at(self.bytes(), self.position() + k),
                    ));
                },
                None => break,
            }
        }
        res
    }

    /// The index entry at the current position, moving past it; `None` once
    /// every entry has been given.
    pub fn next(&mut self) -> (res: Option<SectionIndex>)
        ensures
            final(self).bytes() == old(self).bytes(),
            final(self).total() == old(self).total(),
            old(self).position() >= old(self).total() ==> res is None && final(self).position()
                == old(self).position(),
            old(self).position() < old(self).total() ==> res == Some(
                index_at(old(self).bytes(), old(self).position() as int),
            ) && final(self).position() == old(self).position() + 1,
    {
        proof {
            use_type_invariant(&*self);
        }
        let result = self.get(self.current as usize)?;
        self.current = self.current + 1;
        Some(result)
    }
}

} // verus!
