//! The file header.
use vstd::prelude::*;

use crate::codec::{
    le_u16, le_u32, lemma_u16_bytes_of_read, lemma_u16_roundtrip, lemma_u32_bytes_of_read,
    lemma_u32_roundtrip, push_bytes, push_u16, push_u32, read_array, read_u16, read_u32, u16_bytes,
    u32_bytes, zeros,
};
use crate::{Error, Result, HEADER_SIZE, VERSION_CURRENT, VERSION_MINIMAL};

verus! {

/// The magic number, the bytes `PKEX` read as a little-endian `u32`.
pub const PKEX_MAGIC: u32 = 0x58454B50;

/// Version `a` (`[major, minor, fix]`) comes before version `b`: major
/// first, then minor, then fix.
pub open spec fn version_lt(a: Seq<u16>, b: Seq<u16>) -> bool {
    ||| a[0] < b[0]
    ||| a[0] == b[0] && a[1] < b[1]
    ||| a[0] == b[0] && a[1] == b[1] && a[2] < b[2]
}

/// The maximal kernel version is not lower than the minimal one.
pub open spec fn versions_ordered(min: Seq<u16>, max: Seq<u16>) -> bool {
    !version_lt(max, min)
}

/// Whether version `a` comes before version `b`; see [`version_lt`].
pub(crate) fn version_below(a: &[u16; 3], b: &[u16; 3]) -> (r: bool)
    ensures
        r == version_lt(a@, b@),
{
    if a[0] != b[0] {
        a[0] < b[0]
    } else if a[1] != b[1] {
        a[1] < b[1]
    } else {
        a[2] < b[2]
    }
}

/// Errors found in a file header.
#[derive(Debug, Clone, Copy, PartialEq, Eq, Structural)]
pub enum HeaderError {
    /// The magic number is wrong; holds the number found.
    MagicNumberError(u32),
}

/// The mode an executable runs in, kept as raw bits so that an image with
/// bits this library does not know keeps them.
#[derive(Debug, Clone, Copy, PartialEq, Eq, Structural)]
pub struct ExecMode {
    bits: u8,
}

impl View for ExecMode {
    type V = u8;

    closed spec fn view(&self) -> u8 {
        self.bits
    }
}

#[allow(non_upper_case_globals)]
impl ExecMode {
    /// The bits of the `userapp` mode (ring 3).
    pub const UserApp: u8 = 0;

    /// The bits of the `coredrv` mode (ring 0).
    pub const CoreDrv: u8 = 1;

    /// The mode with exactly these bits.
    pub fn from_bits_retain(bits: u8) -> (m: ExecMode)
        ensures
            m@ == bits,
    {
        ExecMode { bits }
    }

    /// The raw bits of this mode.
    pub fn bits(&self) -> (b: u8)
        ensures
            b == self@,
    {
        self.bits
    }

    /// Two modes with the same bits are the same mode.
    pub proof fn lemma_view_injective(a: ExecMode, b: ExecMode)
        requires
            a@ == b@,
        ensures
            a == b,
    {
    }
}

/// The header that starts every image.
///
/// Encoded as 128 bytes, integers little-endian, in field order:
/// `magic` at 0, `version_current` at 4, `version_minimal` at 8, padding at 12,
/// `min` at 16, padding at 22, `max` at 24, padding at 30, `mode` at 32,
/// padding at 33, `sections` at 36, `entry_sec` at 38, `entry_off` at 40,
/// `author` at 44, `name` at 76 and the reserved bytes at 108.
#[derive(Debug, Clone, Copy)]
pub struct Header {
    /// The magic number, [`PKEX_MAGIC`] in a valid image.
    pub magic: u32,
    /// Format revision that the builder followed.
    pub version_current: u32,
    /// Lowest format revision that can parse the image.
    pub version_minimal: u32,
    /// Padding.
    pub _pad1: [u8; 4],
    /// The minimal kernel version, `[major, minor, fix]`.
    pub min: [u16; 3],
    /// Padding.
    pub _pad2: [u8; 2],
    /// The maximal kernel version, `[major, minor, fix]`.
    pub max: [u16; 3],
    /// Padding.
    pub _pad3: [u8; 2],
    /// Whether the image runs as `userapp` or `coredrv`.
    pub mode: ExecMode,
    /// Padding.
    pub _pad4: [u8; 3],
    /// The number of sections.
    pub sections: u16,
    /// The section that holds the entry point.
    pub entry_sec: u16,
    /// The offset of the entry point in its section.
    pub entry_off: u32,
    /// The author's name, zero padded.
    pub author: [u8; 32],
    /// The executable's name, zero padded.
    pub name: [u8; 32],
    /// Reserved bytes.
    pub _reserved: [u8; 20],
}

impl Header {
    /// The 128 bytes that encode this header.
    pub open spec fn encoding(self) -> Seq<u8> {
        u32_bytes(self.magic) + u32_bytes(self.version_current) + u32_bytes(self.version_minimal)
            + self._pad1@ + u16_bytes(self.min[0]) + u16_bytes(self.min[1]) + u16_bytes(
            self.min[2],
        ) + self._pad2@ + u16_bytes(self.max[0]) + u16_bytes(self.max[1]) + u16_bytes(self.max[2])
            + self._pad3@ + seq![self.mode@] + self._pad4@ + u16_bytes(self.sections) + u16_bytes(
            self.entry_sec,
        ) + u32_bytes(self.entry_off) + self.author@ + self.name@ + self._reserved@
    }

    /// This header is what the first 128 bytes of `s` encode.
    pub open spec fn decoded_from(self, s: Seq<u8>) -> bool {
        &&& s.len() >= HEADER_SIZE
        &&& self.magic == le_u32(s, 0)
        &&& self.version_current == le_u32(s, 4)
        &&& self.version_minimal == le_u32(s, 8)
        &&& self._pad1@ == s.subrange(12, 16)
        &&& self.min@ == seq![le_u16(s, 16), le_u16(s, 18), le_u16(s, 20)]
        &&& self._pad2@ == s.subrange(22, 24)
        &&& self.max@ == seq![le_u16(s, 24), le_u16(s, 26), le_u16(s, 28)]
        &&& self._pad3@ == s.subrange(30, 32)
        &&& self.mode@ == s[32]
        &&& self._pad4@ == s.subrange(33, 36)
        &&& self.sections == le_u16(s, 36)
        &&& self.entry_sec == le_u16(s, 38)
        &&& self.entry_off == le_u32(s, 40)
        &&& self.author@ == s.subrange(44, 76)
        &&& self.name@ == s.subrange(76, 108)
        &&& self._reserved@ == s.subrange(108, 128)
    }

    /// The encoding of a header is 128 bytes long and decodes to the header.
    pub proof fn lemma_encoding_decodes(self)
        ensures
            self.encoding().len() == HEADER_SIZE,
            self.decoded_from(self.encoding()),
    {
        let e = self.encoding();
        assert(e.len() == 128);
        assert(e.subrange(0, 4) =~= u32_bytes(self.magic));
        assert(e.subrange(4, 8) =~= u32_bytes(self.version_current));
        assert(e.subrange(8, 12) =~= u32_bytes(self.version_minimal));
        assert(e.subrange(12, 16) =~= self._pad1@);
        assert(e.subrange(16, 18) =~= u16_bytes(self.min[0]));
        assert(e.subrange(18, 20) =~= u16_bytes(self.min[1]));
        assert(e.subrange(20, 22) =~= u16_bytes(self.min[2]));
        assert(e.subrange(22, 24) =~= self._pad2@);
        assert(e.subrange(24, 26) =~= u16_bytes(self.max[0]));
        assert(e.subrange(26, 28) =~= u16_bytes(self.max[1]));
        assert(e.subrange(28, 30) =~= u16_bytes(self.max[2]));
        assert(e.subrange(30, 32) =~= self._pad3@);
        assert(e[32] == self.mode@);
        assert(e.subrange(33, 36) =~= self._pad4@);
        assert(e.subrange(36, 38) =~= u16_bytes(self.sections));
        assert(e.subrange(38, 40) =~= u16_bytes(self.entry_sec));
        assert(e.subrange(40, 44) =~= u32_bytes(self.entry_off));
        assert(e.subrange(44, 76) =~= self.author@);
        assert(e.subrange(76, 108) =~= self.name@);
        assert(e.subrange(108, 128) =~= self._reserved@);
        lemma_u32_roundtrip(self.magic, e, 0);
        lemma_u32_roundtrip(self.version_current, e, 4);
        lemma_u32_roundtrip(self.version_minimal, e, 8);
        lemma_u16_roundtrip(self.min[0], e, 16);
        lemma_u16_roundtrip(self.min[1], e, 18);
        lemma_u16_roundtrip(self.min[2], e, 20);
        lemma_u16_roundtrip(self.max[0], e, 24);
        lemma_u16_roundtrip(self.max[1], e, 26);
        lemma_u16_roundtrip(self.max[2], e, 28);
        lemma_u16_roundtrip(self.sections, e, 36);
        lemma_u16_roundtrip(self.entry_sec, e, 38);
        lemma_u32_roundtrip(self.entry_off, e, 40);
        assert(self.min@ =~= seq![le_u16(e, 16), le_u16(e, 18), le_u16(e, 20)]);
        assert(self.max@ =~= seq![le_u16(e, 24), le_u16(e, 26), le_u16(e, 28)]);
    }

    /// A header decoded from bytes encodes back to those bytes.
    pub proof fn lemma_decoded_encodes(self, s: Seq<u8>)
        requires
            self.decoded_from(s),
        ensures
            self.encoding() == s.subrange(0, HEADER_SIZE as int),
    {
        lemma_u32_bytes_of_read(s, 0);
        lemma_u32_bytes_of_read(s, 4);
        lemma_u32_bytes_of_read(s, 8);
        lemma_u16_bytes_of_read(s, 16);
        lemma_u16_bytes_of_read(s, 18);
        lemma_u16_bytes_of_read(s, 20);
        lemma_u16_bytes_of_read(s, 24);
        lemma_u16_bytes_of_read(s, 26);
        lemma_u16_bytes_of_read(s, 28);
        lemma_u16_bytes_of_read(s, 36);
        lemma_u16_bytes_of_read(s, 38);
        lemma_u32_bytes_of_read(s, 40);
        assert(self.min[0] == self.min@[0]);
        assert(self.min[1] == self.min@[1]);
        assert(self.min[2] == self.min@[2]);
        assert(self.max[0] == self.max@[0]);
        assert(self.max[1] == self.max@[1]);
        assert(self.max[2] == self.max@[2]);
        let e = self.encoding();
        let t = s.subrange(0, 128);
        assert(e =~= t) by {
            self.lemma_encoding_decodes();
            assert forall|i: int| 0 <= i < 128 implies e[i] == t[i] by {
                if i < 4 {
                    assert(e[i] == e.subrange(0, 4)[i]);
                    assert(t[i] == s.subrange(0, 4)[i]);
                } else if i < 8 {
                    assert(e[i] == e.subrange(4, 8)[i - 4]);
                    assert(t[i] == s.subrange(4, 8)[i - 4]);
                } else if i < 12 {
                    assert(e[i] == e.subrange(8, 12)[i - 8]);
                    assert(t[i] == s.subrange(8, 12)[i - 8]);
                } else if 16 <= i < 18 {
                    assert(e[i] == e.subrange(16, 18)[i - 16]);
                    assert(t[i] == s.subrange(16, 18)[i - 16]);
                } else if 18 <= i < 20 {
                    assert(e[i] == e.subrange(18, 20)[i - 18]);
                    assert(t[i] == s.subrange(18, 20)[i - 18]);
                } else if 20 <= i < 22 {
                    assert(e[i] == e.subrange(20, 22)[i - 20]);
                    assert(t[i] == s.subrange(20, 22)[i - 20]);
                } else if 24 <= i < 26 {
                    assert(e[i] == e.subrange(24, 26)[i - 24]);
                    assert(t[i] == s.subrange(24, 26)[i - 24]);
                } else if 26 <= i < 28 {
                    assert(e[i] == e.subrange(26, 28)[i - 26]);
                    assert(t[i] == s.subrange(26, 28)[i - 26]);
                } else if 28 <= i < 30 {
                    assert(e[i] == e.subrange(28, 30)[i - 28]);
                    assert(t[i] == s.subrange(28, 30)[i - 28]);
                } else if 36 <= i < 38 {
                    assert(e[i] == e.subrange(36, 38)[i - 36]);
                    assert(t[i] == s.subrange(36, 38)[i - 36]);
                } else if 38 <= i < 40 {
                    assert(e[i] == e.subrange(38, 40)[i - 38]);
                    assert(t[i] == s.subrange(38, 40)[i - 38]);
                } else if 40 <= i < 44 {
                    assert(e[i] == e.subrange(40, 44)[i - 40]);
                    assert(t[i] == s.subrange(40, 44)[i - 40]);
                }
            }
        }
    }

    /// Two headers decoded from the same bytes are the same header.
    pub proof fn lemma_decoded_unique(a: Header, b: Header, s: Seq<u8>)
        requires
            a.decoded_from(s),
            b.decoded_from(s),
        ensures
            a == b,
    {
        assert(a._pad1 =~= b._pad1);
        assert(a.min =~= b.min);
        assert(a._pad2 =~= b._pad2);
        assert(a.max =~= b.max);
        assert(a._pad3 =~= b._pad3);
        assert(a._pad4 =~= b._pad4);
        assert(a.author =~= b.author);
        assert(a.name =~= b.name);
        assert(a._reserved =~= b._reserved);
        ExecMode::lemma_view_injective(a.mode, b.mode);
    }

    /// A header as [`Header::new`] makes it.
    pub open spec fn is_fresh(self) -> bool {
        &&& self.magic == PKEX_MAGIC
        &&& self.version_current == VERSION_CURRENT
        &&& self.version_minimal == VERSION_MINIMAL
        &&& self._pad1@ == zeros(4)
        &&& self.min@ == seq![0u16, 0u16, 0u16]
        &&& self._pad2@ == zeros(2)
        &&& self.max@ == seq![0u16, 0u16, 0u16]
        &&& self._pad3@ == zeros(2)
        &&& self.mode@ == ExecMode::UserApp
        &&& self._pad4@ == zeros(3)
        &&& self.sections == 0
        &&& self.entry_sec == 0
        &&& self.entry_off == HEADER_SIZE
        &&& self.author@ == zeros(32)
        &&& self.name@ == zeros(32)
        &&& self._reserved@ == zeros(20)
    }

    /// A header as [`Header::new`] makes it has the magic number, so it passes
    /// [`Header::validate`]; its minimal and maximal kernel versions are both
    /// `[0, 0, 0]`, so they are ordered; it has no section, the `userapp`
    /// mode, the entry just past the header, and empty author and name.
    pub proof fn law_fresh_header(self)
        requires
            self.is_fresh(),
        ensures
            self.magic == PKEX_MAGIC,
            self.validation() == Ok::<(), Error>(()),
            self.min[0] == 0 && self.min[1] == 0 && self.min[2] == 0,
            self.max[0] == 0 && self.max[1] == 0 && self.max[2] == 0,
            versions_ordered(self.min@, self.max@),
            self.version_current == VERSION_CURRENT,
            self.version_minimal == VERSION_MINIMAL,
            self.sections == 0,
            self.entry_sec == 0,
            self.entry_off == HEADER_SIZE,
            self.mode@ == ExecMode::UserApp,
            forall|i: int| 0 <= i < 32 ==> self.author[i] == 0 && self.name[i] == 0,
    {
        assert(self.min[0] == self.min@[0]);
        assert(self.min[1] == self.min@[1]);
        assert(self.min[2] == self.min@[2]);
        assert(self.max[0] == self.max@[0]);
        assert(self.max[1] == self.max@[1]);
        assert(self.max[2] == self.max@[2]);
    }

    /// [`Header::validate`] accepts a header exactly when its magic number is
    /// [`PKEX_MAGIC`], and refuses it with a magic number error holding the
    /// number found otherwise.
    pub proof fn law_validate_magic(self)
        ensures
            self.validation() is Ok <==> self.magic == PKEX_MAGIC,
            self.magic != PKEX_MAGIC ==> self.validation() == Err::<(), Error>(
                Error::HeaderError(HeaderError::MagicNumberError(self.magic)),
            ),
    {
    }

    /// The outcome of [`Header::validate`].
    pub open spec fn validation(self) -> Result<()> {
        if self.magic != PKEX_MAGIC {
            Err(Error::HeaderError(HeaderError::MagicNumberError(self.magic)))
        } else {
            Ok(())
        }
    }

    /// Create a header with the magic number, the current versions, the
    /// `userapp` mode, no sections, the entry at offset [`HEADER_SIZE`] and
    /// everything else zero.
    pub fn new() -> (h: Self)
        ensures
            h.is_fresh(),
    {
        let h = Self {
            magic: PKEX_MAGIC,
            version_current: VERSION_CURRENT,
            version_minimal: VERSION_MINIMAL,
            _pad1: [0;4],
            min: [0;3],
            _pad2: [0;2],
            max: [0;3],
            _pad3: [0;2],
            mode: ExecMode::from_bits_retain(ExecMode::UserApp),
            _pad4: [0;3],
            sections: 0,
            entry_sec: 0,
            entry_off: 128,
            author: [0;32],
            name: [0;32],
            _reserved: [0;20],
        };
        assert(h._pad1@ =~= zeros(4));
        assert(h.min@ =~= seq![0u16, 0u16, 0u16]);
        assert(h._pad2@ =~= zeros(2));
        assert(h.max@ =~= seq![0u16, 0u16, 0u16]);
        assert(h._pad3@ =~= zeros(2));
        assert(h._pad4@ =~= zeros(3));
        assert(h.author@ =~= zeros(32));
        assert(h.name@ =~= zeros(32));
        assert(h._reserved@ =~= zeros(20));
        h
    }

    /// Append the encoding of this header to `out`.
    pub(crate) fn write_to(&self, out: &mut Vec<u8>)
        ensures
            final(out)@ == old(out)@ + self.encoding(),
    {
        push_u32(out, self.magic);
        push_u32(out, self.version_current);
        push_u32(out, self.version_minimal);
        push_bytes(out, self._pad1.as_slice());
        push_u16(out, self.min[0]);
        push_u16(out, self.min[1]);
        push_u16(out, self.min[2]);
        push_bytes(out, self._pad2.as_slice());
        push_u16(out, self.max[0]);
        push_u16(out, self.max[1]);
        push_u16(out, self.max[2]);
        push_bytes(out, self._pad3.as_slice());
        out.push(self.mode.bits());
        push_bytes(out, self._pad4.as_slice());
        push_u16(out, self.sections);
        push_u16(out, self.entry_sec);
        push_u32(out, self.entry_off);
        push_bytes(out, self.author.as_slice());
        push_bytes(out, self.name.as_slice());
        push_bytes(out, self._reserved.as_slice());
        assert(out@ =~= old(out)@ + self.encoding());
    }

    /// Decode the header held in the first [`HEADER_SIZE`] bytes of `s`.
    pub(crate) fn from_bytes(s: &[u8]) -> (h: Header)
        requires
            s@.len() >= HEADER_SIZE,
        ensures
            h.decoded_from(s@),
    {
        let h = Header {
            magic: read_u32(s, 0),
            version_current: read_u32(s, 4),
            version_minimal: read_u32(s, 8),
            _pad1: read_array(s, 12),
            min: [read_u16(s, 16), read_u16(s, 18), read_u16(s, 20)],
            _pad2: read_array(s, 22),
            max: [read_u16(s, 24), read_u16(s, 26), read_u16(s, 28)],
            _pad3: read_array(s, 30),
            mode: ExecMode::from_bits_retain(s[32]),
            _pad4: read_array(s, 33),
            sections: read_u16(s, 36),
            entry_sec: read_u16(s, 38),
            entry_off: read_u32(s, 40),
            author: read_array(s, 44),
            name: read_array(s, 76),
            _reserved: read_array(s, 108),
        };
        assert(h.min@ =~= seq![le_u16(s@, 16), le_u16(s@, 18), le_u16(s@, 20)]);
        assert(h.max@ =~= seq![le_u16(s@, 24), le_u16(s@, 26), le_u16(s@, 28)]);
        h
    }

    /// Convert this header to its [`HEADER_SIZE`] bytes.
    pub fn to_array(&self) -> (a: [u8; HEADER_SIZE])
        ensures
            a@ == self.encoding(),
    {
        let mut v: Vec<u8> = Vec::new();
        self.write_to(&mut v);
        proof {
            self.lemma_encoding_decodes();
        }
        let mut a = [0u8; HEADER_SIZE];
        let mut i: usize = 0;
        while i < HEADER_SIZE
            invariant
                i <= HEADER_SIZE,
                v@ == self.encoding(),
                v@.len() == HEADER_SIZE,
                a@.len() == HEADER_SIZE,
                forall|j: int| 0 <= j < i ==> a@[j] == v@[j],
            decreases HEADER_SIZE - i,
        {
            a[i] = v[i];
            i = i + 1;
        }
        assert(a@ =~= self.encoding());
        a
    }

    /// Check that this is a proka executable header: the magic number must be
    /// [`PKEX_MAGIC`].
    pub fn validate(&self) -> (res: Result<()>)
        ensures
            res == self.validation(),
    {
        if self.magic != PKEX_MAGIC {
            return Err(Error::HeaderError(HeaderError::MagicNumberError(self.magic)));
        }
        Ok(())
    }
}

impl Default for Header {
    /// The same header as [`Header::new`].
    fn default() -> (h: Self)
        ensures
            h.is_fresh(),
    {
        Self::new()
    }
}

} // verus!
