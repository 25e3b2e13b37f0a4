//! The builder of proka executables.
use vstd::prelude::*;
use vstd::string::StringSliceAdditionalSpecFns;
use vstd::utf8::{encode_utf8, encode_utf8_valid_utf8, valid_utf8};

use crate::codec::{u16_bytes, u32_bytes, zeros};
use crate::header::{version_below, versions_ordered, ExecMode, Header, PKEX_MAGIC};
use crate::sections::{SectionFlag, SectionHdr, SectionIndex};
use crate::utils::{padded, str_to_array};
use crate::{Error, Result, HEADER_SIZE, SECTION_HDR_SIZE, SECTION_INDEX_SIZE, VERSION_CURRENT, VERSION_MINIMAL};

verus! {

broadcast use vstd::string::group_string_axioms;

/// A section as the builder holds it: its flag bits, the UTF-8 bytes of its
/// name, and its data.
pub struct SectionPlan {
    pub flag: u8,
    pub name: Seq<u8>,
    pub data: Seq<u8>,
}

/// What a [`Builder`] holds.
pub struct BuilderView {
    pub min: [u16; 3],
    pub max: [u16; 3],
    /// The entry offset.
    pub entry_off: u32,
    /// The index of the entry section.
    pub entry_idx: usize,
    pub author: Seq<char>,
    pub name: Seq<char>,
    pub mode: u8,
    pub sections: Seq<SectionPlan>,
}

/// The flag bits of a section that is loadable and/or executable.
pub open spec fn flag_bits(is_loadable: bool, is_execable: bool) -> u8 {
    ((if is_loadable { SectionFlag::LOADABLE } else { 0u8 }) | (if is_execable {
        SectionFlag::EXECABLE
    } else {
        0u8
    })) as u8
}

/// A section's flag bits hold [`SectionFlag::LOADABLE`] exactly when it was
/// appended as loadable, and [`SectionFlag::EXECABLE`] exactly when it was
/// appended as executable.
pub proof fn law_flag_bits(is_loadable: bool, is_execable: bool)
    ensures
        (flag_bits(is_loadable, is_execable) & SectionFlag::LOADABLE == SectionFlag::LOADABLE)
            == is_loadable,
        (flag_bits(is_loadable, is_execable) & SectionFlag::EXECABLE == SectionFlag::EXECABLE)
            == is_execable,
{
    assert((1u8 | 2u8) & 1u8 == 1u8 && (1u8 | 2u8) & 2u8 == 2u8) by (bit_vector);
    assert((1u8 | 0u8) & 1u8 == 1u8 && (1u8 | 0u8) & 2u8 != 2u8) by (bit_vector);
    assert((0u8 | 2u8) & 1u8 != 1u8 && (0u8 | 2u8) & 2u8 == 2u8) by (bit_vector);
    assert((0u8 | 0u8) & 1u8 != 1u8 && (0u8 | 0u8) & 2u8 != 2u8) by (bit_vector);
}

/// The name length recorded in a section's index entry.
pub open spec fn recorded_name_len(p: SectionPlan) -> u32 {
    p.name.len() as u32
}

/// Offset of section `i`'s metadata from the start of the metadata area, as
/// counted from the recorded name lengths.
pub open spec fn meta_offset(ps: Seq<SectionPlan>, i: int) -> int
    decreases i,
{
    if i <= 0 {
        0
    } else {
        meta_offset(ps, i - 1) + SECTION_HDR_SIZE + recorded_name_len(ps[i - 1])
    }
}

/// Offset of section `i`'s data from the start of the data area.
pub open spec fn data_offset(ps: Seq<SectionPlan>, i: int) -> int
    decreases i,
{
    if i <= 0 {
        0
    } else {
        data_offset(ps, i - 1) + ps[i - 1].data.len()
    }
}

/// Where the metadata area starts in an image with `n` sections.
pub open spec fn meta_start(n: nat) -> int {
    HEADER_SIZE + SECTION_INDEX_SIZE * n
}

/// The index entry written for section `i`.
pub open spec fn index_entry(ps: Seq<SectionPlan>, i: int) -> SectionIndex {
    SectionIndex {
        base: (meta_start(ps.len()) + meta_offset(ps, i)) as u32,
        name_len: recorded_name_len(ps[i]),
    }
}

/// The data offset recorded in section `i`'s header.
pub open spec fn data_base_of(ps: Seq<SectionPlan>, i: int) -> u32 {
    (meta_start(ps.len()) + meta_offset(ps, ps.len() as int) + data_offset(ps, i)) as u32
}

/// The bytes of section `i`'s header.
pub open spec fn section_hdr_bytes(ps: Seq<SectionPlan>, i: int) -> Seq<u8> {
    seq![ps[i].flag] + zeros(3) + u32_bytes(data_base_of(ps, i)) + u32_bytes(
        ps[i].data.len() as u32,
    ) + zeros(4)
}

/// The index entries of sections `0..k`.
pub open spec fn index_bytes(ps: Seq<SectionPlan>, k: int) -> Seq<u8>
    decreases k,
{
    if k <= 0 {
        Seq::empty()
    } else {
        index_bytes(ps, k - 1) + index_entry(ps, k - 1).encoding()
    }
}

/// The metadata, header then name, of sections `0..k`.
pub open spec fn meta_bytes(ps: Seq<SectionPlan>, k: int) -> Seq<u8>
    decreases k,
{
    if k <= 0 {
        Seq::empty()
    } else {
        meta_bytes(ps, k - 1) + section_hdr_bytes(ps, k - 1) + ps[k - 1].name
    }
}

/// The data of sections `0..k`.
pub open spec fn data_bytes(ps: Seq<SectionPlan>, k: int) -> Seq<u8>
    decreases k,
{
    if k <= 0 {
        Seq::empty()
    } else {
        data_bytes(ps, k - 1) + ps[k - 1].data
    }
}

/// The header written for `v`.
pub open spec fn header_bytes(v: BuilderView) -> Seq<u8> {
    u32_bytes(PKEX_MAGIC) + u32_bytes(VERSION_CURRENT) + u32_bytes(VERSION_MINIMAL) + zeros(4)
        + u16_bytes(v.min[0]) + u16_bytes(v.min[1]) + u16_bytes(v.min[2]) + zeros(2) + u16_bytes(
        v.max[0],
    ) + u16_bytes(v.max[1]) + u16_bytes(v.max[2]) + zeros(2) + seq![v.mode] + zeros(3)
        + u16_bytes(v.sections.len() as u16) + u16_bytes(v.entry_idx as u16) + u32_bytes(
        v.entry_off,
    ) + padded(encode_utf8(v.author), 32) + padded(encode_utf8(v.name), 32) + zeros(20)
}

/// The image that [`Builder::build`] writes for `v`.
#[verifier::opaque]
pub open spec fn image(v: BuilderView) -> Seq<u8> {
    let n = v.sections.len() as int;
    header_bytes(v) + index_bytes(v.sections, n) + meta_bytes(v.sections, n) + data_bytes(
        v.sections,
        n,
    )
}

/// Section `i`'s metadata starts no later than section `j`'s, and likewise
/// its data.
pub proof fn lemma_offsets_monotone(ps: Seq<SectionPlan>, i: int, j: int)
    requires
        0 <= i <= j,
    ensures
        meta_offset(ps, i) <= meta_offset(ps, j),
        data_offset(ps, i) <= data_offset(ps, j),
    decreases j - i,
{
    if i < j {
        lemma_offsets_monotone(ps, i, j - 1);
    }
}

/// The offsets the builder counts up to for `v`: the end of the image as
/// measured with the recorded name lengths.
pub open spec fn image_len(v: BuilderView) -> int {
    let ps = v.sections;
    let n = ps.len() as int;
    meta_start(ps.len()) + meta_offset(ps, n) + data_offset(ps, n)
}

/// The outcome of [`Builder::build`] on what `v` holds, with the image
/// standing for a success.
pub open spec fn build_outcome(v: BuilderView) -> Result<Seq<u8>> {
    if v.sections.len() == 0 {
        Err(Error::NoSections)
    } else if !versions_ordered(v.min@, v.max@) {
        Err(Error::VersionIncorrect(v.min, v.max))
    } else {
        Ok(image(v))
    }
}

/// [`Builder::build`] refuses a builder with sections exactly when its
/// maximal kernel version is lower than its minimal one: a lower major, or
/// the same major and a lower minor, or the same major and minor and a lower
/// fix. Otherwise it gives the image.
pub proof fn law_build_version_check(v: BuilderView)
    requires
        v.sections.len() > 0,
    ensures
        (v.max[0] < v.min[0] || (v.max[0] == v.min[0] && v.max[1] < v.min[1]) || (v.max[0]
            == v.min[0] && v.max[1] == v.min[1] && v.max[2] < v.min[2])) ==> build_outcome(v)
            == Err::<Seq<u8>, Error>(Error::VersionIncorrect(v.min, v.max)),
        !(v.max[0] < v.min[0] || (v.max[0] == v.min[0] && v.max[1] < v.min[1]) || (v.max[0]
            == v.min[0] && v.max[1] == v.min[1] && v.max[2] < v.min[2])) ==> build_outcome(v)
            == Ok::<Seq<u8>, Error>(image(v)),
{
}

/// [`Builder::build`] refuses a builder without sections with
/// [`Error::NoSections`], whatever its versions.
pub proof fn law_build_needs_sections(v: BuilderView)
    requires
        v.sections.len() == 0,
    ensures
        build_outcome(v) == Err::<Seq<u8>, Error>(Error::NoSections),
{
}

/// A section as appended.
#[derive(Debug, Clone, Copy)]
struct InnerSections<'a> {
    flag: SectionFlag,
    name: &'a str,
    data: &'a [u8],
}

impl<'a> InnerSections<'a> {
    spec fn plan(self) -> SectionPlan {
        SectionPlan { flag: self.flag@, name: self.name.spec_bytes(), data: self.data@ }
    }
}

/// The builder of a proka executable.
#[derive(Debug, Clone)]
pub struct Builder<'a> {
    min: [u16; 3],
    max: [u16; 3],
    entry_off: u32,
    entry_idx: usize,
    author: String,
    name: String,
    mode: ExecMode,
    sections: Vec<InnerSections<'a>>,
}

impl<'a> View for Builder<'a> {
    type V = BuilderView;

    closed spec fn view(&self) -> BuilderView {
        BuilderView {
            min: self.min,
            max: self.max,
            entry_off: self.entry_off,
            entry_idx: self.entry_idx,
            author: self.author@,
            name: self.name@,
            mode: self.mode@,
            sections: self.sections@.map_values(|s: InnerSections<'a>| s.plan()),
        }
    }
}

impl<'a> Builder<'a> {
    /// Create an empty builder: versions `[0, 0, 0]`, the entry at offset 0 of
    /// section 0, empty author and name, the `userapp` mode, no sections.
    pub fn new() -> (b: Self)
        ensures
            b@.min@ == seq![0u16, 0u16, 0u16],
            b@.max@ == seq![0u16, 0u16, 0u16],
            b@.entry_off == 0,
            b@.entry_idx == 0,
            b@.author == Seq::<char>::empty(),
            b@.name == Seq::<char>::empty(),
            b@.mode == ExecMode::UserApp,
            b@.sections == Seq::<SectionPlan>::empty(),
    {
        let b = Self {
            min: [0;3],
            max: [0;3],
            entry_off: 0,
            entry_idx: 0,
            author: String::new(),
            name: String::new(),
            mode: ExecMode::from_bits_retain(ExecMode::UserApp),
            sections: Vec::new(),
        };
        assert(b@.min@ =~= seq![0u16, 0u16, 0u16]);
        assert(b@.max@ =~= seq![0u16, 0u16, 0u16]);
        assert(b@.sections =~= Seq::<SectionPlan>::empty());
        b
    }

    /// The names of the sections held are valid UTF-8.
    pub proof fn lemma_names_utf8(&self)
        ensures
            forall|i: int|
                0 <= i < self@.sections.len() ==> valid_utf8(#[trigger] self@.sections[i].name),
    {
        assert forall|i: int| 0 <= i < self@.sections.len() implies valid_utf8(
            #[trigger] self@.sections[i].name,
        ) by {
            encode_utf8_valid_utf8(self.sections@[i].name@);
        }
    }

    /// Set the author. Only the first 32 bytes are written to the image.
    pub fn set_author(&mut self, author: &str)
        ensures
            final(self)@ == (BuilderView { author: author@, ..old(self)@ }),
    {
        self.author = author.to_string();
    }

    /// Set the program name. Only the first 32 bytes are written to the image.
    pub fn set_name(&mut self, name: &str)
        ensures
            final(self)@ == (BuilderView { name: name@, ..old(self)@ }),
    {
        self.name = name.to_string();
    }

    /// Set the mode of the program.
    pub fn set_mode(&mut self, mode: ExecMode)
        ensures
            final(self)@ == (BuilderView { mode: mode@, ..old(self)@ }),
    {
        self.mode = mode;
    }

    /// Set the minimal kernel version.
    pub fn set_min(&mut self, min: [u16; 3])
        ensures
            final(self)@ == (BuilderView { min, ..old(self)@ }),
    {
        self.min = min;
    }

    /// Append a section named `name` holding `data`, loadable and/or
    /// executable as given. With `Some(offset)` as `entry`, the entry point is
    /// set to that offset of this section; the last one set is used.
    ///
    /// An entry point in a section that is not both loadable and executable
    /// is refused with [`Error::ExecutableCorrupted`], leaving the builder as
    /// it was.
    pub fn append(
        &mut self,
        data: &'a [u8],
        name: &'a str,
        is_loadable: bool,
        is_execable: bool,
        entry: Option<u32>,
    ) -> (res: Result<()>)
        ensures
            entry is Some && !(is_execable && is_loadable) ==> res == Err::<(), Error>(
                Error::ExecutableCorrupted,
            ) && final(self)@ == old(self)@,
            !(entry is Some && !(is_execable && is_loadable)) ==> res is Ok && final(self)@ == (
            BuilderView {
                sections: old(self)@.sections.push(
                    SectionPlan {
                        flag: flag_bits(is_loadable, is_execable),
                        name: name.spec_bytes(),
                        data: data@,
                    },
                ),
                entry_off: match entry {
                    Some(off) => off,
                    None => old(self)@.entry_off,
                },
                entry_idx: match entry {
                    Some(_) => old(self)@.sections.len() as usize,
                    None => old(self)@.entry_idx,
                },
                ..old(self)@
            }),
    {
        if entry.is_some() && !(is_execable && is_loadable) {
            return Err(Error::ExecutableCorrupted);
        }
        let bits: u8 = (if is_loadable {
            SectionFlag::LOADABLE
        } else {
            0u8
        }) | (if is_execable {
            SectionFlag::EXECABLE
        } else {
            0u8
        });
        let section = InnerSections { flag: SectionFlag::from_bits_retain(bits), name, data };
        self.sections.push(section);
        if let Some(ent_offset) = entry {
            let sec_index = self.sections.len() - 1;
            self.entry_off = ent_offset;
            self.entry_idx = sec_index;
        }
        assert(self@.sections =~= old(self)@.sections.push(section.plan()));
        Ok(())
    }

    /// Set the maximal kernel version.
    pub fn set_max(&mut self, max: [u16; 3])
        ensures
            final(self)@ == (BuilderView { max, ..old(self)@ }),
    {
        self.max = max;
    }
}


impl<'a> Builder<'a> {
    /// Lay out the whole image: the header, the index entries, each section's
    /// header and name, then each section's data, in the order appended; see
    /// [`image`]. Refused with [`Error::NoSections`] when nothing was appended,
    /// and with [`Error::VersionIncorrect`] when the maximal kernel version is
    /// lower than the minimal one.
    pub fn build(self) -> (res: Result<Vec<u8>>)
        requires
            image_len(self@) <= usize::MAX,
        ensures
            match build_outcome(self@) {
                Ok(bytes) => res matches Ok(v) && v@ == bytes,
                Err(e) => res == Err::<Vec<u8>, Error>(e),
            },
    {
        if self.sections.is_empty() {
            return Err(Error::NoSections);
        }
        if version_below(&self.max, &self.min) {
            return Err(Error::VersionIncorrect(self.min, self.max));
        }
        let ghost v = self@;
        let ghost ps = v.sections;
        let n = self.sections.len();
        proof {
            lemma_offsets_monotone(ps, 0, n as int);
        }
        let mut data: Vec<u8> = Vec::new();
        let mut header = Header::default();
        header.min = self.min;
        header.max = self.max;
        header.entry_off = self.entry_off;
        header.entry_sec = self.entry_idx as u16;
        header.mode = self.mode;
        header.author = str_to_array(self.author.as_str());
        header.name = str_to_array(self.name.as_str());
        header.sections = n as u16;
        header.write_to(&mut data);
        assert(header.encoding() =~= header_bytes(v));
        assert(data@ =~= header_bytes(v) + index_bytes(ps, 0));

        let mut cnt: usize = 0;
        let mut i: usize = 0;
        while i < n
            invariant
                i <= n,
                n == self.sections@.len(),
                v == self@,
                ps == v.sections,
                ps.len() == n,
                image_len(v) <= usize::MAX,
                0 <= data_offset(ps, n as int),
                cnt == meta_offset(ps, i as int),
                meta_offset(ps, i as int) <= meta_offset(ps, n as int),
                data@ == header_bytes(v) + index_bytes(ps, i as int),
            decreases n - i,
        {
            let section = self.sections[i];
            proof {
                lemma_offsets_monotone(ps, i + 1, n as int);
                assert(ps[i as int] == section.plan());
            }
            let secindex = SectionIndex {
                base: (HEADER_SIZE + n * SECTION_INDEX_SIZE + cnt) as u32,
                name_len: section.name.as_bytes().len() as u32,
            };
            assert(secindex == index_entry(ps, i as int));
            secindex.write_to(&mut data);
            cnt = cnt + SECTION_HDR_SIZE + secindex.name_len as usize;
            i = i + 1;
            assert(data@ =~= header_bytes(v) + index_bytes(ps, i as int));
        }

        let ghost prefix = header_bytes(v) + index_bytes(ps, n as int);
        assert(data@ =~= prefix + meta_bytes(ps, 0));
        let mut i: usize = 0;
        while i < n
            invariant
                i <= n,
                n == self.sections@.len(),
                v == self@,
                ps == v.sections,
                ps.len() == n,
                image_len(v) <= usize::MAX,
                0 <= data_offset(ps, n as int),
                cnt == meta_offset(ps, n as int) + data_offset(ps, i as int),
                data_offset(ps, i as int) <= data_offset(ps, n as int),
                data@ == prefix + meta_bytes(ps, i as int),
            decreases n - i,
        {
            let section = self.sections[i];
            proof {
                lemma_offsets_monotone(ps, i + 1, n as int);
                assert(ps[i as int] == section.plan());
            }
            let secinfo = SectionHdr {
                flag: section.flag,
                _pad1: [0;3],
                base: (HEADER_SIZE + n * SECTION_INDEX_SIZE + cnt) as u32,
                size: section.data.len() as u32,
                _pad2: [0;4],
            };
            proof {
                assert(secinfo._pad1@ =~= zeros(3));
                assert(secinfo._pad2@ =~= zeros(4));
                assert(secinfo.base == data_base_of(ps, i as int));
                assert(secinfo.encoding() =~= section_hdr_bytes(ps, i as int));
            }
            let ghost before = data@;
            secinfo.write_to(&mut data);
            crate::codec::push_bytes(&mut data, section.name.as_bytes());
            proof {
                assert(data@ == before + section_hdr_bytes(ps, i as int) + ps[i as int].name);
                assert(meta_bytes(ps, i + 1) == meta_bytes(ps, i as int) + section_hdr_bytes(ps, i as int) + ps[i as int].name);
                assert(data@ =~= prefix + meta_bytes(ps, i + 1));
            }
            cnt = cnt + section.data.len();
            i = i + 1;
        }
        assert(data@ =~= header_bytes(v) + index_bytes(ps, n as int) + meta_bytes(ps, n as int)
            + data_bytes(ps, 0));

        let mut i: usize = 0;
        while i < n
            invariant
                i <= n,
                n == self.sections@.len(),
                v == self@,
                ps == v.sections,
                ps.len() == n,
                data@ == header_bytes(v) + index_bytes(ps, n as int) + meta_bytes(ps, n as int)
                    + data_bytes(ps, i as int),
            decreases n - i,
        {
            let section = self.sections[i];
            proof {
                assert(ps[i as int] == section.plan());
            }
            crate::codec::push_bytes(&mut data, section.data);
            i = i + 1;
            assert(data@ =~= header_bytes(v) + index_bytes(ps, n as int) + meta_bytes(ps, n as int)
                + data_bytes(ps, i as int));
        }
        proof {
            reveal(image);
        }
        Ok(data)
    }
}

impl<'a> Default for Builder<'a> {
    fn default() -> (b: Self)
        ensures
            b@.min@ == seq![0u16, 0u16, 0u16],
            b@.max@ == seq![0u16, 0u16, 0u16],
            b@.entry_off == 0,
            b@.entry_idx == 0,
            b@.author == Seq::<char>::empty(),
            b@.name == Seq::<char>::empty(),
            b@.mode == ExecMode::UserApp,
            b@.sections == Seq::<SectionPlan>::empty(),
    {
        Self::new()
    }
}

} // verus!
