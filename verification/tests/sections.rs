use proka_exec::sections::{SectionError, SectionFlag, SectionHdr, SectionIndex};
use proka_exec::{Error, SECTION_HDR_SIZE, SECTION_INDEX_SIZE};

#[test]
fn sections_test_header_length() {
    assert_eq!(proka_exec::SECTION_HDR_SIZE, 16);
    assert_eq!(core::mem::size_of::<SectionHdr>(), 16)
}

#[test]
fn section_index_size() {
    assert_eq!(SECTION_INDEX_SIZE, 8);
    assert_eq!(core::mem::size_of::<SectionIndex>(), 8);
}

#[test]
fn section_hdr_validate_zero_length() {
    let h = SectionHdr { flag: SectionFlag::empty(), _pad1: [0; 3], base: 200, size: 0, _pad2: [0; 4] };
    assert_eq!(h.validate(), Err(Error::SectionError(SectionError::LengthError)));
    let h = SectionHdr { size: 5, ..h };
    assert_eq!(h.validate(), Ok(()));
}

#[test]
fn section_hdr_to_array_layout() {
    let h = SectionHdr {
        flag: SectionFlag::from_bits_retain(SectionFlag::LOADABLE | SectionFlag::EXECABLE),
        _pad1: [0; 3],
        base: 0x01020304,
        size: 0x10,
        _pad2: [0; 4],
    };
    let a = h.to_array();
    assert_eq!(a.len(), SECTION_HDR_SIZE);
    assert_eq!(a, [3, 0, 0, 0, 4, 3, 2, 1, 0x10, 0, 0, 0, 0, 0, 0, 0]);
}

#[test]
fn section_index_to_array_layout() {
    let i = SectionIndex { base: 0x11223344, name_len: 5 };
    assert_eq!(i.to_array(), [0x44, 0x33, 0x22, 0x11, 5, 0, 0, 0]);
}

#[test]
fn section_flag_contains() {
    let f = SectionFlag::from_bits_retain(SectionFlag::LOADABLE);
    assert!(f.contains(SectionFlag::LOADABLE));
    assert!(!f.contains(SectionFlag::EXECABLE));
    assert!(SectionFlag::empty().contains(0));
    assert_eq!(f.bits(), 1);
}
