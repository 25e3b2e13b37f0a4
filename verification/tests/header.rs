use proka_exec::header::{ExecMode, Header, HeaderError, PKEX_MAGIC};
use proka_exec::{Error, HEADER_SIZE};

#[test]
fn header_test_header_length() {
    assert_eq!(proka_exec::HEADER_SIZE, 128);
    assert_eq!(core::mem::size_of::<Header>(), 128)
}

#[test]
fn header_new_is_fresh() {
    let h = Header::new();
    assert_eq!(h.magic, PKEX_MAGIC);
    assert_eq!(h.version_current, 3);
    assert_eq!(h.version_minimal, 3);
    assert_eq!(h.sections, 0);
    assert_eq!(h.entry_sec, 0);
    assert_eq!(h.entry_off, HEADER_SIZE as u32);
    assert_eq!(h.mode.bits(), ExecMode::UserApp);
    assert_eq!(h.author, [0u8; 32]);
    assert_eq!(h.validate(), Ok(()));
}

#[test]
fn header_validate_rejects_bad_magic() {
    let mut h = Header::new();
    h.magic = 0x1234;
    assert_eq!(h.validate(), Err(Error::HeaderError(HeaderError::MagicNumberError(0x1234))));
}

#[test]
fn header_to_array_layout() {
    let mut h = Header::new();
    h.min = [1, 2, 0x0304];
    h.sections = 0x0102;
    h.entry_off = 0x0a0b0c0d;
    h.mode = ExecMode::from_bits_retain(ExecMode::CoreDrv);
    let a = h.to_array();
    assert_eq!(&a[0..4], b"PKEX");
    assert_eq!(&a[4..8], &[3, 0, 0, 0]);
    assert_eq!(&a[16..22], &[1, 0, 2, 0, 4, 3]);
    assert_eq!(a[32], 1);
    assert_eq!(&a[36..38], &[2, 1]);
    assert_eq!(&a[40..44], &[0x0d, 0x0c, 0x0b, 0x0a]);
    assert_eq!(a.len(), HEADER_SIZE);
}
