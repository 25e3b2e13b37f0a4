use proka_exec::header::ExecMode;
use proka_exec::sections::{SectionError, SectionFlag};
use proka_exec::{Builder, Error, Parser};

static TEXT: [u8; 8] = [0xeb, 0xfe, 0x66, 0x90, 0x00, 0x00, 0x00, 0x00];
static DATA: [u8; 8] = [0x01, 0x02, 0x03, 0x04, 0x05, 0x11, 0x45, 0x14];

fn image_with(text_entry: Option<u32>, data: &'static [u8]) -> Vec<u8> {
    let mut builder = Builder::new();
    builder.set_author("zhangxuan2011");
    builder.set_name("testapp");
    builder.set_max([0, 2, 0]);
    builder.set_min([0, 1, 0]);
    builder.set_mode(ExecMode::from_bits_retain(ExecMode::CoreDrv));
    builder.append(&TEXT, ".text", true, true, text_entry).unwrap();
    builder.append(data, ".data", true, false, None).unwrap();
    builder.build().unwrap()
}

fn image() -> Vec<u8> {
    image_with(Some(0), &DATA)
}

#[test]
fn built_image_layout() {
    let img = image();
    // header, two index entries, two metadata records of 16 + 5 bytes, data
    assert_eq!(img.len(), 128 + 2 * 8 + 2 * (16 + 5) + 2 * 8);
    assert_eq!(&img[128..136], &[144, 0, 0, 0, 5, 0, 0, 0]);
    assert_eq!(&img[136..144], &[165, 0, 0, 0, 5, 0, 0, 0]);
    assert_eq!(&img[144..160], &[3, 0, 0, 0, 186, 0, 0, 0, 8, 0, 0, 0, 0, 0, 0, 0]);
    assert_eq!(&img[160..165], b".text");
    assert_eq!(&img[165..181], &[1, 0, 0, 0, 194, 0, 0, 0, 8, 0, 0, 0, 0, 0, 0, 0]);
    assert_eq!(&img[181..186], b".data");
    assert_eq!(&img[186..194], &TEXT);
    assert_eq!(&img[194..202], &DATA);
}

#[test]
fn built_header_reads_back() {
    let img = image();
    let parser = Parser::init(&img).unwrap();
    let h = parser.header();
    assert_eq!(h.mode.bits(), ExecMode::CoreDrv);
    assert_eq!(h.sections, 2);
    assert_eq!(h.entry_sec, 0);
    assert_eq!(h.entry_off, 0);
    assert_eq!(h.version_current, 3);
    assert_eq!(h.version_minimal, 3);
    assert_eq!(h.validate(), Ok(()));
}

#[test]
fn init_rejects_short_buffer() {
    let img = image();
    assert_eq!(Parser::init(&img[..100]).err(), Some(Error::ExecutableCorrupted));
}

#[test]
fn init_rejects_bad_magic() {
    let mut img = image();
    img[0] = 0;
    assert_eq!(Parser::init(&img).err(), Some(Error::NotValidExecutable));
}

#[test]
fn init_rejects_no_sections() {
    let mut img = image();
    img[36] = 0;
    img[37] = 0;
    assert_eq!(Parser::init(&img).err(), Some(Error::NoSections));
}

#[test]
fn init_rejects_truncated_index() {
    let img = image();
    assert_eq!(Parser::init(&img[..140]).err(), Some(Error::ExecutableCorrupted));
}

#[test]
fn init_rejects_truncated_last_name() {
    let img = image();
    assert_eq!(Parser::init(&img[..185]).err(), Some(Error::ExecutableCorrupted));
    assert!(Parser::init(&img[..186]).is_ok());
}

#[test]
fn validate_version_incorrect() {
    let mut img = image();
    img[16] = 9;
    let parser = Parser::init(&img).unwrap();
    assert_eq!(parser.validate(), Err(Error::VersionIncorrect([9, 1, 0], [0, 2, 0])));
}

#[test]
fn validate_base_error() {
    let mut img = image();
    img[148] = 10;
    let parser = Parser::init(&img).unwrap();
    assert_eq!(parser.validate(), Err(Error::SectionError(SectionError::BaseError(10))));
}

#[test]
fn validate_length_error() {
    let img = image_with(Some(0), &[]);
    let parser = Parser::init(&img).unwrap();
    assert_eq!(parser.validate(), Err(Error::SectionError(SectionError::LengthError)));
}

#[test]
fn validate_entry_offset_out_of_range() {
    let img = image_with(Some(100), &DATA);
    let parser = Parser::init(&img).unwrap();
    assert_eq!(
        parser.validate(),
        Err(Error::SectionError(SectionError::EntryOffsetOutOfRange(100, 8)))
    );
    let img = image_with(Some(8), &DATA);
    assert_eq!(Parser::init(&img).unwrap().validate(), Ok(()));
}

#[test]
fn validate_data_beyond_image() {
    let mut img = image();
    img[173] = 9;
    let parser = Parser::init(&img).unwrap();
    assert_eq!(parser.validate(), Err(Error::ExecutableCorrupted));
}

#[test]
fn content_of_missing_section_is_none() {
    let img = image();
    let parser = Parser::init(&img).unwrap();
    assert_eq!(parser.get_section_content(".wtf"), None);
    assert_eq!(parser.get_section_content(".data"), Some(&DATA[..]));
}

#[test]
fn content_of_repeated_name_is_first() {
    let mut builder = Builder::new();
    builder.append(&TEXT, ".x", true, true, None).unwrap();
    builder.append(&DATA, ".x", true, true, None).unwrap();
    let img = builder.build().unwrap();
    let parser = Parser::init(&img).unwrap();
    assert_eq!(parser.get_section_content(".x"), Some(&TEXT[..]));
}

#[test]
fn table_walks_every_section_in_order() {
    let img = image();
    let parser = Parser::init(&img).unwrap();
    let mut table = parser.sections();
    let first = table.next().unwrap();
    let second = table.next().unwrap();
    assert_eq!(table.next(), None);
    assert_eq!(table.next(), None);
    assert_eq!(first.base, 144);
    assert_eq!(second.base, 165);
    assert_eq!(second.name_len, 5);
}

#[test]
fn table_lookups_by_number() {
    let img = image();
    let parser = Parser::init(&img).unwrap();
    let table = parser.sections();
    assert_eq!(table.get_name_idx(1), Some(".data"));
    assert_eq!(table.get_name_idx(2), None);
    let hdr = table.get_hdr_idx(0).unwrap();
    assert_eq!(hdr.base, 186);
    assert_eq!(hdr.size, 8);
    assert!(hdr.flag.contains(SectionFlag::LOADABLE | SectionFlag::EXECABLE));
    assert!(table.get_hdr_idx(2).is_none());
}

#[test]
fn append_refuses_entry_in_plain_section() {
    let mut builder = Builder::new();
    assert_eq!(builder.append(&DATA, ".data", true, false, Some(0)), Err(Error::ExecutableCorrupted));
    assert_eq!(builder.append(&DATA, ".data", false, true, Some(0)), Err(Error::ExecutableCorrupted));
    assert_eq!(builder.build(), Err(Error::NoSections));
}

#[test]
fn build_refuses_unordered_versions() {
    let mut builder = Builder::new();
    builder.set_min([1, 0, 0]);
    builder.set_max([0, 9, 9]);
    builder.append(&DATA, ".data", false, false, None).unwrap();
    assert_eq!(builder.build(), Err(Error::VersionIncorrect([1, 0, 0], [0, 9, 9])));
}

#[test]
fn latest_entry_wins() {
    let mut builder = Builder::new();
    builder.append(&TEXT, ".a", true, true, Some(1)).unwrap();
    builder.append(&DATA, ".b", true, true, Some(2)).unwrap();
    let img = builder.build().unwrap();
    let h = Parser::init(&img).unwrap().header();
    assert_eq!(h.entry_sec, 1);
    assert_eq!(h.entry_off, 2);
}

#[test]
fn long_author_is_cut_to_32_bytes() {
    let mut builder = Builder::new();
    builder.set_author("abcdefghijklmnopqrstuvwxyz0123456789");
    builder.append(&DATA, ".d", false, false, None).unwrap();
    let img = builder.build().unwrap();
    let h = Parser::init(&img).unwrap().header();
    assert_eq!(&h.author[..], b"abcdefghijklmnopqrstuvwxyz012345");
}

#[test]
fn versions_compare_in_version_order() {
    let mut builder = Builder::new();
    builder.set_min([0, 1, 5]);
    builder.set_max([0, 2, 0]);
    builder.append(&[0x90], ".text", true, true, Some(0)).unwrap();
    let img = builder.build().unwrap();
    assert_eq!(Parser::init(&img).unwrap().validate(), Ok(()));

    let mut builder = Builder::new();
    builder.set_min([0, 2, 0]);
    builder.set_max([0, 1, 9]);
    builder.append(&[0x90], ".text", true, true, Some(0)).unwrap();
    assert_eq!(builder.build(), Err(Error::VersionIncorrect([0, 2, 0], [0, 1, 9])));

    let mut builder = Builder::new();
    builder.set_min([1, 2, 3]);
    builder.set_max([1, 2, 3]);
    builder.append(&[0x90], ".text", true, true, None).unwrap();
    assert!(builder.build().is_ok());
}

#[test]
fn name_not_utf8_passes_validate_but_not_check_records() {
    let mut img = image();
    img[160] = 0xff;
    let parser = Parser::init(&img).unwrap();
    assert_eq!(parser.validate(), Ok(()));
    assert!(!parser.check_records());
}

#[test]
fn name_beyond_image_passes_validate_but_not_check_records() {
    let mut img = image();
    img[132] = 200;
    let parser = Parser::init(&img).unwrap();
    assert_eq!(parser.validate(), Ok(()));
    assert!(!parser.check_records());
}

#[test]
fn built_image_records_are_readable() {
    let img = image();
    let parser = Parser::init(&img).unwrap();
    assert!(parser.check_records());
    let mut bad = image();
    bad[173] = 9;
    assert!(!Parser::init(&bad).unwrap().check_records());
}

#[test]
fn remaining_lists_what_next_gives() {
    let img = image();
    let parser = Parser::init(&img).unwrap();
    let mut table = parser.sections();
    let all = table.remaining();
    assert_eq!(all.len(), 2);
    assert_eq!(Some(all[0]), table.next());
    assert_eq!(table.remaining(), vec![all[1]]);
    assert_eq!(Some(all[1]), table.next());
    assert_eq!(table.remaining(), vec![]);
}
