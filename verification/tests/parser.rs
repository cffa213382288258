use nus3audio::bytes::{read_u32_le, starts_with};
use nus3audio::parser::{resolve, take_body};
use nus3audio::{
    get_adof_entries, get_names, get_nmof_entries, get_track_ids, take_audiindx, take_file,
    take_section, Adof, FormatError, Nmof, Nus3audioFile, Section, SectionKind, Tnid,
};

fn section(tag: &[u8], payload: &[u8]) -> Vec<u8> {
    let mut bytes = tag.to_vec();
    bytes.extend_from_slice(&(payload.len() as u32).to_le_bytes());
    bytes.extend_from_slice(payload);
    bytes
}

fn numbers(values: &[u32]) -> Vec<u8> {
    let mut bytes = Vec::new();
    for value in values {
        bytes.extend_from_slice(&value.to_le_bytes());
    }
    bytes
}

fn container(sections: &[Vec<u8>]) -> Vec<u8> {
    let body: Vec<u8> = sections.concat();
    let mut bytes = b"NUS3".to_vec();
    bytes.extend_from_slice(&(body.len() as u32).to_le_bytes());
    bytes.extend_from_slice(&body);
    bytes
}

fn audiindx(count: u32) -> Vec<u8> {
    section(b"AUDIINDX", &count.to_le_bytes())
}

/// One entry, id 42, named "hi", with the payload "DATA!".
fn one_entry() -> Vec<u8> {
    // 8 + 16 + 12 + 12 + 16 + 8 bytes lie before the names.
    container(&[
        audiindx(1),
        section(b"TNID", &numbers(&[42])),
        section(b"NMOF", &numbers(&[72])),
        section(b"ADOF", &numbers(&[83, 5])),
        section(b"TNNM", b"hi\0"),
        section(b"PACK", b"DATA!"),
    ])
}

fn error_of(bytes: &[u8]) -> FormatError {
    Nus3audioFile::from_bytes(bytes).err().unwrap()
}

fn missing(kind: SectionKind) -> FormatError {
    FormatError::MissingRequiredSection { kind }
}

#[test]
fn hand_built_container_is_read() {
    let bytes = one_entry();
    assert_eq!(&bytes[72..75], b"hi\0");
    assert_eq!(&bytes[83..88], b"DATA!");
    let file = Nus3audioFile::from_bytes(&bytes).unwrap();
    assert_eq!(file.files.len(), 1);
    assert_eq!(file.files[0].id, 42);
    assert_eq!(file.files[0].name, "hi");
    assert_eq!(file.files[0].data, b"DATA!".to_vec());
}

#[test]
fn container_without_entries_is_read() {
    let bytes = container(&[
        audiindx(0),
        section(b"TNID", b""),
        section(b"NMOF", b""),
        section(b"ADOF", b""),
        section(b"TNNM", b""),
    ]);
    assert_eq!(Nus3audioFile::from_bytes(&bytes).unwrap().files.len(), 0);
}

#[test]
fn bad_magic_is_rejected() {
    assert_eq!(error_of(b"NUS4\0\0\0\0"), FormatError::BadMagic);
    assert_eq!(error_of(b""), FormatError::BadMagic);
    assert_eq!(error_of(b"NUS"), FormatError::BadMagic);
    assert_eq!(error_of(b"nus3\x48\0\0\0"), FormatError::BadMagic);
    let mut bytes = one_entry();
    bytes[0] = b'M';
    assert_eq!(error_of(&bytes), FormatError::BadMagic);
}

#[test]
fn short_header_is_truncated() {
    assert_eq!(error_of(b"NUS3"), FormatError::TruncatedSection);
    assert_eq!(error_of(b"NUS3\x01\0\0"), FormatError::TruncatedSection);
}

#[test]
fn short_body_is_truncated() {
    let mut bytes = one_entry();
    bytes.pop();
    assert_eq!(error_of(&bytes), FormatError::TruncatedSection);
    assert_eq!(error_of(b"NUS3\x01\0\0\0"), FormatError::TruncatedSection);
}

#[test]
fn empty_body_is_truncated() {
    assert_eq!(error_of(b"NUS3\0\0\0\0"), FormatError::TruncatedSection);
}

#[test]
fn body_must_open_with_the_track_count() {
    let bytes = container(&[section(b"TNID", b""), section(b"NMOF", b"")]);
    assert_eq!(error_of(&bytes), FormatError::UnknownSection);
    let bytes = container(&[b"AUDI".to_vec()]);
    assert_eq!(error_of(&bytes), FormatError::TruncatedSection);
    let bytes = container(&[b"AUDIINDX".to_vec()]);
    assert_eq!(error_of(&bytes), FormatError::TruncatedSection);
}

#[test]
fn track_count_needs_four_bytes() {
    let bytes = container(&[section(b"AUDIINDX", &[1, 0, 0])]);
    assert_eq!(error_of(&bytes), FormatError::TruncatedSection);
    let mut short = b"AUDIINDX".to_vec();
    short.extend_from_slice(&8u32.to_le_bytes());
    short.extend_from_slice(&[0u8; 4]);
    assert_eq!(error_of(&container(&[short])), FormatError::TruncatedSection);
}

#[test]
fn oversized_track_count_section_is_passed_over() {
    let bytes = container(&[
        section(b"AUDIINDX", &[1, 0, 0, 0, 0xAA, 0xBB, 0xCC, 0xDD]),
        section(b"TNID", &numbers(&[42])),
        section(b"NMOF", &numbers(&[76])),
        section(b"ADOF", &numbers(&[87, 5])),
        section(b"TNNM", b"hi\0"),
        section(b"PACK", b"DATA!"),
    ]);
    let file = Nus3audioFile::from_bytes(&bytes).unwrap();
    assert_eq!(file.files[0].name, "hi");
    assert_eq!(file.files[0].data, b"DATA!".to_vec());
}

#[test]
fn track_count_is_advisory() {
    let mut bytes = one_entry();
    bytes[20] = 9;
    let file = Nus3audioFile::from_bytes(&bytes).unwrap();
    assert_eq!(file.files.len(), 1);
}

#[test]
fn unknown_tag_is_rejected() {
    let bytes = container(&[audiindx(0), section(b"ABCD", b"")]);
    assert_eq!(error_of(&bytes), FormatError::UnknownSection);
    let bytes = container(&[
        audiindx(0),
        section(b"TNID", b""),
        section(b"NMOF", b""),
        section(b"ADOF", b""),
        section(b"TNNM", b""),
        section(b"tnid", b""),
    ]);
    assert_eq!(error_of(&bytes), FormatError::UnknownSection);
}

#[test]
fn cut_off_section_is_truncated() {
    let bytes = container(&[audiindx(0), b"TN".to_vec()]);
    assert_eq!(error_of(&bytes), FormatError::TruncatedSection);
    let bytes = container(&[audiindx(0), b"TNID\x00\x00".to_vec()]);
    assert_eq!(error_of(&bytes), FormatError::TruncatedSection);
    let bytes = container(&[audiindx(0), b"TNID\x08\x00\x00\x00\x01\x02".to_vec()]);
    assert_eq!(error_of(&bytes), FormatError::TruncatedSection);
    // The tag is looked at before the length.
    let bytes = container(&[audiindx(0), b"ABCD\x00".to_vec()]);
    assert_eq!(error_of(&bytes), FormatError::UnknownSection);
}

#[test]
fn every_table_is_required() {
    let tnid = section(b"TNID", b"");
    let nmof = section(b"NMOF", b"");
    let adof = section(b"ADOF", b"");
    let tnnm = section(b"TNNM", b"");
    let without_adof = container(&[audiindx(0), tnid.clone(), nmof.clone(), tnnm.clone()]);
    assert_eq!(error_of(&without_adof), missing(SectionKind::Adof));
    let without_nmof = container(&[audiindx(0), tnid.clone(), adof.clone(), tnnm.clone()]);
    assert_eq!(error_of(&without_nmof), missing(SectionKind::Nmof));
    let without_tnid = container(&[audiindx(0), nmof.clone(), adof.clone(), tnnm.clone()]);
    assert_eq!(error_of(&without_tnid), missing(SectionKind::Tnid));
    let without_tnnm = container(&[audiindx(0), tnid.clone(), nmof.clone(), adof.clone()]);
    assert_eq!(error_of(&without_tnnm), missing(SectionKind::Tnnm));
    let only_junk = container(&[audiindx(0), section(b"JUNK", &[0; 3])]);
    assert_eq!(error_of(&only_junk), missing(SectionKind::Adof));
    let only_adof = container(&[audiindx(0), adof.clone()]);
    assert_eq!(error_of(&only_adof), missing(SectionKind::Nmof));
    let without_ids_and_names = container(&[audiindx(0), adof, nmof]);
    assert_eq!(error_of(&without_ids_and_names), missing(SectionKind::Tnid));
}

#[test]
fn tables_must_agree_in_length() {
    let more_locations = container(&[
        audiindx(1),
        section(b"TNID", &numbers(&[42])),
        section(b"NMOF", &numbers(&[72])),
        section(b"ADOF", &numbers(&[83, 5, 83, 5])),
        section(b"TNNM", b"hi\0"),
        section(b"PACK", b"DATA!"),
    ]);
    assert_eq!(error_of(&more_locations), FormatError::SectionCountMismatch);
    let more_ids = container(&[
        audiindx(1),
        section(b"TNID", &numbers(&[42, 43])),
        section(b"NMOF", &numbers(&[72])),
        section(b"ADOF", &numbers(&[83, 5])),
        section(b"TNNM", b"hi\0"),
    ]);
    assert_eq!(error_of(&more_ids), FormatError::SectionCountMismatch);
    let fewer_names = container(&[
        audiindx(1),
        section(b"TNID", &numbers(&[42])),
        section(b"NMOF", b""),
        section(b"ADOF", &numbers(&[83, 5])),
        section(b"TNNM", b"hi\0"),
    ]);
    assert_eq!(error_of(&fewer_names), FormatError::SectionCountMismatch);
}

#[test]
fn name_must_be_utf8() {
    let bytes = container(&[
        audiindx(1),
        section(b"TNID", &numbers(&[42])),
        section(b"NMOF", &numbers(&[72])),
        section(b"ADOF", &numbers(&[83, 5])),
        section(b"TNNM", b"\xFFi\0"),
        section(b"PACK", b"DATA!"),
    ]);
    assert_eq!(error_of(&bytes), FormatError::InvalidUtf8Name);
}

#[test]
fn name_must_end_within_the_file() {
    let mut bytes = one_entry();
    let len = bytes.len() as u32;
    bytes[44..48].copy_from_slice(&len.to_le_bytes());
    assert_eq!(error_of(&bytes), FormatError::TruncatedSection);
    bytes[44..48].copy_from_slice(&(len + 100).to_le_bytes());
    assert_eq!(error_of(&bytes), FormatError::TruncatedSection);
    bytes[44..48].copy_from_slice(&u32::MAX.to_le_bytes());
    assert_eq!(error_of(&bytes), FormatError::TruncatedSection);
    // From the payload on no zero byte follows.
    bytes[44..48].copy_from_slice(&83u32.to_le_bytes());
    assert_eq!(error_of(&bytes), FormatError::TruncatedSection);
}

#[test]
fn payload_must_lie_within_the_file() {
    let mut bytes = one_entry();
    bytes[60..64].copy_from_slice(&6u32.to_le_bytes());
    assert_eq!(error_of(&bytes), FormatError::TruncatedSection);
    bytes[56..60].copy_from_slice(&u32::MAX.to_le_bytes());
    bytes[60..64].copy_from_slice(&u32::MAX.to_le_bytes());
    assert_eq!(error_of(&bytes), FormatError::TruncatedSection);
    let len = bytes.len() as u32;
    bytes[56..60].copy_from_slice(&len.to_le_bytes());
    bytes[60..64].copy_from_slice(&0u32.to_le_bytes());
    let file = Nus3audioFile::from_bytes(&bytes).unwrap();
    assert_eq!(file.files[0].data, Vec::<u8>::new());
}

#[test]
fn names_are_resolved_before_payloads() {
    let bytes = container(&[
        audiindx(2),
        section(b"TNID", &numbers(&[1, 2])),
        section(b"NMOF", &numbers(&[88, 90])),
        section(b"ADOF", &numbers(&[5000, 5, 0, 4])),
        section(b"TNNM", b"a\0\xFF\0"),
    ]);
    assert_eq!(&bytes[88..92], b"a\0\xFF\0");
    assert_eq!(error_of(&bytes), FormatError::InvalidUtf8Name);
}

#[test]
fn first_section_of_a_kind_counts() {
    let bytes = container(&[
        audiindx(1),
        section(b"TNID", &numbers(&[42])),
        section(b"TNID", &numbers(&[1, 2, 3])),
        section(b"NMOF", &numbers(&[100])),
        section(b"ADOF", &numbers(&[111, 5])),
        section(b"ADOF", &numbers(&[])),
        section(b"TNNM", b"hi\0"),
        section(b"PACK", b"DATA!"),
    ]);
    assert_eq!(&bytes[100..103], b"hi\0");
    let file = Nus3audioFile::from_bytes(&bytes).unwrap();
    assert_eq!(file.files.len(), 1);
    assert_eq!(file.files[0].id, 42);
    assert_eq!(file.files[0].data, b"DATA!".to_vec());
}

#[test]
fn bytes_behind_the_body_are_left() {
    let mut bytes = one_entry();
    let body_end = bytes.len();
    bytes.extend_from_slice(b"trailing");
    let (rest, file) = take_file(&bytes).unwrap();
    assert_eq!(rest, b"trailing");
    assert_eq!(file.files[0].name, "hi");
    let (rest, _) = take_file(&bytes[..body_end]).unwrap();
    assert_eq!(rest, b"");
}

#[test]
fn offsets_may_point_behind_the_body() {
    let mut bytes = container(&[
        audiindx(1),
        section(b"TNID", &numbers(&[42])),
        section(b"NMOF", &numbers(&[72])),
        section(b"ADOF", &numbers(&[75, 3])),
        section(b"TNNM", b""),
    ]);
    assert_eq!(bytes.len(), 72);
    bytes.extend_from_slice(b"hi\0abc");
    let file = Nus3audioFile::from_bytes(&bytes).unwrap();
    assert_eq!(file.files[0].name, "hi");
    assert_eq!(file.files[0].data, b"abc".to_vec());
}

#[test]
fn bytes_behind_the_last_whole_number_are_passed_over() {
    let mut ids = numbers(&[42]);
    ids.extend_from_slice(&[1, 2]);
    let mut locations = numbers(&[85, 5]);
    locations.extend_from_slice(&[0xFF; 7]);
    let bytes = container(&[
        audiindx(1),
        section(b"TNID", &ids),
        section(b"NMOF", &numbers(&[81])),
        section(b"ADOF", &locations),
        section(b"TNNM", b"hi\0"),
        section(b"JUNK", &[0]),
        section(b"PACK", b"DATA!"),
    ]);
    assert_eq!(&bytes[81..84], b"hi\0");
    let file = Nus3audioFile::from_bytes(&bytes).unwrap();
    assert_eq!(file.files.len(), 1);
    assert_eq!(file.files[0].id, 42);
}

#[test]
fn sections_are_taken_one_by_one() {
    let mut bytes = section(b"TNID", &numbers(&[7, 8]));
    bytes.extend_from_slice(b"rest");
    let (rest, taken) = take_section(&bytes).unwrap();
    assert_eq!(rest, b"rest");
    assert!(matches!(taken, Section::Tnid(Tnid { track_nums }) if track_nums == vec![7, 8]));

    let bytes = section(b"NMOF", &numbers(&[0x0102_0304]));
    let (rest, taken) = take_section(&bytes).unwrap();
    assert_eq!(rest, b"");
    assert!(
        matches!(taken, Section::Nmof(Nmof { name_offsets }) if name_offsets == vec![0x0102_0304])
    );

    let bytes = section(b"ADOF", &numbers(&[1, 2, 3, 4]));
    let (_, taken) = take_section(&bytes).unwrap();
    assert!(matches!(taken, Section::Adof(Adof { entries }) if entries == vec![(1, 2), (3, 4)]));

    let (_, taken) = take_section(&section(b"TNNM", b"a\0b\0")).unwrap();
    assert!(matches!(taken, Section::Tnnm(blob) if blob == b"a\0b\0".to_vec()));
    let junk = section(b"JUNK", &[0; 9]);
    let (rest, taken) = take_section(&junk).unwrap();
    assert_eq!(rest, b"");
    assert!(matches!(taken, Section::Junk));
    let (_, taken) = take_section(&section(b"PACK", &[5; 3])).unwrap();
    assert!(matches!(taken, Section::Pack));

    assert_eq!(take_section(b"").err(), Some(FormatError::TruncatedSection));
    assert_eq!(take_section(b"NUS3\0\0\0\0").err(), Some(FormatError::UnknownSection));
    assert_eq!(
        take_section(&section(b"AUDIINDX", &[0; 4])).err(),
        Some(FormatError::UnknownSection)
    );
}

#[test]
fn track_count_is_taken() {
    let mut bytes = audiindx(0x0A0B_0C0D);
    bytes.extend_from_slice(b"TNID");
    let (rest, count) = take_audiindx(&bytes).unwrap();
    assert_eq!(rest, b"TNID");
    assert_eq!(count, 0x0A0B_0C0D);
    assert_eq!(take_audiindx(b"AUDIINDY\x04\0\0\0\0\0\0\0").err(), Some(FormatError::UnknownSection));
}

#[test]
fn body_holds_its_sections_in_order() {
    let body: Vec<u8> = [
        audiindx(3),
        section(b"PACK", b"x"),
        section(b"TNID", &numbers(&[1])),
        section(b"JUNK", b""),
    ]
    .concat();
    let sections = take_body(&body).unwrap();
    assert_eq!(sections.len(), 4);
    assert!(matches!(sections[0], Section::Audiindx(3)));
    assert!(matches!(sections[1], Section::Pack));
    assert!(matches!(sections[2], Section::Tnid(_)));
    assert!(matches!(sections[3], Section::Junk));
}

#[test]
fn tables_are_found_among_sections() {
    let sections = vec![
        Section::Audiindx(2),
        Section::Junk,
        Section::Tnid(Tnid { track_nums: vec![5, 6] }),
        Section::Adof(Adof { entries: vec![(1, 2)] }),
        Section::Tnid(Tnid { track_nums: vec![9] }),
        Section::Nmof(Nmof { name_offsets: vec![3] }),
        Section::Adof(Adof { entries: vec![] }),
    ];
    assert_eq!(get_track_ids(&sections), Some(vec![5, 6]));
    assert_eq!(get_adof_entries(&sections), Some(vec![(1, 2)]));
    assert_eq!(get_nmof_entries(&sections), Some(vec![3]));
    let none = vec![Section::Pack, Section::Tnnm(vec![])];
    assert_eq!(get_track_ids(&none), None);
    assert_eq!(get_adof_entries(&none), None);
    assert_eq!(get_nmof_entries(&none), None);
    assert_eq!(resolve(&none, b"").err(), Some(missing(SectionKind::Adof)));
}

#[test]
fn names_are_read_at_their_offsets() {
    let input = b"xxone\0two\0\0last";
    assert_eq!(
        get_names(vec![2, 6, 10, 3, 9], input),
        Ok(vec![
            "one".to_string(),
            "two".to_string(),
            "".to_string(),
            "ne".to_string(),
            "".to_string()
        ])
    );
    assert_eq!(get_names(vec![], input), Ok(vec![]));
    assert_eq!(get_names(vec![2, 11], input), Err(FormatError::TruncatedSection));
    assert_eq!(get_names(vec![15], input), Err(FormatError::TruncatedSection));
    assert_eq!(get_names(vec![0], b"\xC3\x28\0"), Err(FormatError::InvalidUtf8Name));
    assert_eq!(get_names(vec![0], "h\u{e9}\u{4e16}\0".as_bytes()), Ok(vec!["h\u{e9}\u{4e16}".to_string()]));
}

#[test]
fn numbers_are_read_least_significant_byte_first() {
    let bytes = [0x78u8, 0x56, 0x34, 0x12, 0xFF];
    assert_eq!(read_u32_le(&bytes, 0), Some(0x1234_5678));
    assert_eq!(read_u32_le(&bytes, 1), Some(0xFF12_3456));
    assert_eq!(read_u32_le(&bytes, 2), None);
    assert_eq!(read_u32_le(&bytes, 6), None);
    assert_eq!(read_u32_le(&bytes, usize::MAX), None);
    assert_eq!(read_u32_le(&[0xFF; 4], 0), Some(u32::MAX));
}

#[test]
fn prefixes_are_compared_byte_by_byte() {
    assert!(starts_with(b"NUS3....", [78u8, 85, 83, 51]));
    assert!(!starts_with(b"NUS", [78u8, 85, 83, 51]));
    assert!(!starts_with(b"NUS4", [78u8, 85, 83, 51]));
    assert!(starts_with(b"", []));
}
