use nus3audio::writer::get_padding_amount;
use nus3audio::{AudioFile, Nus3audioFile};

fn entry(id: u32, name: &str, data: &[u8]) -> AudioFile {
    AudioFile { id, name: name.to_string(), data: data.to_vec() }
}

fn opus_block() -> Vec<u8> {
    let mut data = b"OPUS".to_vec();
    data.extend_from_slice(&[0u8; 12]);
    data
}

fn le(bytes: &[u8], at: usize) -> u32 {
    u32::from_le_bytes([bytes[at], bytes[at + 1], bytes[at + 2], bytes[at + 3]])
}

fn written(file: &Nus3audioFile) -> Vec<u8> {
    let mut bytes = Vec::new();
    file.write(&mut bytes);
    bytes
}

#[test]
fn shared_payload_is_stored_once() {
    let file = Nus3audioFile {
        files: vec![entry(7, "bgm_a", &opus_block()), entry(3, "bgm_b", &opus_block())],
    };
    let bytes = written(&file);
    assert_eq!(bytes.len(), 144);
    assert_eq!(&bytes[0..4], b"NUS3");
    assert_eq!(le(&bytes, 4), 136);
    // ADOF lies behind NUS3 (8), AUDIINDX (16), TNID (16) and NMOF (16).
    assert_eq!(&bytes[56..60], b"ADOF");
    assert_eq!(le(&bytes, 60), 16);
    assert_eq!((le(&bytes, 64), le(&bytes, 68)), (128, 16));
    assert_eq!((le(&bytes, 72), le(&bytes, 76)), (128, 16));
    assert_eq!(&bytes[120..124], b"PACK");
    assert_eq!(le(&bytes, 124), 16);
    assert_eq!(&bytes[128..144], &opus_block()[..]);

    let back = Nus3audioFile::from_bytes(&bytes).unwrap();
    assert_eq!(back.files.len(), 2);
    assert_eq!(back.files[0].id, 7);
    assert_eq!(back.files[0].name, "bgm_a");
    assert_eq!(back.files[0].data, opus_block());
    assert_eq!(back.files[1].id, 3);
    assert_eq!(back.files[1].name, "bgm_b");
    assert_eq!(back.files[1].data, opus_block());
}

#[test]
fn empty_container_is_eighty_bytes() {
    let bytes = written(&Nus3audioFile::new());
    let mut expected: Vec<u8> = Vec::new();
    expected.extend_from_slice(b"NUS3");
    expected.extend_from_slice(&72u32.to_le_bytes());
    expected.extend_from_slice(b"AUDIINDX");
    expected.extend_from_slice(&4u32.to_le_bytes());
    expected.extend_from_slice(&0u32.to_le_bytes());
    expected.extend_from_slice(b"TNID");
    expected.extend_from_slice(&0u32.to_le_bytes());
    expected.extend_from_slice(b"NMOF");
    expected.extend_from_slice(&0u32.to_le_bytes());
    expected.extend_from_slice(b"ADOF");
    expected.extend_from_slice(&0u32.to_le_bytes());
    expected.extend_from_slice(b"TNNM");
    expected.extend_from_slice(&0u32.to_le_bytes());
    expected.extend_from_slice(b"JUNK");
    expected.extend_from_slice(&8u32.to_le_bytes());
    expected.extend_from_slice(&[0u8; 8]);
    expected.extend_from_slice(b"PACK");
    expected.extend_from_slice(&0u32.to_le_bytes());
    assert_eq!(bytes, expected);
}

#[test]
fn single_entry_is_written_byte_for_byte() {
    let file = Nus3audioFile { files: vec![entry(0x0102_0304, "a", &[1, 2, 3])] };
    let mut expected: Vec<u8> = Vec::new();
    expected.extend_from_slice(b"NUS3");
    expected.extend_from_slice(&104u32.to_le_bytes());
    expected.extend_from_slice(b"AUDIINDX");
    expected.extend_from_slice(&4u32.to_le_bytes());
    expected.extend_from_slice(&1u32.to_le_bytes());
    expected.extend_from_slice(b"TNID");
    expected.extend_from_slice(&4u32.to_le_bytes());
    expected.extend_from_slice(&[4, 3, 2, 1]);
    expected.extend_from_slice(b"NMOF");
    expected.extend_from_slice(&4u32.to_le_bytes());
    expected.extend_from_slice(&72u32.to_le_bytes());
    expected.extend_from_slice(b"ADOF");
    expected.extend_from_slice(&8u32.to_le_bytes());
    expected.extend_from_slice(&96u32.to_le_bytes());
    expected.extend_from_slice(&3u32.to_le_bytes());
    expected.extend_from_slice(b"TNNM");
    expected.extend_from_slice(&2u32.to_le_bytes());
    expected.extend_from_slice(b"a\0");
    expected.extend_from_slice(b"JUNK");
    expected.extend_from_slice(&6u32.to_le_bytes());
    expected.extend_from_slice(&[0u8; 6]);
    expected.extend_from_slice(b"PACK");
    expected.extend_from_slice(&16u32.to_le_bytes());
    expected.extend_from_slice(&[1, 2, 3]);
    expected.extend_from_slice(&[0u8; 13]);
    assert_eq!(expected.len(), 112);
    assert_eq!(written(&file), expected);
}

#[test]
fn numbers_are_written_least_significant_byte_first() {
    let file = Nus3audioFile { files: vec![entry(0xAABB_CCDD, "", &[])] };
    let bytes = written(&file);
    assert_eq!(&bytes[24..28], b"TNID");
    assert_eq!(&bytes[32..36], &[0xDD, 0xCC, 0xBB, 0xAA]);
}

#[test]
fn payloads_start_on_multiples_of_sixteen() {
    for name_len in 0..40usize {
        let name = "n".repeat(name_len);
        let file = Nus3audioFile {
            files: vec![
                entry(0, &name, &[1u8; 5]),
                entry(1, "second", &[2u8; 17]),
                entry(2, "third", &[3u8; 16]),
            ],
        };
        let bytes = written(&file);
        let strings_start = 56 + 16 * 3;
        let names_size = (name_len + 1) + 7 + 6;
        let junk_at = strings_start + names_size;
        assert_eq!(&bytes[junk_at..junk_at + 4], b"JUNK");
        let junk_size = le(&bytes, junk_at + 4) as usize;
        let pack_at = junk_at + 8 + junk_size;
        assert_eq!(&bytes[pack_at..pack_at + 4], b"PACK");
        let pack_start = pack_at + 8;
        assert_eq!(pack_start % 16, 0);
        assert!(bytes[junk_at + 8..pack_at].iter().all(|b| *b == 0));
        let adof = 8 + 16 + 20 + 20 + 8;
        for i in 0..3 {
            let offset = le(&bytes, adof + 8 * i) as usize;
            assert_eq!(offset % 16, 0);
        }
        assert_eq!(le(&bytes, adof) as usize, pack_start);
        assert_eq!(le(&bytes, adof + 8) as usize, pack_start + 16);
        assert_eq!(le(&bytes, adof + 16) as usize, pack_start + 48);
        assert_eq!(bytes.len(), pack_start + 64);
    }
}

#[test]
fn different_payloads_are_stored_apart() {
    let a = [9u8; 16];
    let b = [8u8; 5];
    let file = Nus3audioFile {
        files: vec![entry(0, "a", &a), entry(1, "b", &b), entry(2, "c", &a)],
    };
    let bytes = written(&file);
    let adof = 8 + 16 + 20 + 20 + 8;
    let first = (le(&bytes, adof), le(&bytes, adof + 4));
    let second = (le(&bytes, adof + 8), le(&bytes, adof + 12));
    let third = (le(&bytes, adof + 16), le(&bytes, adof + 20));
    assert_eq!(first.1, 16);
    assert_eq!(second, (first.0 + 16, 5));
    assert_eq!(third, first);
    let pack_start = first.0 as usize;
    assert_eq!(le(&bytes, pack_start - 4), 32);
    assert_eq!(bytes.len(), pack_start + 32);
    assert_eq!(&bytes[pack_start..pack_start + 16], &a);
    assert_eq!(&bytes[pack_start + 16..pack_start + 21], &b);
    assert_eq!(&bytes[pack_start + 21..pack_start + 32], &[0u8; 11]);
}

#[test]
fn empty_payloads_take_no_room() {
    let file = Nus3audioFile { files: vec![entry(0, "x", &[]), entry(1, "y", &[])] };
    let bytes = written(&file);
    let adof = 8 + 16 + 16 + 16 + 8;
    let first = (le(&bytes, adof), le(&bytes, adof + 4));
    assert_eq!(first.1, 0);
    assert_eq!((le(&bytes, adof + 8), le(&bytes, adof + 12)), first);
    assert_eq!(bytes.len(), first.0 as usize);
}

#[test]
fn calc_size_is_the_written_length() {
    let files = vec![
        Nus3audioFile::new(),
        Nus3audioFile { files: vec![entry(1, "one", b"IDSP0123456789")] },
        Nus3audioFile {
            files: vec![entry(7, "bgm_a", &opus_block()), entry(3, "bgm_b", &opus_block())],
        },
        Nus3audioFile {
            files: vec![entry(0, "a", &[1; 33]), entry(0, "b", &[2; 1]), entry(0, "c", &[])],
        },
    ];
    for file in files.iter() {
        let bytes = written(file);
        assert_eq!(file.calc_size(), bytes.len());
        assert_eq!(file.checked_size(), Some(bytes.len()));
    }
    assert_eq!(files[0].calc_size(), 80);
    assert_eq!(files[2].calc_size(), 144);
}

#[test]
fn try_write_writes_what_write_writes() {
    let file = Nus3audioFile { files: vec![entry(5, "five", b"OPUSdata")] };
    let mut tried = Vec::new();
    assert!(file.try_write(&mut tried));
    assert_eq!(tried, written(&file));
}

#[test]
fn write_appends_to_what_is_there() {
    let file = Nus3audioFile { files: vec![entry(5, "five", b"OPUSdata")] };
    let mut bytes = vec![0xEEu8, 0xFF];
    file.write(&mut bytes);
    assert_eq!(&bytes[..2], &[0xEE, 0xFF]);
    assert_eq!(&bytes[2..], &written(&file)[..]);
}

#[test]
fn padding_amounts() {
    assert_eq!(get_padding_amount(0), 8);
    assert_eq!(get_padding_amount(8), 0);
    assert_eq!(get_padding_amount(9), 15);
    assert_eq!(get_padding_amount(15), 9);
    assert_eq!(get_padding_amount(16), 8);
    assert_eq!(get_padding_amount(108), 12);
    for offset in 0..200usize {
        let pad = get_padding_amount(offset);
        assert!(pad < 16);
        assert_eq!((offset + pad + 8) % 16, 0);
    }
}

#[test]
fn checksums_are_crc32() {
    let file = Nus3audioFile {
        files: vec![entry(0, "a", b"123456789"), entry(1, "b", b""), entry(2, "c", b"a")],
    };
    assert_eq!(file.checksums(), vec![0xCBF4_3926, 0, 0xE8B7_BE43]);
}

#[test]
fn equal_checksums_share_the_first_payload() {
    let file = Nus3audioFile {
        files: vec![entry(0, "a", &[1u8; 20]), entry(1, "b", &[2u8; 3]), entry(2, "c", &[3u8; 4])],
    };
    let sums = vec![11u32, 11, 12];
    let mut bytes = Vec::new();
    file.write_with(&sums, &mut bytes);
    let adof = 8 + 16 + 20 + 20 + 8;
    let first = (le(&bytes, adof), le(&bytes, adof + 4));
    assert_eq!(first.1, 20);
    assert_eq!((le(&bytes, adof + 8), le(&bytes, adof + 12)), first);
    assert_eq!((le(&bytes, adof + 16), le(&bytes, adof + 20)), (first.0 + 32, 4));
    assert_eq!(bytes.len(), first.0 as usize + 48);

    let back = Nus3audioFile::from_bytes(&bytes).unwrap();
    assert_eq!(back.files[0].data, vec![1u8; 20]);
    assert_eq!(back.files[1].data, vec![1u8; 20]);
    assert_eq!(back.files[1].name, "b");
    assert_eq!(back.files[1].id, 1);
    assert_eq!(back.files[2].data, vec![3u8; 4]);
}

#[test]
fn different_checksums_store_equal_payloads_twice() {
    let file = Nus3audioFile { files: vec![entry(0, "a", &[1u8; 4]), entry(1, "b", &[1u8; 4])] };
    let mut bytes = Vec::new();
    file.write_with(&vec![1u32, 2], &mut bytes);
    let adof = 8 + 16 + 16 + 16 + 8;
    let first = (le(&bytes, adof), le(&bytes, adof + 4));
    assert_eq!((le(&bytes, adof + 8), le(&bytes, adof + 12)), (first.0 + 16, 4));
    assert_eq!(bytes.len(), first.0 as usize + 32);
}

#[test]
fn colliding_payloads_are_read_back_as_the_first() {
    // Two different texts with one CRC-32.
    let file = Nus3audioFile {
        files: vec![entry(0, "a", b"plumless"), entry(1, "b", b"buckeroo")],
    };
    let sums = file.checksums();
    assert_eq!(sums[0], sums[1]);
    let back = Nus3audioFile::from_bytes(&written(&file)).unwrap();
    assert_eq!(back.files[0].data, b"plumless".to_vec());
    assert_eq!(back.files[1].data, b"plumless".to_vec());
    assert_eq!(written(&back), written(&file));
}

#[test]
fn layout_needs_a_checksum_for_each_entry() {
    let file = Nus3audioFile { files: vec![entry(0, "a", &[1u8; 4])] };
    assert!(file.layout_with(&vec![]).is_none());
    assert!(file.layout_with(&vec![1, 2]).is_none());
    let layout = file.layout_with(&vec![1]).unwrap();
    assert_eq!(layout.name_offsets, vec![72]);
    assert_eq!(layout.names_size, 2);
    assert_eq!(layout.junk_size, 6);
    assert_eq!(layout.locations, vec![(96, 4)]);
    assert_eq!(layout.stored, vec![true]);
    assert_eq!(layout.pack_size, 16);
    assert_eq!(layout.file_size, 112);
}
