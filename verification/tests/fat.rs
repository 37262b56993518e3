use macho_codec::{
    decode_fat, decode_mach_at, encode_fat, encode_mach, ByteOrder, CpuSubtype, CpuType,
    DecodeError, EncodeError, FatArch, FatHeader, FileRange, FileType, LoadCommand, MachHeader,
    MagicKind,
};

fn fat_words(ws: &[u32], order: ByteOrder) -> Vec<u8> {
    let mut out = Vec::new();
    for w in ws {
        match order {
            ByteOrder::Big => out.extend_from_slice(&w.to_be_bytes()),
            ByteOrder::Little => out.extend_from_slice(&w.to_le_bytes()),
        }
    }
    out
}

fn image(magic: MagicKind, cpu_type: CpuType, wide: bool) -> MachHeader {
    MachHeader {
        magic,
        cpu_type,
        cpu_subtype: CpuSubtype::Unknown(3),
        file_type: FileType::MachExecute,
        flags: 0x85,
        reserved: if wide { Some(0) } else { None },
        commands: vec![LoadCommand::CodeSignature(FileRange {
            file_offset: 0x100,
            file_size: 0x20,
        })],
    }
}

fn two_slots() -> FatHeader {
    FatHeader {
        magic: MagicKind::FatBigEndian,
        archs: vec![
            FatArch {
                cpu_type: CpuType::X86_64,
                cpu_subtype: CpuSubtype::Unknown(3),
                offset: 0x1000,
                size: 0x800,
                align: 12,
                mach: image(MagicKind::Mach64LittleEndian, CpuType::X86_64, true),
            },
            FatArch {
                cpu_type: CpuType::Arm,
                cpu_subtype: CpuSubtype::ArmV7,
                offset: 0x2000,
                size: 0x400,
                align: 12,
                mach: image(MagicKind::Mach32BigEndian, CpuType::Arm, false),
            },
        ],
    }
}

fn two_slots_bytes() -> Vec<u8> {
    let mut bytes = vec![0xca, 0xfe, 0xba, 0xbe];
    bytes.extend_from_slice(&fat_words(
        &[2, 0x0100_0007, 3, 0x1000, 0x800, 12, 12, 9, 0x2000, 0x400, 12],
        ByteOrder::Big,
    ));
    assert_eq!(bytes.len(), 48);
    bytes.resize(0x1000, 0);
    bytes.extend_from_slice(&[0xcf, 0xfa, 0xed, 0xfe]);
    bytes.extend_from_slice(&fat_words(
        &[0x0100_0007, 3, 2, 1, 16, 0x85, 0, 0x1d, 16, 0x100, 0x20],
        ByteOrder::Little,
    ));
    assert_eq!(bytes.len(), 0x1000 + 48);
    bytes.resize(0x2000, 0);
    bytes.extend_from_slice(&[0xfe, 0xed, 0xfa, 0xce]);
    bytes.extend_from_slice(&fat_words(
        &[12, 3, 2, 1, 16, 0x85, 0x1d, 16, 0x100, 0x20],
        ByteOrder::Big,
    ));
    assert_eq!(bytes.len(), 0x2000 + 44);
    bytes
}

#[test]
fn two_slots_at_aligned_offsets() {
    let bytes = two_slots_bytes();
    let fat = decode_fat(&bytes).unwrap();
    assert_eq!(fat.magic, MagicKind::FatBigEndian);
    assert_eq!(fat.archs.len(), 2);
    assert_eq!(fat.archs[0].offset, 0x1000);
    assert_eq!(fat.archs[0].align, 12);
    assert_eq!(fat.archs[0].offset % (1 << fat.archs[0].align), 0);
    assert_eq!(fat.archs[1].offset, 0x2000);
    assert_eq!(fat.archs[1].align, 12);
    assert_eq!(fat.archs[1].offset % (1 << fat.archs[1].align), 0);
    // each header is the one that lies at the offset of its slot
    assert_eq!(decode_mach_at(&bytes, 0x1000, None).unwrap().0, fat.archs[0].mach);
    assert_eq!(decode_mach_at(&bytes, 0x2000, None).unwrap().0, fat.archs[1].mach);
    assert_eq!(fat.archs[0].mach.magic, MagicKind::Mach64LittleEndian);
    assert_eq!(fat.archs[1].mach.magic, MagicKind::Mach32BigEndian);
    assert_eq!(fat, two_slots());
}

#[test]
fn slots_are_decoded_independently() {
    // overwriting the image of one slot leaves the other as it was
    let mut bytes = two_slots_bytes();
    bytes[0x1000 + 24] = 0x86;
    let fat = decode_fat(&bytes).unwrap();
    assert_eq!(fat.archs[1], two_slots().archs[1]);
    assert_eq!(fat.archs[0].mach.flags, 0x86);
    let mut bytes = two_slots_bytes();
    bytes[0x2000 + 27] = 0x87;
    let fat = decode_fat(&bytes).unwrap();
    assert_eq!(fat.archs[0], two_slots().archs[0]);
    assert_eq!(fat.archs[1].mach.flags, 0x87);
}

#[test]
fn fat_wrapper_is_written_with_its_padding() {
    assert_eq!(encode_fat(&two_slots()), Ok(two_slots_bytes()));
}

#[test]
fn fat_round_trip() {
    let bytes = encode_fat(&two_slots()).unwrap();
    assert_eq!(decode_fat(&bytes), Ok(two_slots()));
    let fat = decode_fat(&two_slots_bytes()).unwrap();
    assert_eq!(encode_fat(&fat), Ok(two_slots_bytes()));
}

#[test]
fn fat_little_endian_table() {
    let fat = FatHeader {
        magic: MagicKind::FatLittleEndian,
        archs: vec![FatArch {
            cpu_type: CpuType::Arm64,
            cpu_subtype: CpuSubtype::Arm64E,
            offset: 28,
            size: 44,
            align: 2,
            mach: image(MagicKind::Mach32BigEndian, CpuType::Arm64, false),
        }],
    };
    let mut bytes = vec![0xbe, 0xba, 0xfe, 0xca];
    bytes.extend_from_slice(&fat_words(&[1, 0x0100_000c, 2, 28, 44, 2], ByteOrder::Little));
    bytes.extend_from_slice(&encode_mach(&fat.archs[0].mach).unwrap());
    assert_eq!(bytes.len(), 28 + 44);
    assert_eq!(encode_fat(&fat), Ok(bytes.clone()));
    assert_eq!(decode_fat(&bytes), Ok(fat));
}

#[test]
fn fat_wrapper_without_slots() {
    let fat = FatHeader { magic: MagicKind::FatBigEndian, archs: vec![] };
    let bytes = vec![0xca, 0xfe, 0xba, 0xbe, 0, 0, 0, 0];
    assert_eq!(encode_fat(&fat), Ok(bytes.clone()));
    assert_eq!(decode_fat(&bytes), Ok(fat));
}

#[test]
fn slots_may_share_an_image_when_read() {
    let mut bytes = vec![0xca, 0xfe, 0xba, 0xbe];
    bytes.extend_from_slice(&fat_words(&[2, 7, 3, 48, 44, 0, 7, 3, 48, 44, 0], ByteOrder::Big));
    let mach = image(MagicKind::Mach32LittleEndian, CpuType::X86, false);
    bytes.extend_from_slice(&encode_mach(&mach).unwrap());
    let fat = decode_fat(&bytes).unwrap();
    assert_eq!(fat.archs.len(), 2);
    assert_eq!(fat.archs[0], fat.archs[1]);
    assert_eq!(fat.archs[0].mach, mach);
    // but they cannot be written to the same place
    assert_eq!(encode_fat(&fat), Err(EncodeError::SeekOutOfRange(48)));
}

#[test]
fn fat_magic_number_that_is_none() {
    let mut bytes = two_slots_bytes();
    bytes[3] = 0xbf;
    assert_eq!(decode_fat(&bytes), Err(DecodeError::UnrecognizedMagic(0xcafebabf)));
    bytes[..4].copy_from_slice(&[0xfe, 0xed, 0xfa, 0xcf]);
    assert_eq!(decode_fat(&bytes), Err(DecodeError::UnrecognizedMagic(0xfeedfacf)));
}

#[test]
fn truncated_slot_table() {
    let bytes = two_slots_bytes();
    for len in 0..4usize {
        assert_eq!(decode_fat(&bytes[..len]), Err(DecodeError::TruncatedInput(4, len as u64)));
    }
    for len in 4..8usize {
        assert_eq!(decode_fat(&bytes[..len]), Err(DecodeError::TruncatedInput(8, len as u64)));
    }
    for len in 8..48usize {
        assert_eq!(decode_fat(&bytes[..len]), Err(DecodeError::TruncatedInput(48, len as u64)));
    }
    let huge = vec![0xca, 0xfe, 0xba, 0xbe, 0xff, 0xff, 0xff, 0xff];
    assert_eq!(decode_fat(&huge), Err(DecodeError::TruncatedInput(8 + 20 * 0xffff_ffff, 8)));
}

#[test]
fn slot_behind_the_end_of_the_buffer() {
    let bytes = two_slots_bytes();
    assert_eq!(decode_fat(&bytes[..0x1fff]), Err(DecodeError::SeekOutOfRange(0x2000)));
    assert_eq!(decode_fat(&bytes[..0xfff]), Err(DecodeError::SeekOutOfRange(0x1000)));
    // a slot right at the end is in range, but holds nothing
    assert_eq!(decode_fat(&bytes[..0x2000]), Err(DecodeError::TruncatedInput(4, 0)));
    assert_eq!(decode_fat(&bytes[..0x2003]), Err(DecodeError::TruncatedInput(4, 3)));
    assert_eq!(decode_fat(&bytes[..0x2010]), Err(DecodeError::TruncatedInput(28, 16)));
}

#[test]
fn slot_without_a_header() {
    let mut bytes = two_slots_bytes();
    bytes[0x2000] = 0;
    assert_eq!(decode_fat(&bytes), Err(DecodeError::UnrecognizedMagic(0x00edface)));
    // a fat wrapper is no image
    bytes[0x1000..0x1004].copy_from_slice(&[0xca, 0xfe, 0xba, 0xbe]);
    assert_eq!(decode_fat(&bytes), Err(DecodeError::UnrecognizedMagic(0xcafebabe)));
}

#[test]
fn slot_that_overlaps_the_table_is_not_written() {
    let mut fat = two_slots();
    fat.archs[0].offset = 47;
    assert_eq!(encode_fat(&fat), Err(EncodeError::SeekOutOfRange(47)));
    fat.archs[0].offset = 48;
    let bytes = encode_fat(&fat).unwrap();
    assert_eq!(decode_fat(&bytes), Ok(fat));
}

#[test]
fn slot_that_overlaps_the_image_before_is_not_written() {
    let mut fat = two_slots();
    fat.archs[1].offset = 0x1000 + 47;
    assert_eq!(encode_fat(&fat), Err(EncodeError::SeekOutOfRange(0x1000 + 47)));
    fat.archs[1].offset = 0x1000 + 48;
    let bytes = encode_fat(&fat).unwrap();
    assert_eq!(bytes.len(), 0x1000 + 48 + 44);
    assert_eq!(decode_fat(&bytes), Ok(fat));
    let mut fat = two_slots();
    fat.archs.swap(0, 1);
    assert_eq!(encode_fat(&fat), Err(EncodeError::SeekOutOfRange(0x1000)));
}

#[test]
fn fat_wrapper_with_the_magic_number_of_an_image_is_not_written() {
    let mut fat = two_slots();
    fat.magic = MagicKind::Mach64BigEndian;
    assert_eq!(encode_fat(&fat), Err(EncodeError::UnrecognizedMagic(0xfeedfacf)));
    fat.magic = MagicKind::Unrecognized(5);
    assert_eq!(encode_fat(&fat), Err(EncodeError::UnrecognizedMagic(5)));
}

#[test]
fn header_that_cannot_be_written_stops_the_wrapper() {
    let mut fat = two_slots();
    fat.archs[1].mach.magic = MagicKind::FatBigEndian;
    assert_eq!(encode_fat(&fat), Err(EncodeError::UnrecognizedMagic(0xcafebabe)));
}

#[test]
fn methods_of_the_fat_wrapper() {
    let fat = FatHeader::decode(&two_slots_bytes()).unwrap();
    assert_eq!(fat, two_slots());
    assert_eq!(fat.encode(), Ok(two_slots_bytes()));
    assert_eq!(
        MachHeader::decode(&two_slots_bytes()[0x1000..], None),
        Ok(fat.archs[0].mach.clone())
    );
    assert_eq!(fat.archs[1].mach.encode().unwrap(), two_slots_bytes()[0x2000..].to_vec());
}
