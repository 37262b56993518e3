use macho_codec::{
    decode_mach, decode_mach_at, encode_command, encode_mach, ByteOrder, CpuSubtype, CpuType,
    DecodeError, EncodeError, FileRange, FileType, LoadCommand, MachHeader, MagicKind,
    NameField, PathCommand, SymbolTable,
};

fn head_word(v: u32, order: ByteOrder) -> [u8; 4] {
    match order {
        ByteOrder::Big => v.to_be_bytes(),
        ByteOrder::Little => v.to_le_bytes(),
    }
}

fn head_words(ws: &[u32], order: ByteOrder) -> Vec<u8> {
    let mut out = Vec::new();
    for w in ws {
        out.extend_from_slice(&head_word(*w, order));
    }
    out
}

const RAW_ID: [u8; 16] = [1, 2, 3, 4, 5, 6, 7, 8, 9, 10, 11, 12, 13, 14, 15, 16];

/// A 64-bit little-endian library with an identifier and a source version.
fn sample_64_bytes() -> Vec<u8> {
    let order = ByteOrder::Little;
    let mut bytes = vec![0xcf, 0xfa, 0xed, 0xfe];
    bytes.extend_from_slice(&head_words(&[0x0100_000c, 2, 6, 2, 40, 0x0010_0085, 0], order));
    bytes.extend_from_slice(&head_words(&[0x1b, 24], order));
    bytes.extend_from_slice(&RAW_ID);
    bytes.extend_from_slice(&head_words(&[0x2a, 16], order));
    bytes.extend_from_slice(&0x0001_0002_0003_0004u64.to_le_bytes());
    assert_eq!(bytes.len(), 72);
    bytes
}

fn sample_64() -> MachHeader {
    MachHeader {
        magic: MagicKind::Mach64LittleEndian,
        cpu_type: CpuType::Arm64,
        cpu_subtype: CpuSubtype::Arm64E,
        file_type: FileType::MachDyLib,
        flags: 0x0010_0085,
        reserved: Some(0),
        commands: vec![
            LoadCommand::Uuid(uuid::Uuid::from_bytes(RAW_ID)),
            LoadCommand::SourceVersion(0x0001_0002_0003_0004),
        ],
    }
}

/// A 32-bit big-endian executable with a symbol table.
fn sample_32_bytes() -> Vec<u8> {
    let order = ByteOrder::Big;
    let mut bytes = vec![0xfe, 0xed, 0xfa, 0xce];
    bytes.extend_from_slice(&head_words(&[18, 100, 2, 1, 24, 0x85], order));
    bytes.extend_from_slice(&head_words(&[0x2, 24, 0x1000, 5, 0x1050, 0x40], order));
    assert_eq!(bytes.len(), 52);
    bytes
}

fn sample_32() -> MachHeader {
    MachHeader {
        magic: MagicKind::Mach32BigEndian,
        cpu_type: CpuType::Unknown(18),
        cpu_subtype: CpuSubtype::Unknown(100),
        file_type: FileType::MachExecute,
        flags: 0x85,
        reserved: None,
        commands: vec![LoadCommand::SymbolTable(SymbolTable {
            symbol_table_offset: 0x1000,
            number_of_symbols: 5,
            string_table_offset: 0x1050,
            string_table_size: 0x40,
        })],
    }
}

#[test]
fn decode_64_bit_little_endian() {
    assert_eq!(decode_mach(&sample_64_bytes(), None), Ok(sample_64()));
}

#[test]
fn encode_64_bit_little_endian() {
    assert_eq!(encode_mach(&sample_64()), Ok(sample_64_bytes()));
}

#[test]
fn decode_32_bit_big_endian() {
    assert_eq!(decode_mach(&sample_32_bytes(), None), Ok(sample_32()));
}

#[test]
fn encode_32_bit_big_endian() {
    assert_eq!(encode_mach(&sample_32()), Ok(sample_32_bytes()));
}

#[test]
fn all_four_magic_numbers_round_trip() {
    for (magic, first, wide, order) in [
        (MagicKind::Mach32BigEndian, [0xfe, 0xed, 0xfa, 0xce], false, ByteOrder::Big),
        (MagicKind::Mach32LittleEndian, [0xce, 0xfa, 0xed, 0xfe], false, ByteOrder::Little),
        (MagicKind::Mach64BigEndian, [0xfe, 0xed, 0xfa, 0xcf], true, ByteOrder::Big),
        (MagicKind::Mach64LittleEndian, [0xcf, 0xfa, 0xed, 0xfe], true, ByteOrder::Little),
    ] {
        let header = MachHeader {
            magic,
            cpu_type: CpuType::X86_64,
            cpu_subtype: CpuSubtype::Unknown(3),
            file_type: FileType::MachObject,
            flags: 0x2000,
            reserved: if wide { Some(0xabcd) } else { None },
            commands: vec![
                LoadCommand::FunctionStarts(FileRange { file_offset: 1, file_size: 2 }),
                LoadCommand::Unknown(0x55, vec![9, 8, 7]),
            ],
        };
        let mut bytes = first.to_vec();
        bytes.extend_from_slice(&head_words(&[0x0100_0007, 3, 1, 2, 27, 0x2000], order));
        if wide {
            bytes.extend_from_slice(&head_word(0xabcd, order));
        }
        bytes.extend_from_slice(&head_words(&[0x26, 16, 1, 2, 0x55, 11], order));
        bytes.extend_from_slice(&[9, 8, 7]);
        assert_eq!(encode_mach(&header), Ok(bytes.clone()));
        assert_eq!(decode_mach(&bytes, None), Ok(header.clone()));
        assert_eq!(decode_mach(&bytes, Some(order)), Ok(header));
    }
}

#[test]
fn hint_must_agree_with_the_magic_number() {
    assert_eq!(decode_mach(&sample_64_bytes(), Some(ByteOrder::Little)), Ok(sample_64()));
    assert_eq!(
        decode_mach(&sample_64_bytes(), Some(ByteOrder::Big)),
        Err(DecodeError::UnrecognizedMagic(0xcffaedfe))
    );
    assert_eq!(decode_mach(&sample_32_bytes(), Some(ByteOrder::Big)), Ok(sample_32()));
    assert_eq!(
        decode_mach(&sample_32_bytes(), Some(ByteOrder::Little)),
        Err(DecodeError::UnrecognizedMagic(0xfeedface))
    );
}

#[test]
fn bytes_behind_the_commands_are_left_alone() {
    let mut bytes = sample_64_bytes();
    bytes.extend_from_slice(&[0xde, 0xad, 0xbe, 0xef]);
    assert_eq!(decode_mach(&bytes, None), Ok(sample_64()));
}

#[test]
fn header_in_the_middle_of_a_buffer() {
    let mut bytes = vec![0x11u8; 9];
    bytes.extend_from_slice(&sample_32_bytes());
    bytes.extend_from_slice(&[0x22; 3]);
    assert_eq!(decode_mach_at(&bytes, 9, None), Ok((sample_32(), 9 + 52)));
    assert_eq!(decode_mach_at(&sample_64_bytes(), 0, None), Ok((sample_64(), 72)));
}

#[test]
fn decode_after_encode_gives_the_header_back() {
    for header in [sample_32(), sample_64()] {
        let bytes = encode_mach(&header).unwrap();
        assert_eq!(decode_mach(&bytes, None), Ok(header));
    }
}

#[test]
fn encode_after_decode_gives_the_bytes_back() {
    for bytes in [sample_32_bytes(), sample_64_bytes()] {
        let header = decode_mach(&bytes, None).unwrap();
        assert_eq!(encode_mach(&header), Ok(bytes));
    }
}

fn counts_of(bytes: &[u8], order: ByteOrder) -> (u32, u32) {
    let read = |at: usize| {
        let raw = [bytes[at], bytes[at + 1], bytes[at + 2], bytes[at + 3]];
        match order {
            ByteOrder::Big => u32::from_be_bytes(raw),
            ByteOrder::Little => u32::from_le_bytes(raw),
        }
    };
    (read(16), read(20))
}

fn total_of(header: &MachHeader, order: ByteOrder) -> u32 {
    header.commands.iter().map(|c| encode_command(c, order).unwrap().len() as u32).sum()
}

#[test]
fn counts_are_computed_from_the_commands() {
    let order = ByteOrder::Little;
    let mut header = decode_mach(&sample_64_bytes(), None).unwrap();
    assert_eq!(counts_of(&encode_mach(&header).unwrap(), order), (2, 40));
    // append
    header.commands.push(LoadCommand::RunPathSearchPath(PathCommand {
        cmd_size: 24,
        str_offset: 12,
        path: String::from("/usr/lib"),
    }));
    let bytes = encode_mach(&header).unwrap();
    assert_eq!(counts_of(&bytes, order), (3, 64));
    assert_eq!(total_of(&header, order), 64);
    assert_eq!(bytes.len(), 32 + 64);
    assert_eq!(decode_mach(&bytes, None), Ok(header.clone()));
    // reorder
    header.commands.swap(0, 2);
    let bytes = encode_mach(&header).unwrap();
    assert_eq!(counts_of(&bytes, order), (3, 64));
    assert_eq!(decode_mach(&bytes, None), Ok(header.clone()));
    // remove
    header.commands.remove(1);
    let bytes = encode_mach(&header).unwrap();
    assert_eq!(counts_of(&bytes, order), (2, 48));
    assert_eq!(total_of(&header, order), 48);
    assert_eq!(decode_mach(&bytes, None), Ok(header.clone()));
    // remove all
    header.commands.clear();
    let bytes = encode_mach(&header).unwrap();
    assert_eq!(counts_of(&bytes, order), (0, 0));
    assert_eq!(bytes.len(), 32);
    assert_eq!(decode_mach(&bytes, None), Ok(header));
}

#[test]
fn counts_are_computed_in_big_endian_too() {
    let order = ByteOrder::Big;
    let mut header = sample_32();
    header.commands.insert(0, LoadCommand::Unknown(0x99, vec![0; 13]));
    let bytes = encode_mach(&header).unwrap();
    assert_eq!(counts_of(&bytes, order), (2, 45));
    assert_eq!(total_of(&header, order), 45);
    assert_eq!(decode_mach(&bytes, None), Ok(header));
}

#[test]
fn wide_header_without_reserved_word_is_written_with_zero() {
    let mut header = sample_64();
    header.reserved = None;
    assert_eq!(encode_mach(&header), Ok(sample_64_bytes()));
    let mut narrow = sample_32();
    narrow.reserved = Some(77);
    assert_eq!(encode_mach(&narrow), Ok(sample_32_bytes()));
}

#[test]
fn magic_number_that_is_none() {
    for first in [[0u8, 0, 0, 0], [0xfe, 0xed, 0xfa, 0xcd], [0xce, 0xfa, 0xed, 0xff]] {
        let mut bytes = first.to_vec();
        bytes.resize(64, 0);
        assert_eq!(
            decode_mach(&bytes, None),
            Err(DecodeError::UnrecognizedMagic(u32::from_be_bytes(first)))
        );
    }
}

#[test]
fn magic_number_of_a_fat_wrapper_is_refused() {
    let mut bytes = vec![0xca, 0xfe, 0xba, 0xbe];
    bytes.resize(64, 0);
    assert_eq!(decode_mach(&bytes, None), Err(DecodeError::UnrecognizedMagic(0xcafebabe)));
    bytes[..4].copy_from_slice(&[0xbe, 0xba, 0xfe, 0xca]);
    assert_eq!(decode_mach(&bytes, None), Err(DecodeError::UnrecognizedMagic(0xbebafeca)));
}

#[test]
fn truncated_header() {
    let bytes = sample_64_bytes();
    for len in 0..4usize {
        assert_eq!(
            decode_mach(&bytes[..len], None),
            Err(DecodeError::TruncatedInput(4, len as u64))
        );
    }
    for len in 4..32usize {
        assert_eq!(
            decode_mach(&bytes[..len], None),
            Err(DecodeError::TruncatedInput(32, len as u64))
        );
    }
    let narrow = sample_32_bytes();
    for len in 4..28usize {
        assert_eq!(
            decode_mach(&narrow[..len], None),
            Err(DecodeError::TruncatedInput(28, len as u64))
        );
    }
    assert_eq!(decode_mach_at(&bytes, 70, None), Err(DecodeError::TruncatedInput(4, 2)));
    assert_eq!(decode_mach_at(&bytes, 73, None), Err(DecodeError::TruncatedInput(4, 0)));
}

#[test]
fn truncated_command() {
    let bytes = sample_64_bytes();
    assert_eq!(decode_mach(&bytes[..60], None), Err(DecodeError::TruncatedInput(8, 4)));
    assert_eq!(decode_mach(&bytes[..71], None), Err(DecodeError::TruncatedInput(16, 15)));
    assert_eq!(decode_mach(&bytes[..40], None), Err(DecodeError::TruncatedInput(24, 8)));
}

#[test]
fn more_commands_declared_than_the_total_size_holds() {
    let mut bytes = sample_64_bytes();
    bytes[16] = 3;
    assert_eq!(decode_mach(&bytes, None), Err(DecodeError::CommandCountMismatch(3, 40, 40)));
    // the declared size ends within the prefix of the second command
    bytes = sample_64_bytes();
    bytes[20] = 28;
    assert_eq!(decode_mach(&bytes, None), Err(DecodeError::CommandCountMismatch(2, 24, 28)));
}

#[test]
fn command_that_ends_behind_the_total_size() {
    let mut bytes = sample_64_bytes();
    bytes[20] = 39;
    assert_eq!(decode_mach(&bytes, None), Err(DecodeError::CommandCountMismatch(2, 40, 39)));
    bytes[16] = 1;
    bytes[20] = 23;
    assert_eq!(decode_mach(&bytes, None), Err(DecodeError::CommandCountMismatch(1, 24, 23)));
}

#[test]
fn commands_that_end_before_the_total_size() {
    let mut bytes = sample_64_bytes();
    bytes[20] = 48;
    bytes.extend_from_slice(&[0; 8]);
    assert_eq!(decode_mach(&bytes, None), Err(DecodeError::CommandCountMismatch(2, 40, 48)));
    bytes[16] = 0;
    assert_eq!(decode_mach(&bytes, None), Err(DecodeError::CommandCountMismatch(0, 0, 48)));
}

#[test]
fn invalid_command_inside_a_header() {
    let mut bytes = sample_64_bytes();
    bytes[36] = 25;
    assert_eq!(decode_mach(&bytes, None), Err(DecodeError::InvalidCommandSize(0x1b, 25)));
}

#[test]
fn header_with_the_magic_number_of_a_fat_wrapper_is_not_written() {
    let mut header = sample_64();
    header.magic = MagicKind::FatBigEndian;
    assert_eq!(encode_mach(&header), Err(EncodeError::UnrecognizedMagic(0xcafebabe)));
    header.magic = MagicKind::FatLittleEndian;
    assert_eq!(encode_mach(&header), Err(EncodeError::UnrecognizedMagic(0xbebafeca)));
    header.magic = MagicKind::Unrecognized(0x1234);
    assert_eq!(encode_mach(&header), Err(EncodeError::UnrecognizedMagic(0x1234)));
}

#[test]
fn first_command_that_cannot_be_written_decides() {
    let mut header = sample_64();
    header.commands.push(LoadCommand::RunPathSearchPath(PathCommand {
        cmd_size: 13,
        str_offset: 12,
        path: String::from("ab"),
    }));
    header.commands.push(LoadCommand::LoadDynamicLinker(PathCommand {
        cmd_size: 11,
        str_offset: 12,
        path: String::new(),
    }));
    assert_eq!(encode_mach(&header), Err(EncodeError::NameTooLong(NameField::Path, 1)));
    header.commands.remove(2);
    assert_eq!(encode_mach(&header), Err(EncodeError::InvalidCommandSize(0xe, 11)));
}

#[test]
fn computed_attributes_of_a_header() {
    let mut header = sample_64();
    assert_eq!(header.command_count(), 2);
    assert_eq!(header.commands_total_size(), Ok(40));
    header.commands.push(LoadCommand::Unknown(0x99, vec![1, 2, 3, 4, 5]));
    assert_eq!(header.command_count(), 3);
    assert_eq!(header.commands_total_size(), Ok(53));
    header.commands.push(LoadCommand::LoadDynamicLinker(PathCommand {
        cmd_size: 12,
        str_offset: 12,
        path: String::from("x"),
    }));
    assert_eq!(header.command_count(), 4);
    assert_eq!(header.commands_total_size(), Err(EncodeError::NameTooLong(NameField::Path, 0)));
    let empty = MachHeader { commands: vec![], ..sample_32() };
    assert_eq!(empty.command_count(), 0);
    assert_eq!(empty.commands_total_size(), Ok(0));
}

#[test]
fn byte_order_of_each_magic_number() {
    assert_eq!(MagicKind::FatBigEndian.byte_order(), ByteOrder::Big);
    assert_eq!(MagicKind::FatLittleEndian.byte_order(), ByteOrder::Little);
    assert_eq!(MagicKind::Mach32BigEndian.byte_order(), ByteOrder::Big);
    assert_eq!(MagicKind::Mach32LittleEndian.byte_order(), ByteOrder::Little);
    assert_eq!(MagicKind::Mach64BigEndian.byte_order(), ByteOrder::Big);
    assert_eq!(MagicKind::Mach64LittleEndian.byte_order(), ByteOrder::Little);
    assert_eq!(MagicKind::Unrecognized(9).byte_order(), ByteOrder::Big);
}

#[test]
fn copy_of_a_header_is_equal_to_it() {
    let header = sample_64();
    let copy = header.clone();
    assert_eq!(copy, header);
    assert_eq!(encode_mach(&copy), encode_mach(&header));
    match (&copy.commands[0], &header.commands[0]) {
        (LoadCommand::Uuid(a), LoadCommand::Uuid(b)) => {
            assert_eq!(a.as_bytes(), &RAW_ID);
            assert_eq!(a, b);
        },
        _ => panic!("the first command is the identifier"),
    }
}
