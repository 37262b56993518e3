use macho_codec::{
    decode_command, encode_command, BuildToolVersion, BuildVersion, ByteOrder, DecodeError,
    DyldInfo, DylibCommand, DynamicSymbolTable, EncodeError, EncryptionInfo, EncryptionInfo64,
    EntryPoint, FileRange, LoadCommand, MinimumOsVersion, NameField, PathCommand, Section,
    Segment, SymbolTable,
};

fn cmd_word(v: u32, order: ByteOrder) -> [u8; 4] {
    match order {
        ByteOrder::Big => v.to_be_bytes(),
        ByteOrder::Little => v.to_le_bytes(),
    }
}

fn cmd_long(v: u64, order: ByteOrder) -> [u8; 8] {
    match order {
        ByteOrder::Big => v.to_be_bytes(),
        ByteOrder::Little => v.to_le_bytes(),
    }
}

fn cmd_words(ws: &[u32], order: ByteOrder) -> Vec<u8> {
    let mut out = Vec::new();
    for w in ws {
        out.extend_from_slice(&cmd_word(*w, order));
    }
    out
}

fn cmd_padded(text: &str, width: usize) -> Vec<u8> {
    let mut out = text.as_bytes().to_vec();
    assert!(out.len() <= width);
    out.resize(width, 0);
    out
}

fn round_trip(cmd: &LoadCommand, bytes: &[u8], order: ByteOrder) {
    assert_eq!(encode_command(cmd, order).unwrap(), bytes.to_vec());
    let (decoded, next) = decode_command(bytes, 0, order).unwrap();
    assert_eq!(&decoded, cmd);
    assert_eq!(next, bytes.len());
    // the same command behind a prefix and in front of other bytes
    let mut buffer = vec![0xaau8; 5];
    buffer.extend_from_slice(bytes);
    buffer.extend_from_slice(&[0x55; 7]);
    let (decoded, next) = decode_command(&buffer, 5, order).unwrap();
    assert_eq!(&decoded, cmd);
    assert_eq!(next, 5 + bytes.len());
}

#[test]
fn symbol_table_little_endian() {
    let bytes = [
        0x02, 0, 0, 0, 0x18, 0, 0, 0, 0x00, 0x10, 0, 0, 0x05, 0, 0, 0, 0x50, 0x10, 0, 0, 0x40, 0,
        0, 0,
    ];
    let cmd = LoadCommand::SymbolTable(SymbolTable {
        symbol_table_offset: 0x1000,
        number_of_symbols: 5,
        string_table_offset: 0x1050,
        string_table_size: 0x40,
    });
    round_trip(&cmd, &bytes, ByteOrder::Little);
}

#[test]
fn symbol_table_big_endian() {
    let bytes = [
        0, 0, 0, 0x02, 0, 0, 0, 0x18, 0, 0, 0x10, 0x00, 0, 0, 0, 0x05, 0, 0, 0x10, 0x50, 0, 0, 0,
        0x40,
    ];
    let cmd = LoadCommand::SymbolTable(SymbolTable {
        symbol_table_offset: 0x1000,
        number_of_symbols: 5,
        string_table_offset: 0x1050,
        string_table_size: 0x40,
    });
    round_trip(&cmd, &bytes, ByteOrder::Big);
}

#[test]
fn file_range_commands() {
    let range = FileRange { file_offset: 0x0102_0304, file_size: 0x0a0b_0c0d };
    for order in [ByteOrder::Big, ByteOrder::Little] {
        let table = [
            (0x26u32, LoadCommand::FunctionStarts(range)),
            (0x29, LoadCommand::DataInCode(range)),
            (0x1d, LoadCommand::CodeSignature(range)),
        ];
        for (tag, cmd) in table {
            let bytes = cmd_words(&[tag, 16, 0x0102_0304, 0x0a0b_0c0d], order);
            assert_eq!(cmd.tag(), tag);
            round_trip(&cmd, &bytes, order);
        }
    }
}

#[test]
fn encryption_info_32() {
    let cmd = LoadCommand::EncryptionInfo(EncryptionInfo {
        file_offset: 0x4000,
        file_size: 0x8000,
        crypt_id: 1,
    });
    assert_eq!(cmd.tag(), 0x21);
    for order in [ByteOrder::Big, ByteOrder::Little] {
        let bytes = cmd_words(&[0x21, 20, 0x4000, 0x8000, 1], order);
        assert_eq!(bytes.len(), 20);
        round_trip(&cmd, &bytes, order);
    }
    let little = [
        0x21, 0, 0, 0, 0x14, 0, 0, 0, 0x00, 0x40, 0, 0, 0x00, 0x80, 0, 0, 0x01, 0, 0, 0,
    ];
    round_trip(&cmd, &little, ByteOrder::Little);
    // the size of the command is that of its three fields, no other
    let short = cmd_words(&[0x21, 16, 0x4000, 0x8000, 1], ByteOrder::Little);
    assert_eq!(
        decode_command(&short, 0, ByteOrder::Little),
        Err(DecodeError::InvalidCommandSize(0x21, 16))
    );
    let long = cmd_words(&[0x21, 24, 0x4000, 0x8000, 1, 0], ByteOrder::Little);
    assert_eq!(
        decode_command(&long, 0, ByteOrder::Little),
        Err(DecodeError::InvalidCommandSize(0x21, 24))
    );
}

#[test]
fn encryption_info_64() {
    let cmd = LoadCommand::EncryptionInfo64(EncryptionInfo64 {
        file_offset: 0x4000,
        file_size: 0x8000,
        crypt_id: 1,
        padding: 0,
    });
    for order in [ByteOrder::Big, ByteOrder::Little] {
        let bytes = cmd_words(&[0x2c, 24, 0x4000, 0x8000, 1, 0], order);
        round_trip(&cmd, &bytes, order);
    }
}

#[test]
fn dyld_info_only() {
    let cmd = LoadCommand::DyldInfoOnly(DyldInfo {
        rebase_info_offset: 1,
        rebase_info_size: 2,
        bind_info_offset: 3,
        bind_info_size: 4,
        weak_binding_info_offset: 5,
        weak_binding_info_size: 6,
        lazy_binding_info_offset: 7,
        lazy_binding_info_size: 8,
        export_info_offset: 9,
        export_info_size: 10,
    });
    for order in [ByteOrder::Big, ByteOrder::Little] {
        let bytes = cmd_words(&[0x8000_0022, 48, 1, 2, 3, 4, 5, 6, 7, 8, 9, 10], order);
        round_trip(&cmd, &bytes, order);
    }
}

#[test]
fn minimum_os_version() {
    let cmd = LoadCommand::MinimumOSVersion(MinimumOsVersion {
        version: 0x000c_0000,
        reserved: 0x000d_0200,
    });
    for order in [ByteOrder::Big, ByteOrder::Little] {
        let bytes = cmd_words(&[0x25, 16, 0x000c_0000, 0x000d_0200], order);
        round_trip(&cmd, &bytes, order);
    }
}

#[test]
fn dynamic_symbol_table() {
    let cmd = LoadCommand::DynamicSymbolTable(DynamicSymbolTable {
        loc_symbol_index: 1,
        loc_symbol_number: 2,
        defined_ext_symbol_index: 3,
        defined_ext_symbol_number: 4,
        undef_ext_symbol_index: 5,
        undef_ext_symbol_number: 6,
        toc_offset: 7,
        toc_entries: 8,
        module_table_offset: 9,
        module_table_entries: 10,
        ext_ref_table_offset: 11,
        ext_ref_table_entries: 12,
        ind_sym_table_offset: 13,
        ind_sym_table_entries: 14,
        ext_reloc_table_offset: 15,
        ext_reloc_table_entries: 16,
        loc_reloc_table_offset: 17,
        loc_reloc_table_entries: 18,
    });
    for order in [ByteOrder::Big, ByteOrder::Little] {
        let bytes = cmd_words(
            &[0xb, 80, 1, 2, 3, 4, 5, 6, 7, 8, 9, 10, 11, 12, 13, 14, 15, 16, 17, 18],
            order,
        );
        assert_eq!(bytes.len(), 80);
        round_trip(&cmd, &bytes, order);
    }
}

#[test]
fn source_version() {
    let cmd = LoadCommand::SourceVersion(0x0102_0304_0506_0708);
    let little = [0x2a, 0, 0, 0, 0x10, 0, 0, 0, 8, 7, 6, 5, 4, 3, 2, 1];
    round_trip(&cmd, &little, ByteOrder::Little);
    let big = [0, 0, 0, 0x2a, 0, 0, 0, 0x10, 1, 2, 3, 4, 5, 6, 7, 8];
    round_trip(&cmd, &big, ByteOrder::Big);
}

#[test]
fn main_entry_point() {
    let cmd = LoadCommand::MainEntryPoint(EntryPoint {
        entry_offset: 0x1_0000_3f50,
        stacks_size: 0xffff_ffff_ffff_ffff,
    });
    for order in [ByteOrder::Big, ByteOrder::Little] {
        let mut bytes = cmd_words(&[0x8000_0028, 24], order);
        bytes.extend_from_slice(&cmd_long(0x1_0000_3f50, order));
        bytes.extend_from_slice(&cmd_long(u64::MAX, order));
        round_trip(&cmd, &bytes, order);
    }
}

#[test]
fn uuid_keeps_its_bytes_in_order() {
    let raw = [
        0xa1, 0xa2, 0xa3, 0xa4, 0xb1, 0xb2, 0xc1, 0xc2, 0xd1, 0xd2, 0xd3, 0xd4, 0xd5, 0xd6, 0xd7,
        0xd8,
    ];
    let id = uuid::Uuid::from_bytes(raw);
    assert_eq!(id.hyphenated().to_string(), "a1a2a3a4-b1b2-c1c2-d1d2-d3d4d5d6d7d8");
    for order in [ByteOrder::Big, ByteOrder::Little] {
        let mut bytes = cmd_words(&[0x1b, 24], order);
        bytes.extend_from_slice(&raw);
        let (decoded, next) = decode_command(&bytes, 0, order).unwrap();
        assert_eq!(next, 24);
        match &decoded {
            LoadCommand::Uuid(found) => {
                assert_eq!(found.as_bytes(), &raw);
                assert_eq!(*found, id);
            },
            other => panic!("not an identifier: {:?}", other),
        }
        round_trip(&LoadCommand::Uuid(id), &bytes, order);
    }
}

#[test]
fn run_path_with_padding() {
    let text = "@loader_path/../lib";
    assert_eq!(text.len(), 19);
    let cmd = LoadCommand::RunPathSearchPath(PathCommand {
        cmd_size: 32,
        str_offset: 12,
        path: String::from(text),
    });
    for order in [ByteOrder::Big, ByteOrder::Little] {
        let mut bytes = cmd_words(&[0x8000_001c, 32, 12], order);
        bytes.extend_from_slice(&cmd_padded(text, 20));
        assert_eq!(bytes.len(), 32);
        round_trip(&cmd, &bytes, order);
    }
}

#[test]
fn dynamic_linker_path_without_terminator() {
    let text = "/usr/lib/dyld";
    let cmd = LoadCommand::LoadDynamicLinker(PathCommand {
        cmd_size: 25,
        str_offset: 12,
        path: String::from(text),
    });
    let mut bytes = cmd_words(&[0xe, 25, 12], ByteOrder::Little);
    bytes.extend_from_slice(text.as_bytes());
    assert_eq!(bytes.len(), 25);
    round_trip(&cmd, &bytes, ByteOrder::Little);
}

#[test]
fn path_behind_a_gap() {
    // the path starts four bytes behind the fixed fields; the gap is skipped
    let mut bytes = cmd_words(&[0x8000_001c, 24, 16], ByteOrder::Little);
    bytes.extend_from_slice(&[0xee, 0xee, 0xee, 0xee]);
    bytes.extend_from_slice(b"/opt\0\0\0\0");
    let (decoded, next) = decode_command(&bytes, 0, ByteOrder::Little).unwrap();
    assert_eq!(next, 24);
    let cmd = LoadCommand::RunPathSearchPath(PathCommand {
        cmd_size: 24,
        str_offset: 16,
        path: String::from("/opt"),
    });
    assert_eq!(decoded, cmd);
    // the gap is written as NUL bytes
    let mut expected = cmd_words(&[0x8000_001c, 24, 16], ByteOrder::Little);
    expected.extend_from_slice(&[0, 0, 0, 0]);
    expected.extend_from_slice(b"/opt\0\0\0\0");
    assert_eq!(encode_command(&cmd, ByteOrder::Little).unwrap(), expected);
    let (again, _) = decode_command(&expected, 0, ByteOrder::Little).unwrap();
    assert_eq!(again, cmd);
}

#[test]
fn dylib_commands() {
    let text = "/usr/lib/libSystem.B.dylib";
    assert_eq!(text.len(), 26);
    let body = DylibCommand {
        cmd_size: 56,
        str_offset: 24,
        time_stamp: 2,
        current_version: 0x0501_0000,
        compatibility_version: 0x0001_0000,
        name: String::from(text),
    };
    for order in [ByteOrder::Big, ByteOrder::Little] {
        for (tag, cmd) in [
            (0xcu32, LoadCommand::LoadDylib(body.clone())),
            (0xd, LoadCommand::IdentifyDylib(body.clone())),
        ] {
            let mut bytes = cmd_words(&[tag, 56, 24, 2, 0x0501_0000, 0x0001_0000], order);
            bytes.extend_from_slice(&cmd_padded(text, 32));
            assert_eq!(bytes.len(), 56);
            round_trip(&cmd, &bytes, order);
        }
    }
}

#[test]
fn build_version_with_tools() {
    let cmd = LoadCommand::BuildToolVersions(BuildVersion {
        platform: 2,
        minimum_os_version: 0x000e_0000,
        bundle_sdk_version: 0x0010_0400,
        build_tool_versions: vec![
            BuildToolVersion { tool: 3, version: 0x0259_0100 },
            BuildToolVersion { tool: 1, version: 0x0384_0000 },
        ],
    });
    for order in [ByteOrder::Big, ByteOrder::Little] {
        let bytes = cmd_words(
            &[0x32, 40, 2, 0x000e_0000, 0x0010_0400, 2, 3, 0x0259_0100, 1, 0x0384_0000],
            order,
        );
        round_trip(&cmd, &bytes, order);
    }
}

#[test]
fn build_version_without_tools() {
    let cmd = LoadCommand::BuildToolVersions(BuildVersion {
        platform: 1,
        minimum_os_version: 2,
        bundle_sdk_version: 3,
        build_tool_versions: vec![],
    });
    let bytes = cmd_words(&[0x32, 24, 1, 2, 3, 0], ByteOrder::Little);
    round_trip(&cmd, &bytes, ByteOrder::Little);
}

fn text_section_64() -> Section<u64> {
    Section {
        section_name: String::from("__text"),
        segment_name: String::from("__TEXT"),
        addr: 0x1_0000_4000,
        size: 0x1234,
        offset: 0x4000,
        align: 2,
        rel_offset: 0,
        nreloc: 0,
        flags: 0x8000_0400,
        reserved1: 0,
        reserved2: 0,
        reserved3: Some(0),
    }
}

fn text_section_64_bytes(order: ByteOrder) -> Vec<u8> {
    let mut bytes = cmd_padded("__text", 16);
    bytes.extend_from_slice(&cmd_padded("__TEXT", 16));
    bytes.extend_from_slice(&cmd_long(0x1_0000_4000, order));
    bytes.extend_from_slice(&cmd_long(0x1234, order));
    bytes.extend_from_slice(&cmd_words(&[0x4000, 2, 0, 0, 0x8000_0400, 0, 0, 0], order));
    assert_eq!(bytes.len(), 80);
    bytes
}

#[test]
fn segment_64_with_one_section() {
    let cmd = LoadCommand::Segment64(Segment {
        segment_name: String::from("__TEXT"),
        vm_addr: 0x1_0000_0000,
        vm_size: 0x8000,
        file_offset: 0,
        file_size: 0x8000,
        max_prot: 5,
        init_prot: 5,
        flags: 0,
        sections: vec![text_section_64()],
    });
    for order in [ByteOrder::Big, ByteOrder::Little] {
        let mut bytes = cmd_words(&[0x19, 152], order);
        bytes.extend_from_slice(&cmd_padded("__TEXT", 16));
        bytes.extend_from_slice(&cmd_long(0x1_0000_0000, order));
        bytes.extend_from_slice(&cmd_long(0x8000, order));
        bytes.extend_from_slice(&cmd_long(0, order));
        bytes.extend_from_slice(&cmd_long(0x8000, order));
        bytes.extend_from_slice(&cmd_words(&[5, 5, 1, 0], order));
        bytes.extend_from_slice(&text_section_64_bytes(order));
        assert_eq!(bytes.len(), 152);
        round_trip(&cmd, &bytes, order);
    }
}

#[test]
fn segment_32_with_two_sections_and_negative_protection() {
    let first = Section {
        section_name: String::from("0123456789abcdef"),
        segment_name: String::from("__DATA"),
        addr: 0x4000u32,
        size: 0x10,
        offset: 0x100,
        align: 3,
        rel_offset: 0x200,
        nreloc: 4,
        flags: 1,
        reserved1: 5,
        reserved2: 6,
        reserved3: None,
    };
    let second = Section {
        section_name: String::new(),
        segment_name: String::from("fedcba9876543210"),
        addr: 0xffff_ffffu32,
        size: 0,
        offset: 0,
        align: 0,
        rel_offset: 0,
        nreloc: 0,
        flags: 0,
        reserved1: 0,
        reserved2: 0,
        reserved3: None,
    };
    let cmd = LoadCommand::Segment32(Segment {
        segment_name: String::from("__DATA"),
        vm_addr: 0x4000u32,
        vm_size: 0x1000,
        file_offset: 0x100,
        file_size: 0x900,
        max_prot: -1,
        init_prot: i32::MIN,
        flags: 4,
        sections: vec![first, second],
    });
    for order in [ByteOrder::Big, ByteOrder::Little] {
        let mut bytes = cmd_words(&[0x1, 56 + 2 * 68], order);
        bytes.extend_from_slice(&cmd_padded("__DATA", 16));
        bytes.extend_from_slice(&cmd_words(
            &[0x4000, 0x1000, 0x100, 0x900, 0xffff_ffff, 0x8000_0000, 2, 4],
            order,
        ));
        bytes.extend_from_slice(b"0123456789abcdef");
        bytes.extend_from_slice(&cmd_padded("__DATA", 16));
        bytes.extend_from_slice(&cmd_words(&[0x4000, 0x10, 0x100, 3, 0x200, 4, 1, 5, 6], order));
        bytes.extend_from_slice(&[0; 16]);
        bytes.extend_from_slice(b"fedcba9876543210");
        bytes.extend_from_slice(&cmd_words(&[0xffff_ffff, 0, 0, 0, 0, 0, 0, 0, 0], order));
        assert_eq!(bytes.len(), 192);
        round_trip(&cmd, &bytes, order);
    }
}

#[test]
fn section_count_follows_the_list() {
    let mut segment = Segment {
        segment_name: String::from("__TEXT"),
        vm_addr: 0u64,
        vm_size: 0,
        file_offset: 0,
        file_size: 0,
        max_prot: 7,
        init_prot: 3,
        flags: 0,
        sections: vec![],
    };
    let empty = encode_command(&LoadCommand::Segment64(segment.clone()), ByteOrder::Little);
    let empty = empty.unwrap();
    assert_eq!(empty.len(), 72);
    assert_eq!(&empty[4..8], &72u32.to_le_bytes());
    assert_eq!(&empty[64..68], &0u32.to_le_bytes());
    segment.sections.push(text_section_64());
    segment.sections.push(text_section_64());
    segment.sections.push(text_section_64());
    let full = encode_command(&LoadCommand::Segment64(segment.clone()), ByteOrder::Little);
    let full = full.unwrap();
    assert_eq!(full.len(), 72 + 3 * 80);
    assert_eq!(&full[4..8], &312u32.to_le_bytes());
    assert_eq!(&full[64..68], &3u32.to_le_bytes());
    let (decoded, next) = decode_command(&full, 0, ByteOrder::Little).unwrap();
    assert_eq!(next, 312);
    assert_eq!(decoded, LoadCommand::Segment64(segment));
}

#[test]
fn wide_section_without_reserved_word_is_written_with_zero() {
    let mut section = text_section_64();
    section.reserved3 = None;
    let segment = Segment {
        segment_name: String::from("__TEXT"),
        vm_addr: 0u64,
        vm_size: 0,
        file_offset: 0,
        file_size: 0,
        max_prot: 0,
        init_prot: 0,
        flags: 0,
        sections: vec![section],
    };
    let bytes = encode_command(&LoadCommand::Segment64(segment), ByteOrder::Big).unwrap();
    assert_eq!(bytes.len(), 152);
    assert_eq!(&bytes[72..], &text_section_64_bytes(ByteOrder::Big)[..]);
}

#[test]
fn unknown_tag_passes_through() {
    let payload: Vec<u8> = vec![0, 1, 2, 0xff, 0, 0x80, 7, 0, 0, 9, 10];
    for order in [ByteOrder::Big, ByteOrder::Little] {
        for tag in [0x1234_5678u32, 0, 0x8000_0001, 0x33, 0xffff_ffff] {
            let mut bytes = cmd_words(&[tag, 19], order);
            bytes.extend_from_slice(&payload);
            let cmd = LoadCommand::Unknown(tag, payload.clone());
            assert_eq!(cmd.tag(), tag);
            round_trip(&cmd, &bytes, order);
        }
    }
}

#[test]
fn unknown_tag_with_empty_payload() {
    let bytes = cmd_words(&[0x99, 8], ByteOrder::Big);
    round_trip(&LoadCommand::Unknown(0x99, vec![]), &bytes, ByteOrder::Big);
}

#[test]
fn truncated_prefix() {
    for len in 0..8usize {
        let bytes = vec![0u8; len];
        assert_eq!(
            decode_command(&bytes, 0, ByteOrder::Little),
            Err(DecodeError::TruncatedInput(8, len as u64))
        );
    }
    let bytes = vec![0u8; 20];
    assert_eq!(
        decode_command(&bytes, 13, ByteOrder::Little),
        Err(DecodeError::TruncatedInput(8, 7))
    );
    assert_eq!(
        decode_command(&bytes, 20, ByteOrder::Little),
        Err(DecodeError::TruncatedInput(8, 0))
    );
    assert_eq!(
        decode_command(&bytes, 21, ByteOrder::Little),
        Err(DecodeError::TruncatedInput(8, 0))
    );
    assert_eq!(
        decode_command(&bytes, usize::MAX, ByteOrder::Little),
        Err(DecodeError::TruncatedInput(8, 0))
    );
}

#[test]
fn size_smaller_than_the_fixed_fields() {
    let table = [
        (0x1u32, 55u32),
        (0x19, 71),
        (0x2, 23),
        (0xb, 79),
        (0xc, 23),
        (0xd, 8),
        (0xe, 11),
        (0x1b, 16),
        (0x8000_001c, 11),
        (0x1d, 15),
        (0x21, 19),
        (0x8000_0022, 47),
        (0x25, 12),
        (0x26, 15),
        (0x8000_0028, 23),
        (0x29, 15),
        (0x2a, 15),
        (0x2c, 23),
        (0x32, 23),
        (0x77, 7),
        (0x77, 0),
    ];
    for (tag, size) in table {
        let mut bytes = cmd_words(&[tag, size], ByteOrder::Little);
        bytes.resize(200, 0);
        assert_eq!(
            decode_command(&bytes, 0, ByteOrder::Little),
            Err(DecodeError::InvalidCommandSize(tag, size))
        );
    }
}

#[test]
fn size_beyond_the_buffer() {
    let mut bytes = cmd_words(&[0x2, 24, 1, 2, 3], ByteOrder::Little);
    assert_eq!(
        decode_command(&bytes, 0, ByteOrder::Little),
        Err(DecodeError::TruncatedInput(24, 20))
    );
    bytes.extend_from_slice(&[0; 4]);
    assert!(decode_command(&bytes, 0, ByteOrder::Little).is_ok());
    let unknown = cmd_words(&[0x77, 0xffff_ffff], ByteOrder::Big);
    assert_eq!(
        decode_command(&unknown, 0, ByteOrder::Big),
        Err(DecodeError::TruncatedInput(0xffff_ffff, 8))
    );
}

#[test]
fn size_that_contradicts_the_layout() {
    // a symbol table that claims four bytes more than its fields
    let mut bytes = cmd_words(&[0x2, 28, 1, 2, 3, 4, 0], ByteOrder::Little);
    assert_eq!(
        decode_command(&bytes, 0, ByteOrder::Little),
        Err(DecodeError::InvalidCommandSize(0x2, 28))
    );
    // a segment whose size leaves no room for the section that it counts
    bytes = cmd_words(&[0x19, 72], ByteOrder::Little);
    bytes.extend_from_slice(&[0; 56]);
    bytes.extend_from_slice(&cmd_words(&[1, 0], ByteOrder::Little));
    assert_eq!(bytes.len(), 72);
    assert_eq!(
        decode_command(&bytes, 0, ByteOrder::Little),
        Err(DecodeError::InvalidCommandSize(0x19, 72))
    );
    // a build version that counts a tool which its size does not hold
    bytes = cmd_words(&[0x32, 24, 1, 2, 3, 1], ByteOrder::Big);
    assert_eq!(
        decode_command(&bytes, 0, ByteOrder::Big),
        Err(DecodeError::InvalidCommandSize(0x32, 24))
    );
    // a path that starts within the fixed fields, and one behind the command
    bytes = cmd_words(&[0x8000_001c, 16, 8, 0], ByteOrder::Big);
    assert_eq!(
        decode_command(&bytes, 0, ByteOrder::Big),
        Err(DecodeError::InvalidCommandSize(0x8000_001c, 16))
    );
    bytes = cmd_words(&[0xe, 16, 17, 0], ByteOrder::Big);
    assert_eq!(
        decode_command(&bytes, 0, ByteOrder::Big),
        Err(DecodeError::InvalidCommandSize(0xe, 16))
    );
    bytes = cmd_words(&[0xc, 24, 20, 0, 0, 0], ByteOrder::Big);
    assert_eq!(
        decode_command(&bytes, 0, ByteOrder::Big),
        Err(DecodeError::InvalidCommandSize(0xc, 24))
    );
}

#[test]
fn path_with_no_room_is_the_empty_text() {
    let bytes = cmd_words(&[0x8000_001c, 12, 12], ByteOrder::Little);
    let cmd = LoadCommand::RunPathSearchPath(PathCommand {
        cmd_size: 12,
        str_offset: 12,
        path: String::new(),
    });
    round_trip(&cmd, &bytes, ByteOrder::Little);
}

#[test]
fn segment_name_too_long() {
    let segment = Segment {
        segment_name: String::from("0123456789abcdefg"),
        vm_addr: 0u32,
        vm_size: 0,
        file_offset: 0,
        file_size: 0,
        max_prot: 0,
        init_prot: 0,
        flags: 0,
        sections: vec![],
    };
    assert_eq!(
        encode_command(&LoadCommand::Segment32(segment), ByteOrder::Little),
        Err(EncodeError::NameTooLong(NameField::SegmentName, 16))
    );
}

#[test]
fn section_names_too_long() {
    let mut good = text_section_64();
    good.section_name = String::from("0123456789abcdef");
    let mut bad_section = text_section_64();
    bad_section.section_name = String::from("0123456789abcdef0");
    bad_section.segment_name = String::from("0123456789abcdef0");
    let mut bad_segment = text_section_64();
    bad_segment.segment_name = String::from("\u{e9}123456789abcdef");
    let mut segment = Segment {
        segment_name: String::from("__TEXT"),
        vm_addr: 0u64,
        vm_size: 0,
        file_offset: 0,
        file_size: 0,
        max_prot: 0,
        init_prot: 0,
        flags: 0,
        sections: vec![good.clone(), bad_segment, bad_section.clone()],
    };
    assert_eq!(
        encode_command(&LoadCommand::Segment64(segment.clone()), ByteOrder::Little),
        Err(EncodeError::NameTooLong(NameField::SegmentName, 16))
    );
    segment.sections = vec![good.clone(), bad_section, good.clone()];
    assert_eq!(
        encode_command(&LoadCommand::Segment64(segment.clone()), ByteOrder::Little),
        Err(EncodeError::NameTooLong(NameField::SectionName, 16))
    );
    segment.sections = vec![good.clone(), good];
    assert!(encode_command(&LoadCommand::Segment64(segment), ByteOrder::Little).is_ok());
}

#[test]
fn path_too_long() {
    let cmd = LoadCommand::RunPathSearchPath(PathCommand {
        cmd_size: 16,
        str_offset: 12,
        path: String::from("/opt/"),
    });
    assert_eq!(
        encode_command(&cmd, ByteOrder::Big),
        Err(EncodeError::NameTooLong(NameField::Path, 4))
    );
    let cmd = LoadCommand::LoadDylib(DylibCommand {
        cmd_size: 24,
        str_offset: 24,
        time_stamp: 0,
        current_version: 0,
        compatibility_version: 0,
        name: String::from("a"),
    });
    assert_eq!(
        encode_command(&cmd, ByteOrder::Big),
        Err(EncodeError::NameTooLong(NameField::Path, 0))
    );
}

#[test]
fn path_outside_its_command() {
    let cmd = LoadCommand::LoadDynamicLinker(PathCommand {
        cmd_size: 32,
        str_offset: 11,
        path: String::from("/usr/lib/dyld"),
    });
    assert_eq!(
        encode_command(&cmd, ByteOrder::Little),
        Err(EncodeError::InvalidCommandSize(0xe, 32))
    );
    let cmd = LoadCommand::RunPathSearchPath(PathCommand {
        cmd_size: 32,
        str_offset: 33,
        path: String::new(),
    });
    assert_eq!(
        encode_command(&cmd, ByteOrder::Little),
        Err(EncodeError::InvalidCommandSize(0x8000_001c, 32))
    );
    let cmd = LoadCommand::IdentifyDylib(DylibCommand {
        cmd_size: 40,
        str_offset: 23,
        time_stamp: 0,
        current_version: 0,
        compatibility_version: 0,
        name: String::new(),
    });
    assert_eq!(
        encode_command(&cmd, ByteOrder::Little),
        Err(EncodeError::InvalidCommandSize(0xd, 40))
    );
}

#[test]
fn invalid_utf8_in_a_name_is_replaced() {
    let mut bytes = cmd_words(&[0x8000_001c, 16, 12], ByteOrder::Little);
    bytes.extend_from_slice(&[b'a', 0xff, 0, 0]);
    let (decoded, _) = decode_command(&bytes, 0, ByteOrder::Little).unwrap();
    assert_eq!(
        decoded,
        LoadCommand::RunPathSearchPath(PathCommand {
            cmd_size: 16,
            str_offset: 12,
            path: String::from("a\u{fffd}"),
        })
    );
}

#[test]
fn junk_behind_the_first_nul_is_written_back_as_nul() {
    let mut bytes = cmd_words(&[0x8000_001c, 24, 12], ByteOrder::Little);
    bytes.extend_from_slice(b"/opt\0junk\0\0\0");
    let (decoded, next) = decode_command(&bytes, 0, ByteOrder::Little).unwrap();
    assert_eq!(next, 24);
    let written = encode_command(&decoded, ByteOrder::Little).unwrap();
    let mut expected = cmd_words(&[0x8000_001c, 24, 12], ByteOrder::Little);
    expected.extend_from_slice(b"/opt\0\0\0\0\0\0\0\0");
    assert_eq!(written, expected);
    assert_eq!(decode_command(&written, 0, ByteOrder::Little).unwrap().0, decoded);
}

#[test]
fn name_that_grows_when_it_is_replaced_cannot_be_written_back() {
    let mut bytes = cmd_words(&[0x1, 56], ByteOrder::Big);
    bytes.extend_from_slice(&[0xff; 16]);
    bytes.extend_from_slice(&cmd_words(&[0, 0, 0, 0, 0, 0, 0, 0], ByteOrder::Big));
    let (decoded, _) = decode_command(&bytes, 0, ByteOrder::Big).unwrap();
    match &decoded {
        LoadCommand::Segment32(segment) => {
            assert_eq!(segment.segment_name.chars().count(), 16);
            assert_eq!(segment.segment_name.len(), 48);
        },
        other => panic!("not a segment: {:?}", other),
    }
    assert_eq!(
        encode_command(&decoded, ByteOrder::Big),
        Err(EncodeError::NameTooLong(NameField::SegmentName, 16))
    );
}

#[test]
fn text_with_a_nul_is_cut_when_it_is_read_back() {
    let cmd = LoadCommand::RunPathSearchPath(PathCommand {
        cmd_size: 20,
        str_offset: 12,
        path: String::from("ab\0cd"),
    });
    let bytes = encode_command(&cmd, ByteOrder::Little).unwrap();
    assert_eq!(&bytes[12..], b"ab\0cd\0\0\0");
    let (decoded, _) = decode_command(&bytes, 0, ByteOrder::Little).unwrap();
    assert_eq!(
        decoded,
        LoadCommand::RunPathSearchPath(PathCommand {
            cmd_size: 20,
            str_offset: 12,
            path: String::from("ab"),
        })
    );
}

#[test]
fn unknown_code_that_the_table_knows_is_read_back_as_the_known_command() {
    let cmd = LoadCommand::Unknown(0x1d, vec![1, 0, 0, 0, 2, 0, 0, 0]);
    let bytes = encode_command(&cmd, ByteOrder::Little).unwrap();
    let (decoded, _) = decode_command(&bytes, 0, ByteOrder::Little).unwrap();
    assert_eq!(
        decoded,
        LoadCommand::CodeSignature(FileRange { file_offset: 1, file_size: 2 })
    );
}

#[test]
fn narrow_section_with_a_reserved_word_is_written_without_it() {
    let section = Section {
        section_name: String::from("__const"),
        segment_name: String::from("__DATA"),
        addr: 1u32,
        size: 2,
        offset: 3,
        align: 4,
        rel_offset: 5,
        nreloc: 6,
        flags: 7,
        reserved1: 8,
        reserved2: 9,
        reserved3: Some(10),
    };
    let segment = Segment {
        segment_name: String::from("__DATA"),
        vm_addr: 0u32,
        vm_size: 0,
        file_offset: 0,
        file_size: 0,
        max_prot: 3,
        init_prot: 3,
        flags: 0,
        sections: vec![section.clone()],
    };
    let bytes = encode_command(&LoadCommand::Segment32(segment), ByteOrder::Little).unwrap();
    assert_eq!(bytes.len(), 56 + 68);
    assert_eq!(&bytes[56 + 32..], &cmd_words(&[1, 2, 3, 4, 5, 6, 7, 8, 9], ByteOrder::Little)[..]);
    let (decoded, _) = decode_command(&bytes, 0, ByteOrder::Little).unwrap();
    match decoded {
        LoadCommand::Segment32(found) => {
            assert_eq!(found.sections.len(), 1);
            assert_eq!(found.sections[0], Section { reserved3: None, ..section });
        },
        other => panic!("not a segment: {:?}", other),
    }
}
