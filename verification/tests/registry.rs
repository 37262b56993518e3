use macho_codec::{
    peek_magic, ByteOrder, Container, CpuSubtype, CpuType, DecodeError, FileType, Layout,
    MagicKind, Width,
};

fn layout(container: Container, width: Width, order: ByteOrder) -> Option<Layout> {
    Some(Layout { container, width, order })
}

#[test]
fn magic_fat_big_endian() {
    let kind = MagicKind::from_code(0xcafebabe);
    assert_eq!(kind, MagicKind::FatBigEndian);
    assert_eq!(kind.layout(), layout(Container::Fat, Width::Bits32, ByteOrder::Big));
    assert_eq!(kind.code(), 0xcafebabe);
}

#[test]
fn magic_fat_little_endian() {
    let kind = MagicKind::from_code(0xbebafeca);
    assert_eq!(kind, MagicKind::FatLittleEndian);
    assert_eq!(kind.layout(), layout(Container::Fat, Width::Bits32, ByteOrder::Little));
    assert_eq!(kind.code(), 0xbebafeca);
}

#[test]
fn magic_mach32_big_endian() {
    let kind = MagicKind::from_code(0xfeedface);
    assert_eq!(kind, MagicKind::Mach32BigEndian);
    assert_eq!(kind.layout(), layout(Container::Thin, Width::Bits32, ByteOrder::Big));
    assert_eq!(kind.code(), 0xfeedface);
}

#[test]
fn magic_mach32_little_endian() {
    let kind = MagicKind::from_code(0xcefaedfe);
    assert_eq!(kind, MagicKind::Mach32LittleEndian);
    assert_eq!(kind.layout(), layout(Container::Thin, Width::Bits32, ByteOrder::Little));
    assert_eq!(kind.code(), 0xcefaedfe);
}

#[test]
fn magic_mach64_big_endian() {
    let kind = MagicKind::from_code(0xfeedfacf);
    assert_eq!(kind, MagicKind::Mach64BigEndian);
    assert_eq!(kind.layout(), layout(Container::Thin, Width::Bits64, ByteOrder::Big));
    assert_eq!(kind.code(), 0xfeedfacf);
}

#[test]
fn magic_mach64_little_endian() {
    let kind = MagicKind::from_code(0xcffaedfe);
    assert_eq!(kind, MagicKind::Mach64LittleEndian);
    assert_eq!(kind.layout(), layout(Container::Thin, Width::Bits64, ByteOrder::Little));
    assert_eq!(kind.code(), 0xcffaedfe);
}

#[test]
fn magic_other_values_are_unrecognized() {
    for code in [0u32, 1, 0xcafebabf, 0xfeedfad0, 0xffff_ffff, 0xfacefeed] {
        let kind = MagicKind::from_code(code);
        assert_eq!(kind, MagicKind::Unrecognized(code));
        assert_eq!(kind.layout(), None);
        assert_eq!(kind.code(), code);
    }
}

#[test]
fn cpu_type_table() {
    assert_eq!(CpuType::from_code(7), CpuType::X86);
    assert_eq!(CpuType::from_code(16777223), CpuType::X86_64);
    assert_eq!(CpuType::from_code(12), CpuType::Arm);
    assert_eq!(CpuType::from_code(16777228), CpuType::Arm64);
    assert_eq!(CpuType::from_code(33554444), CpuType::Arm64_32);
    assert_eq!(CpuType::X86.code(), 7);
    assert_eq!(CpuType::X86_64.code(), 0x0100_0007);
    assert_eq!(CpuType::Arm.code(), 12);
    assert_eq!(CpuType::Arm64.code(), 0x0100_000c);
    assert_eq!(CpuType::Arm64_32.code(), 0x0200_000c);
}

#[test]
fn cpu_type_unknown_keeps_the_raw_code() {
    assert_eq!(CpuType::from_code(18), CpuType::Unknown(18));
    assert_eq!(CpuType::Unknown(18).code(), 18);
    assert_eq!(CpuType::from_code(0xffff_ffff), CpuType::Unknown(-1));
    assert_eq!(CpuType::Unknown(-1).code(), 0xffff_ffff);
    assert_eq!(CpuType::from_code(0x8000_0000), CpuType::Unknown(i32::MIN));
    assert_eq!(CpuType::Unknown(i32::MIN).code(), 0x8000_0000);
    assert_eq!(CpuType::from_code(0x7fff_ffff), CpuType::Unknown(i32::MAX));
    assert_eq!(CpuType::Unknown(i32::MAX).code(), 0x7fff_ffff);
}

#[test]
fn cpu_subtype_table() {
    let table = [
        (6u32, CpuSubtype::ArmV6),
        (9, CpuSubtype::ArmV7),
        (11, CpuSubtype::ArmV7S),
        (12, CpuSubtype::ArmV7K),
        (13, CpuSubtype::ArmV8),
        (0, CpuSubtype::Arm64All),
        (1, CpuSubtype::Arm64V8),
        (2, CpuSubtype::Arm64E),
        (3, CpuSubtype::Unknown(3)),
        (0x8000_0002, CpuSubtype::Unknown(0x8000_0002)),
    ];
    for (code, subtype) in table {
        assert_eq!(CpuSubtype::from_code(code), subtype);
        assert_eq!(subtype.code(), code);
    }
}

#[test]
fn file_type_table() {
    let table = [
        (1u32, FileType::MachObject),
        (2, FileType::MachExecute),
        (3, FileType::MachFVMLib),
        (4, FileType::MachCore),
        (5, FileType::MachPreload),
        (6, FileType::MachDyLib),
        (7, FileType::MachDyLinker),
        (8, FileType::MachBundle),
        (9, FileType::MachDyLibStub),
        (10, FileType::MachDsym),
        (11, FileType::MachKextBundle),
        (0, FileType::Unknown(0)),
        (12, FileType::Unknown(12)),
    ];
    for (code, file_type) in table {
        assert_eq!(FileType::from_code(code), file_type);
        assert_eq!(file_type.code(), code);
    }
}

#[test]
fn peek_resolves_the_six_magic_numbers() {
    let table = [
        ([0xcau8, 0xfe, 0xba, 0xbe], MagicKind::FatBigEndian),
        ([0xbe, 0xba, 0xfe, 0xca], MagicKind::FatLittleEndian),
        ([0xfe, 0xed, 0xfa, 0xce], MagicKind::Mach32BigEndian),
        ([0xce, 0xfa, 0xed, 0xfe], MagicKind::Mach32LittleEndian),
        ([0xfe, 0xed, 0xfa, 0xcf], MagicKind::Mach64BigEndian),
        ([0xcf, 0xfa, 0xed, 0xfe], MagicKind::Mach64LittleEndian),
    ];
    for (first, kind) in table {
        assert_eq!(peek_magic(&first, 0), Ok(kind));
        let mut buffer = vec![0u8; 3];
        buffer.extend_from_slice(&first);
        buffer.push(0);
        assert_eq!(peek_magic(&buffer, 3), Ok(kind));
    }
}

#[test]
fn peek_refuses_every_other_value() {
    assert_eq!(peek_magic(&[0, 0, 0, 0], 0), Err(DecodeError::UnrecognizedMagic(0)));
    assert_eq!(
        peek_magic(&[0x7f, b'E', b'L', b'F'], 0),
        Err(DecodeError::UnrecognizedMagic(0x7f45_4c46))
    );
    assert_eq!(
        peek_magic(&[0xce, 0xfa, 0xed, 0xfe], 1),
        Err(DecodeError::TruncatedInput(4, 3))
    );
    assert_eq!(peek_magic(&[], 0), Err(DecodeError::TruncatedInput(4, 0)));
    assert_eq!(peek_magic(&[1, 2, 3], 7), Err(DecodeError::TruncatedInput(4, 0)));
}
