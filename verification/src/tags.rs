//! The registries of four-byte codes: magic numbers, processor types and
//! subtypes, and file types.  A code outside a registry is kept as it was
//! read, so that writing it back loses nothing.

use vstd::prelude::*;
use crate::errors::DecodeError;
use crate::wire::{left, pattern_of, read_u32, signed_of, to_pattern, to_signed, u32_at, ByteOrder};

verus! {

/// Whether a header wraps several architectures or describes one image.
#[derive(Clone, Copy, Debug, PartialEq, Eq, Structural)]
pub enum Container {
    /// A table of architecture slots.
    Fat,
    /// The header of a single image.
    Thin,
}

/// The width of the addresses in an image.
#[derive(Clone, Copy, Debug, PartialEq, Eq, Structural)]
pub enum Width {
    /// Addresses of 32 bits.
    Bits32,
    /// Addresses of 64 bits.
    Bits64,
}

/// What a magic number fixes for everything in the scope of its header.
#[derive(Clone, Copy, Debug, PartialEq, Eq, Structural)]
pub struct Layout {
    /// The kind of header.
    pub container: Container,
    /// The width of addresses; the slot table of a fat header has 32-bit
    /// fields.
    pub width: Width,
    /// The byte order of every multi-byte field.
    pub order: ByteOrder,
}

/// The first four bytes of a header, read most significant byte first.
#[derive(Clone, Copy, Debug, PartialEq, Eq, Structural)]
pub enum MagicKind {
    /// `0xcafebabe`: a fat header in big-endian order.
    FatBigEndian,
    /// `0xbebafeca`: a fat header in little-endian order.
    FatLittleEndian,
    /// `0xfeedface`: a 32-bit image in big-endian order.
    Mach32BigEndian,
    /// `0xcefaedfe`: a 32-bit image in little-endian order.
    Mach32LittleEndian,
    /// `0xfeedfacf`: a 64-bit image in big-endian order.
    Mach64BigEndian,
    /// `0xcffaedfe`: a 64-bit image in little-endian order.
    Mach64LittleEndian,
    /// Any other value.
    Unrecognized(u32),
}

impl MagicKind {
    /// The kind that a code stands for.
    pub open spec fn of_code(code: u32) -> MagicKind {
        if code == 0xcafebabe {
            MagicKind::FatBigEndian
        } else if code == 0xbebafeca {
            MagicKind::FatLittleEndian
        } else if code == 0xfeedface {
            MagicKind::Mach32BigEndian
        } else if code == 0xcefaedfe {
            MagicKind::Mach32LittleEndian
        } else if code == 0xfeedfacf {
            MagicKind::Mach64BigEndian
        } else if code == 0xcffaedfe {
            MagicKind::Mach64LittleEndian
        } else {
            MagicKind::Unrecognized(code)
        }
    }

    /// The code of a kind.
    pub open spec fn spec_code(self) -> u32 {
        match self {
            MagicKind::FatBigEndian => 0xcafebabe,
            MagicKind::FatLittleEndian => 0xbebafeca,
            MagicKind::Mach32BigEndian => 0xfeedface,
            MagicKind::Mach32LittleEndian => 0xcefaedfe,
            MagicKind::Mach64BigEndian => 0xfeedfacf,
            MagicKind::Mach64LittleEndian => 0xcffaedfe,
            MagicKind::Unrecognized(code) => code,
        }
    }

    /// What the kind fixes; nothing for an unrecognized value.
    pub open spec fn spec_layout(self) -> Option<Layout> {
        match self {
            MagicKind::FatBigEndian => Some(
                Layout { container: Container::Fat, width: Width::Bits32, order: ByteOrder::Big },
            ),
            MagicKind::FatLittleEndian => Some(
                Layout {
                    container: Container::Fat,
                    width: Width::Bits32,
                    order: ByteOrder::Little,
                },
            ),
            MagicKind::Mach32BigEndian => Some(
                Layout { container: Container::Thin, width: Width::Bits32, order: ByteOrder::Big },
            ),
            MagicKind::Mach32LittleEndian => Some(
                Layout {
                    container: Container::Thin,
                    width: Width::Bits32,
                    order: ByteOrder::Little,
                },
            ),
            MagicKind::Mach64BigEndian => Some(
                Layout { container: Container::Thin, width: Width::Bits64, order: ByteOrder::Big },
            ),
            MagicKind::Mach64LittleEndian => Some(
                Layout {
                    container: Container::Thin,
                    width: Width::Bits64,
                    order: ByteOrder::Little,
                },
            ),
            MagicKind::Unrecognized(_) => None,
        }
    }

    /// The kind is the only one with its code: an unrecognized value is
    /// none of the six magic numbers.
    pub open spec fn canonical(self) -> bool {
        MagicKind::of_code(self.spec_code()) == self
    }

    /// The header of a single image.
    pub open spec fn is_thin(self) -> bool {
        self.spec_layout() matches Some(l) && l.container == Container::Thin
    }

    /// The header of a fat wrapper.
    pub open spec fn is_fat(self) -> bool {
        self.spec_layout() matches Some(l) && l.container == Container::Fat
    }

    /// The header of an image with 64-bit addresses.
    pub open spec fn is_wide(self) -> bool {
        self.spec_layout() matches Some(l) && l.width == Width::Bits64
    }

    /// The byte order in the scope of the header; big-endian stands in for
    /// an unrecognized value, which fixes none.
    pub open spec fn order(self) -> ByteOrder {
        match self.spec_layout() {
            Some(l) => l.order,
            None => ByteOrder::Big,
        }
    }

    /// The byte order in the scope of the header; big-endian for an
    /// unrecognized value.
    pub fn byte_order(&self) -> (order: ByteOrder)
        ensures
            order == self.order(),
    {
        match self {
            MagicKind::FatLittleEndian => ByteOrder::Little,
            MagicKind::Mach32LittleEndian => ByteOrder::Little,
            MagicKind::Mach64LittleEndian => ByteOrder::Little,
            _ => ByteOrder::Big,
        }
    }

    /// Resolves a code.
    pub fn from_code(code: u32) -> (kind: MagicKind)
        ensures
            kind == MagicKind::of_code(code),
            kind.spec_code() == code,
            kind.canonical(),
    {
        if code == 0xcafebabe {
            MagicKind::FatBigEndian
        } else if code == 0xbebafeca {
            MagicKind::FatLittleEndian
        } else if code == 0xfeedface {
            MagicKind::Mach32BigEndian
        } else if code == 0xcefaedfe {
            MagicKind::Mach32LittleEndian
        } else if code == 0xfeedfacf {
            MagicKind::Mach64BigEndian
        } else if code == 0xcffaedfe {
            MagicKind::Mach64LittleEndian
        } else {
            MagicKind::Unrecognized(code)
        }
    }

    /// The code of the kind.
    pub fn code(&self) -> (code: u32)
        ensures
            code == self.spec_code(),
    {
        match self {
            MagicKind::FatBigEndian => 0xcafebabe,
            MagicKind::FatLittleEndian => 0xbebafeca,
            MagicKind::Mach32BigEndian => 0xfeedface,
            MagicKind::Mach32LittleEndian => 0xcefaedfe,
            MagicKind::Mach64BigEndian => 0xfeedfacf,
            MagicKind::Mach64LittleEndian => 0xcffaedfe,
            MagicKind::Unrecognized(code) => *code,
        }
    }

    /// The container kind, address width and byte order that the kind
    /// fixes; `None` for an unrecognized value.
    pub fn layout(&self) -> (layout: Option<Layout>)
        ensures
            layout == self.spec_layout(),
    {
        match self {
            MagicKind::FatBigEndian => Some(
                Layout { container: Container::Fat, width: Width::Bits32, order: ByteOrder::Big },
            ),
            MagicKind::FatLittleEndian => Some(
                Layout {
                    container: Container::Fat,
                    width: Width::Bits32,
                    order: ByteOrder::Little,
                },
            ),
            MagicKind::Mach32BigEndian => Some(
                Layout { container: Container::Thin, width: Width::Bits32, order: ByteOrder::Big },
            ),
            MagicKind::Mach32LittleEndian => Some(
                Layout {
                    container: Container::Thin,
                    width: Width::Bits32,
                    order: ByteOrder::Little,
                },
            ),
            MagicKind::Mach64BigEndian => Some(
                Layout { container: Container::Thin, width: Width::Bits64, order: ByteOrder::Big },
            ),
            MagicKind::Mach64LittleEndian => Some(
                Layout {
                    container: Container::Thin,
                    width: Width::Bits64,
                    order: ByteOrder::Little,
                },
            ),
            MagicKind::Unrecognized(_) => None,
        }
    }
}

/// Each of the six magic numbers fixes its own container kind, address
/// width and byte order, and every other value fixes none: it is kept as
/// an unrecognized value with its code.
pub proof fn law_magic_layout(code: u32)
    ensures
        code == 0xcafebabe ==> MagicKind::of_code(code).spec_layout() == Some(
            Layout { container: Container::Fat, width: Width::Bits32, order: ByteOrder::Big },
        ),
        code == 0xbebafeca ==> MagicKind::of_code(code).spec_layout() == Some(
            Layout { container: Container::Fat, width: Width::Bits32, order: ByteOrder::Little },
        ),
        code == 0xfeedface ==> MagicKind::of_code(code).spec_layout() == Some(
            Layout { container: Container::Thin, width: Width::Bits32, order: ByteOrder::Big },
        ),
        code == 0xcefaedfe ==> MagicKind::of_code(code).spec_layout() == Some(
            Layout { container: Container::Thin, width: Width::Bits32, order: ByteOrder::Little },
        ),
        code == 0xfeedfacf ==> MagicKind::of_code(code).spec_layout() == Some(
            Layout { container: Container::Thin, width: Width::Bits64, order: ByteOrder::Big },
        ),
        code == 0xcffaedfe ==> MagicKind::of_code(code).spec_layout() == Some(
            Layout { container: Container::Thin, width: Width::Bits64, order: ByteOrder::Little },
        ),
        code != 0xcafebabe && code != 0xbebafeca && code != 0xfeedface && code != 0xcefaedfe
            && code != 0xfeedfacf && code != 0xcffaedfe ==> MagicKind::of_code(code)
            == MagicKind::Unrecognized(code) && MagicKind::of_code(code).spec_layout() is None,
{
}

/// What looking at the magic number at position `p` of `s` gives: the kind
/// of header that starts there, or the reason why none does.
pub open spec fn magic_peeked(s: Seq<u8>, p: int) -> Result<MagicKind, DecodeError> {
    let code = u32_at(s, p, ByteOrder::Big);
    if left(s.len(), p) < 4 {
        Err(DecodeError::TruncatedInput(4, left(s.len(), p) as u64))
    } else if MagicKind::of_code(code).spec_layout() is None {
        Err(DecodeError::UnrecognizedMagic(code))
    } else {
        Ok(MagicKind::of_code(code))
    }
}

/// Looks at the four bytes at `pos` without consuming them, and resolves
/// them as a magic number: read most significant byte first, they must be
/// one of the six magic numbers, which fixes the kind of header, the
/// address width and the byte order.
pub fn peek_magic(bytes: &[u8], pos: usize) -> (r: Result<MagicKind, DecodeError>)
    ensures
        r == magic_peeked(bytes@, pos as int),
        r matches Ok(kind) ==> kind.spec_layout() is Some,
{
    let len: usize = bytes.len();
    let avail: usize = if pos <= len {
        len - pos
    } else {
        0
    };
    if avail < 4 {
        return Err(DecodeError::TruncatedInput(4, avail as u64));
    }
    let code: u32 = read_u32(bytes, pos, ByteOrder::Big);
    let kind = MagicKind::from_code(code);
    match kind {
        MagicKind::Unrecognized(_) => Err(DecodeError::UnrecognizedMagic(code)),
        _ => Ok(kind),
    }
}

/// What a code is resolved to is the only value with that code, in each
/// of the registries.
pub proof fn lemma_resolved_canonical(code: u32)
    ensures
        MagicKind::of_code(code).canonical(),
        MagicKind::of_code(code).spec_code() == code,
        CpuType::of_code(code).canonical(),
        CpuType::of_code(code).spec_code() == code,
        CpuSubtype::of_code(code).canonical(),
        CpuSubtype::of_code(code).spec_code() == code,
        FileType::of_code(code).canonical(),
        FileType::of_code(code).spec_code() == code,
{
}

/// The type of processor that an image is built for.
#[allow(non_camel_case_types)]
#[derive(Clone, Copy, Debug, PartialEq, Eq, Structural)]
pub enum CpuType {
    /// Code 7.
    X86,
    /// Code `0x0100_0007`.
    X86_64,
    /// Code 12.
    Arm,
    /// Code `0x0100_000c`.
    Arm64,
    /// Code `0x0200_000c`.
    Arm64_32,
    /// Any other code, as a signed value.
    Unknown(i32),
}

impl CpuType {
    /// The type that a code stands for.
    pub open spec fn of_code(code: u32) -> CpuType {
        if code == 7 {
            CpuType::X86
        } else if code == 0x0100_0007 {
            CpuType::X86_64
        } else if code == 12 {
            CpuType::Arm
        } else if code == 0x0100_000c {
            CpuType::Arm64
        } else if code == 0x0200_000c {
            CpuType::Arm64_32
        } else {
            CpuType::Unknown(signed_of(code))
        }
    }

    /// The code of a type.
    pub open spec fn spec_code(self) -> u32 {
        match self {
            CpuType::X86 => 7,
            CpuType::X86_64 => 0x0100_0007,
            CpuType::Arm => 12,
            CpuType::Arm64 => 0x0100_000c,
            CpuType::Arm64_32 => 0x0200_000c,
            CpuType::Unknown(raw) => pattern_of(raw),
        }
    }

    /// The type is the only one with its code.
    pub open spec fn canonical(self) -> bool {
        CpuType::of_code(self.spec_code()) == self
    }

    /// Resolves a code.
    pub fn from_code(code: u32) -> (t: CpuType)
        ensures
            t == CpuType::of_code(code),
            t.spec_code() == code,
            t.canonical(),
    {
        if code == 7 {
            CpuType::X86
        } else if code == 0x0100_0007 {
            CpuType::X86_64
        } else if code == 12 {
            CpuType::Arm
        } else if code == 0x0100_000c {
            CpuType::Arm64
        } else if code == 0x0200_000c {
            CpuType::Arm64_32
        } else {
            CpuType::Unknown(to_signed(code))
        }
    }

    /// The code of the type.
    pub fn code(&self) -> (code: u32)
        ensures
            code == self.spec_code(),
    {
        match self {
            CpuType::X86 => 7,
            CpuType::X86_64 => 0x0100_0007,
            CpuType::Arm => 12,
            CpuType::Arm64 => 0x0100_000c,
            CpuType::Arm64_32 => 0x0200_000c,
            CpuType::Unknown(raw) => to_pattern(*raw),
        }
    }
}

/// The variant of a processor type.
#[derive(Clone, Copy, Debug, PartialEq, Eq, Structural)]
pub enum CpuSubtype {
    /// Code 6.
    ArmV6,
    /// Code 9.
    ArmV7,
    /// Code 11.
    ArmV7S,
    /// Code 12.
    ArmV7K,
    /// Code 13.
    ArmV8,
    /// Code 0.
    Arm64All,
    /// Code 1.
    Arm64V8,
    /// Code 2.
    Arm64E,
    /// Any other code.
    Unknown(u32),
}

impl CpuSubtype {
    /// The subtype that a code stands for.
    pub open spec fn of_code(code: u32) -> CpuSubtype {
        if code == 6 {
            CpuSubtype::ArmV6
        } else if code == 9 {
            CpuSubtype::ArmV7
        } else if code == 11 {
            CpuSubtype::ArmV7S
        } else if code == 12 {
            CpuSubtype::ArmV7K
        } else if code == 13 {
            CpuSubtype::ArmV8
        } else if code == 0 {
            CpuSubtype::Arm64All
        } else if code == 1 {
            CpuSubtype::Arm64V8
        } else if code == 2 {
            CpuSubtype::Arm64E
        } else {
            CpuSubtype::Unknown(code)
        }
    }

    /// The code of a subtype.
    pub open spec fn spec_code(self) -> u32 {
        match self {
            CpuSubtype::ArmV6 => 6,
            CpuSubtype::ArmV7 => 9,
            CpuSubtype::ArmV7S => 11,
            CpuSubtype::ArmV7K => 12,
            CpuSubtype::ArmV8 => 13,
            CpuSubtype::Arm64All => 0,
            CpuSubtype::Arm64V8 => 1,
            CpuSubtype::Arm64E => 2,
            CpuSubtype::Unknown(code) => code,
        }
    }

    /// The subtype is the only one with its code.
    pub open spec fn canonical(self) -> bool {
        CpuSubtype::of_code(self.spec_code()) == self
    }

    /// Resolves a code.
    pub fn from_code(code: u32) -> (t: CpuSubtype)
        ensures
            t == CpuSubtype::of_code(code),
            t.spec_code() == code,
            t.canonical(),
    {
        if code == 6 {
            CpuSubtype::ArmV6
        } else if code == 9 {
            CpuSubtype::ArmV7
        } else if code == 11 {
            CpuSubtype::ArmV7S
        } else if code == 12 {
            CpuSubtype::ArmV7K
        } else if code == 13 {
            CpuSubtype::ArmV8
        } else if code == 0 {
            CpuSubtype::Arm64All
        } else if code == 1 {
            CpuSubtype::Arm64V8
        } else if code == 2 {
            CpuSubtype::Arm64E
        } else {
            CpuSubtype::Unknown(code)
        }
    }

    /// The code of the subtype.
    pub fn code(&self) -> (code: u32)
        ensures
            code == self.spec_code(),
    {
        match self {
            CpuSubtype::ArmV6 => 6,
            CpuSubtype::ArmV7 => 9,
            CpuSubtype::ArmV7S => 11,
            CpuSubtype::ArmV7K => 12,
            CpuSubtype::ArmV8 => 13,
            CpuSubtype::Arm64All => 0,
            CpuSubtype::Arm64V8 => 1,
            CpuSubtype::Arm64E => 2,
            CpuSubtype::Unknown(code) => *code,
        }
    }
}

/// What a file is: an object, an executable, a library and so on.
#[derive(Clone, Copy, Debug, PartialEq, Eq, Structural)]
pub enum FileType {
    /// Code 1: a relocatable object.
    MachObject,
    /// Code 2: an executable.
    MachExecute,
    /// Code 3: a library at a fixed virtual address.
    MachFVMLib,
    /// Code 4: a core dump.
    MachCore,
    /// Code 5: a preloaded executable.
    MachPreload,
    /// Code 6: a dynamic library.
    MachDyLib,
    /// Code 7: a dynamic linker.
    MachDyLinker,
    /// Code 8: a bundle.
    MachBundle,
    /// Code 9: the stub of a dynamic library.
    MachDyLibStub,
    /// Code 10: debug symbols.
    MachDsym,
    /// Code 11: a bundle of kernel extensions.
    MachKextBundle,
    /// Any other code.
    Unknown(u32),
}

impl FileType {
    /// The file type that a code stands for.
    pub open spec fn of_code(code: u32) -> FileType {
        if code == 1 {
            FileType::MachObject
        } else if code == 2 {
            FileType::MachExecute
        } else if code == 3 {
            FileType::MachFVMLib
        } else if code == 4 {
            FileType::MachCore
        } else if code == 5 {
            FileType::MachPreload
        } else if code == 6 {
            FileType::MachDyLib
        } else if code == 7 {
            FileType::MachDyLinker
        } else if code == 8 {
            FileType::MachBundle
        } else if code == 9 {
            FileType::MachDyLibStub
        } else if code == 10 {
            FileType::MachDsym
        } else if code == 11 {
            FileType::MachKextBundle
        } else {
            FileType::Unknown(code)
        }
    }

    /// The code of a file type.
    pub open spec fn spec_code(self) -> u32 {
        match self {
            FileType::MachObject => 1,
            FileType::MachExecute => 2,
            FileType::MachFVMLib => 3,
            FileType::MachCore => 4,
            FileType::MachPreload => 5,
            FileType::MachDyLib => 6,
            FileType::MachDyLinker => 7,
            FileType::MachBundle => 8,
            FileType::MachDyLibStub => 9,
            FileType::MachDsym => 10,
            FileType::MachKextBundle => 11,
            FileType::Unknown(code) => code,
        }
    }

    /// The file type is the only one with its code.
    pub open spec fn canonical(self) -> bool {
        FileType::of_code(self.spec_code()) == self
    }

    /// Resolves a code.
    pub fn from_code(code: u32) -> (t: FileType)
        ensures
            t == FileType::of_code(code),
            t.spec_code() == code,
            t.canonical(),
    {
        if code == 1 {
            FileType::MachObject
        } else if code == 2 {
            FileType::MachExecute
        } else if code == 3 {
            FileType::MachFVMLib
        } else if code == 4 {
            FileType::MachCore
        } else if code == 5 {
            FileType::MachPreload
        } else if code == 6 {
            FileType::MachDyLib
        } else if code == 7 {
            FileType::MachDyLinker
        } else if code == 8 {
            FileType::MachBundle
        } else if code == 9 {
            FileType::MachDyLibStub
        } else if code == 10 {
            FileType::MachDsym
        } else if code == 11 {
            FileType::MachKextBundle
        } else {
            FileType::Unknown(code)
        }
    }

    /// The code of the file type.
    pub fn code(&self) -> (code: u32)
        ensures
            code == self.spec_code(),
    {
        match self {
            FileType::MachObject => 1,
            FileType::MachExecute => 2,
            FileType::MachFVMLib => 3,
            FileType::MachCore => 4,
            FileType::MachPreload => 5,
            FileType::MachDyLib => 6,
            FileType::MachDyLinker => 7,
            FileType::MachBundle => 8,
            FileType::MachDyLibStub => 9,
            FileType::MachDsym => 10,
            FileType::MachKextBundle => 11,
            FileType::Unknown(code) => *code,
        }
    }
}

} // verus!
