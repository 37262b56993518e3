//! Reading load commands.

use vstd::prelude::*;
use vstd::slice::{slice_subrange, slice_to_vec};
use crate::command::{
    build_at, command_at, command_decoded, dylib_at, is_known_tag, min_len, path_at, section_pos,
    section_views, sections_at, segment_at, segment_len, BuildVersion, DylibCommand,
    LC_BUILD_VERSION, LC_CODE_SIGNATURE, LC_DATA_IN_CODE, LC_DYLD_INFO_ONLY, LC_DYSYMTAB,
    LC_ENCRYPTION_INFO, LC_ENCRYPTION_INFO_64, LC_FUNCTION_STARTS, LC_ID_DYLIB, LC_LOAD_DYLIB,
    LC_LOAD_DYLINKER, LC_MAIN, LC_RPATH, LC_SEGMENT, LC_SEGMENT_64, LC_SOURCE_VERSION, LC_SYMTAB,
    LC_UUID, LC_VERSION_MIN_IPHONEOS, LoadCommand, LoadCommandView, PathCommand, Segment,
};
use crate::errors::DecodeError;
use crate::ident::read_uuid;
use crate::names::map_cstring;
use crate::payload::{
    tools_at, BuildToolVersion, DyldInfo, DynamicSymbolTable, EncryptionInfo, EncryptionInfo64,
    EntryPoint, FileRange, MinimumOsVersion, SymbolTable,
};
use crate::section::{decode_section, section_at, Address, Section};
use crate::wire::{read_u32, read_u64, to_signed, ByteOrder};

verus! {

/// The mathematical value of what decoding a command gave.
pub open spec fn command_result_view(r: Result<(LoadCommand, usize), DecodeError>) -> Result<
    (LoadCommandView, int),
    DecodeError,
> {
    match r {
        Ok((c, next)) => Ok((c@, next as int)),
        Err(e) => Err(e),
    }
}

/// Whether the tag is one of the table.
pub fn known_tag(tag: u32) -> (known: bool)
    ensures
        known == is_known_tag(tag),
{
    tag == LC_SEGMENT || tag == LC_SYMTAB || tag == LC_DYSYMTAB || tag == LC_LOAD_DYLIB || tag
        == LC_ID_DYLIB || tag == LC_LOAD_DYLINKER || tag == LC_SEGMENT_64 || tag == LC_UUID || tag
        == LC_RPATH || tag == LC_CODE_SIGNATURE || tag == LC_ENCRYPTION_INFO || tag
        == LC_DYLD_INFO_ONLY || tag == LC_VERSION_MIN_IPHONEOS || tag == LC_FUNCTION_STARTS || tag
        == LC_MAIN || tag == LC_DATA_IN_CODE || tag == LC_SOURCE_VERSION || tag
        == LC_ENCRYPTION_INFO_64 || tag == LC_BUILD_VERSION
}

/// The number of bytes that a command with this tag takes at least.
pub fn min_size(tag: u32) -> (size: u32)
    ensures
        size == min_len(tag),
{
    if tag == LC_SEGMENT {
        56
    } else if tag == LC_SEGMENT_64 {
        72
    } else if tag == LC_DYSYMTAB {
        80
    } else if tag == LC_DYLD_INFO_ONLY {
        48
    } else if tag == LC_SYMTAB || tag == LC_LOAD_DYLIB || tag == LC_ID_DYLIB || tag == LC_UUID
        || tag == LC_MAIN || tag == LC_ENCRYPTION_INFO_64 || tag == LC_BUILD_VERSION {
        24
    } else if tag == LC_ENCRYPTION_INFO {
        20
    } else if tag == LC_CODE_SIGNATURE || tag == LC_VERSION_MIN_IPHONEOS || tag
        == LC_FUNCTION_STARTS || tag == LC_DATA_IN_CODE || tag == LC_SOURCE_VERSION {
        16
    } else if tag == LC_RPATH || tag == LC_LOAD_DYLINKER {
        12
    } else {
        8
    }
}

/// Reads the `n` sections of the table at `pos`.
fn decode_sections<A: Address>(bytes: &[u8], pos: usize, n: u32, order: ByteOrder) -> (sections:
    Vec<Section<A>>)
    requires
        section_pos::<A>(pos as int, n as int) <= bytes.len(),
    ensures
        section_views(sections@) == sections_at::<A>(bytes@, pos as int, n as nat, order),
{
    let step: usize = if A::wide() {
        80
    } else {
        68
    };
    let mut sections: Vec<Section<A>> = Vec::new();
    let mut i: u32 = 0;
    let mut cur: usize = pos;
    while i < n
        invariant
            i <= n,
            cur == section_pos::<A>(pos as int, i as int),
            section_pos::<A>(pos as int, n as int) <= bytes.len(),
            step == if A::is_wide() {
                80int
            } else {
                68int
            },
            sections@.len() == i,
            forall|j: int|
                0 <= j < i ==> (#[trigger] sections@[j])@ == section_at::<A>(
                    bytes@,
                    section_pos::<A>(pos as int, j),
                    order,
                ),
        decreases n - i,
    {
        let sec = decode_section::<A>(bytes, cur, order);
        sections.push(sec);
        cur = cur + step;
        i = i + 1;
    }
    assert(section_views(sections@) =~= sections_at::<A>(bytes@, pos as int, n as nat, order));
    sections
}

/// Reads the segment in the command of `size` bytes at `pos`.
fn decode_segment<A: Address>(bytes: &[u8], pos: usize, size: u32, order: ByteOrder) -> (r: Option<
    Segment<A>,
>)
    requires
        pos + size <= bytes.len(),
        size >= segment_len::<A>(0),
    ensures
        match r {
            Some(g) => segment_at::<A>(bytes@, pos as int, size, order) == Some(g@),
            None => segment_at::<A>(bytes@, pos as int, size, order) is None,
        },
{
    let wide = A::wide();
    let w: usize = if wide {
        8
    } else {
        4
    };
    let t: usize = pos + 24 + 4 * w;
    let max_prot = to_signed(read_u32(bytes, t, order));
    let init_prot = to_signed(read_u32(bytes, t + 4, order));
    let n: u32 = read_u32(bytes, t + 8, order);
    let flags: u32 = read_u32(bytes, t + 12, order);
    let expected: u64 = if wide {
        72 + 80 * (n as u64)
    } else {
        56 + 68 * (n as u64)
    };
    if size as u64 != expected {
        return None;
    }
    let segment_name = map_cstring(slice_subrange(bytes, pos + 8, pos + 24));
    let vm_addr = A::read(bytes, pos + 24, order);
    let vm_size = A::read(bytes, pos + 24 + w, order);
    let file_offset = A::read(bytes, pos + 24 + 2 * w, order);
    let file_size = A::read(bytes, pos + 24 + 3 * w, order);
    let sections = decode_sections::<A>(bytes, t + 16, n, order);
    Some(
        Segment {
            segment_name,
            vm_addr,
            vm_size,
            file_offset,
            file_size,
            max_prot,
            init_prot,
            flags,
            sections,
        },
    )
}

/// Reads the path command in the command of `size` bytes at `pos`.
fn decode_path(bytes: &[u8], pos: usize, size: u32, order: ByteOrder) -> (r: Option<PathCommand>)
    requires
        pos + size <= bytes.len(),
        size >= 12,
    ensures
        match r {
            Some(c) => path_at(bytes@, pos as int, size, order) == Some(c@),
            None => path_at(bytes@, pos as int, size, order) is None,
        },
{
    let str_offset: u32 = read_u32(bytes, pos + 8, order);
    if str_offset < 12 || size < str_offset {
        return None;
    }
    let path = map_cstring(
        slice_subrange(bytes, pos + str_offset as usize, pos + size as usize),
    );
    Some(PathCommand { cmd_size: size, str_offset, path })
}

/// Reads the library command in the command of `size` bytes at `pos`.
fn decode_dylib(bytes: &[u8], pos: usize, size: u32, order: ByteOrder) -> (r: Option<DylibCommand>)
    requires
        pos + size <= bytes.len(),
        size >= 24,
    ensures
        match r {
            Some(c) => dylib_at(bytes@, pos as int, size, order) == Some(c@),
            None => dylib_at(bytes@, pos as int, size, order) is None,
        },
{
    let str_offset: u32 = read_u32(bytes, pos + 8, order);
    if str_offset < 24 || size < str_offset {
        return None;
    }
    let name = map_cstring(
        slice_subrange(bytes, pos + str_offset as usize, pos + size as usize),
    );
    Some(
        DylibCommand {
            cmd_size: size,
            str_offset,
            time_stamp: read_u32(bytes, pos + 12, order),
            current_version: read_u32(bytes, pos + 16, order),
            compatibility_version: read_u32(bytes, pos + 20, order),
            name,
        },
    )
}

/// Reads the build version in the command of `size` bytes at `pos`.
fn decode_build(bytes: &[u8], pos: usize, size: u32, order: ByteOrder) -> (r: Option<BuildVersion>)
    requires
        pos + size <= bytes.len(),
        size >= 24,
    ensures
        match r {
            Some(b) => build_at(bytes@, pos as int, size, order) == Some(b@),
            None => build_at(bytes@, pos as int, size, order) is None,
        },
{
    let n: u32 = read_u32(bytes, pos + 20, order);
    if size as u64 != 24 + 8 * (n as u64) {
        return None;
    }
    let mut tools: Vec<BuildToolVersion> = Vec::new();
    let mut i: u32 = 0;
    let mut cur: usize = pos + 24;
    while i < n
        invariant
            i <= n,
            cur == pos + 24 + 8 * i,
            pos + 24 + 8 * n <= bytes.len(),
            tools@.len() == i,
            forall|j: int|
                0 <= j < i ==> #[trigger] tools@[j] == tools_at(
                    bytes@,
                    pos + 24,
                    n as nat,
                    order,
                )[j],
        decreases n - i,
    {
        let tool = BuildToolVersion {
            tool: read_u32(bytes, cur, order),
            version: read_u32(bytes, cur + 4, order),
        };
        assert(tool == tools_at(bytes@, pos + 24, n as nat, order)[i as int]);
        tools.push(tool);
        cur = cur + 8;
        i = i + 1;
    }
    assert(tools@ =~= tools_at(bytes@, pos + 24, n as nat, order));
    Some(
        BuildVersion {
            platform: read_u32(bytes, pos + 8, order),
            minimum_os_version: read_u32(bytes, pos + 12, order),
            bundle_sdk_version: read_u32(bytes, pos + 16, order),
            build_tool_versions: tools,
        },
    )
}

/// Reads the command with this tag and this size at `pos`.
fn decode_body(bytes: &[u8], pos: usize, tag: u32, size: u32, order: ByteOrder) -> (r: Option<
    LoadCommand,
>)
    requires
        pos + size <= bytes.len(),
        size >= min_len(tag),
    ensures
        match r {
            Some(c) => command_at(bytes@, pos as int, tag, size, order) == Some(c@),
            None => command_at(bytes@, pos as int, tag, size, order) is None,
        },
{
    reveal(command_at);
    if tag == LC_SEGMENT {
        match decode_segment::<u32>(bytes, pos, size, order) {
            Some(g) => Some(LoadCommand::Segment32(g)),
            None => None,
        }
    } else if tag == LC_SEGMENT_64 {
        match decode_segment::<u64>(bytes, pos, size, order) {
            Some(g) => Some(LoadCommand::Segment64(g)),
            None => None,
        }
    } else if tag == LC_RPATH {
        match decode_path(bytes, pos, size, order) {
            Some(c) => Some(LoadCommand::RunPathSearchPath(c)),
            None => None,
        }
    } else if tag == LC_LOAD_DYLINKER {
        match decode_path(bytes, pos, size, order) {
            Some(c) => Some(LoadCommand::LoadDynamicLinker(c)),
            None => None,
        }
    } else if tag == LC_ID_DYLIB {
        match decode_dylib(bytes, pos, size, order) {
            Some(c) => Some(LoadCommand::IdentifyDylib(c)),
            None => None,
        }
    } else if tag == LC_LOAD_DYLIB {
        match decode_dylib(bytes, pos, size, order) {
            Some(c) => Some(LoadCommand::LoadDylib(c)),
            None => None,
        }
    } else if tag == LC_BUILD_VERSION {
        match decode_build(bytes, pos, size, order) {
            Some(b) => Some(LoadCommand::BuildToolVersions(b)),
            None => None,
        }
    } else if !known_tag(tag) {
        let data = slice_to_vec(slice_subrange(bytes, pos + 8, pos + size as usize));
        Some(LoadCommand::Unknown(tag, data))
    } else if size != min_size(tag) {
        None
    } else if tag == LC_ENCRYPTION_INFO {
        Some(LoadCommand::EncryptionInfo(EncryptionInfo::read(bytes, pos + 8, order)))
    } else if tag == LC_ENCRYPTION_INFO_64 {
        Some(LoadCommand::EncryptionInfo64(EncryptionInfo64::read(bytes, pos + 8, order)))
    } else if tag == LC_DYLD_INFO_ONLY {
        Some(LoadCommand::DyldInfoOnly(DyldInfo::read(bytes, pos + 8, order)))
    } else if tag == LC_FUNCTION_STARTS {
        Some(LoadCommand::FunctionStarts(FileRange::read(bytes, pos + 8, order)))
    } else if tag == LC_DATA_IN_CODE {
        Some(LoadCommand::DataInCode(FileRange::read(bytes, pos + 8, order)))
    } else if tag == LC_SYMTAB {
        Some(LoadCommand::SymbolTable(SymbolTable::read(bytes, pos + 8, order)))
    } else if tag == LC_VERSION_MIN_IPHONEOS {
        Some(LoadCommand::MinimumOSVersion(MinimumOsVersion::read(bytes, pos + 8, order)))
    } else if tag == LC_UUID {
        Some(LoadCommand::Uuid(read_uuid(bytes, pos + 8)))
    } else if tag == LC_SOURCE_VERSION {
        Some(LoadCommand::SourceVersion(read_u64(bytes, pos + 8, order)))
    } else if tag == LC_DYSYMTAB {
        Some(LoadCommand::DynamicSymbolTable(DynamicSymbolTable::read(bytes, pos + 8, order)))
    } else if tag == LC_MAIN {
        Some(LoadCommand::MainEntryPoint(EntryPoint::read(bytes, pos + 8, order)))
    } else {
        Some(LoadCommand::CodeSignature(FileRange::read(bytes, pos + 8, order)))
    }
}

/// Decodes the load command at `pos`, in the given byte order.
///
/// On success the result holds the command and the position after it.  A
/// tag outside the table is no error: the command is kept as its tag and
/// the bytes after its prefix.  It is an error where fewer than eight
/// bytes are left, where the size of the command is smaller than the fixed
/// fields of its tag or contradicts its layout, and where the command
/// reaches beyond the end of the buffer.
pub fn decode_command(bytes: &[u8], pos: usize, order: ByteOrder) -> (r: Result<
    (LoadCommand, usize),
    DecodeError,
>)
    ensures
        command_result_view(r) == command_decoded(bytes@, pos as int, order),
{
    reveal(command_decoded);
    let len: usize = bytes.len();
    let avail: usize = if pos <= len {
        len - pos
    } else {
        0
    };
    if avail < 8 {
        return Err(DecodeError::TruncatedInput(8, avail as u64));
    }
    let tag: u32 = read_u32(bytes, pos, order);
    let size: u32 = read_u32(bytes, pos + 4, order);
    if size < min_size(tag) {
        return Err(DecodeError::InvalidCommandSize(tag, size));
    }
    if (avail as u64) < size as u64 {
        return Err(DecodeError::TruncatedInput(size as u64, avail as u64));
    }
    match decode_body(bytes, pos, tag, size, order) {
        Some(c) => Ok((c, pos + size as usize)),
        None => Err(DecodeError::InvalidCommandSize(tag, size)),
    }
}

} // verus!
