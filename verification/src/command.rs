//! Load commands: the tagged records that follow the header of an image.
//!
//! Every command starts with its tag and its size in bytes, the eight
//! bytes of this prefix included.  The size is not stored in the value: it
//! follows from what the command holds.  The exception are the commands
//! that end in a padded text, whose size says how far the padding goes.

use vstd::prelude::*;
use vstd::utf8::*;
use crate::errors::{DecodeError, EncodeError, NameField};
use crate::ident::uuid_octets;
use crate::names::{field_canonical, name_at, name_bytes, name_fits};
use crate::payload::{
    tools_at, tools_bytes, BuildToolVersion, DyldInfo, DynamicSymbolTable, EncryptionInfo,
    EncryptionInfo64, EntryPoint, FileRange, MinimumOsVersion, SymbolTable,
};
use crate::section::{
    addr_len, section_at, section_bytes, section_canonical, section_encode_error, section_names_fit,
    section_wf, Address, Section, SectionView,
};
use crate::wire::{
    left, pattern_of, signed_of, u32_at, u64_at, u64_bytes, words_at, words_bytes, zeros, ByteOrder,
};

verus! {

/// The tag of a segment with 32-bit addresses.
pub const LC_SEGMENT: u32 = 0x1;

/// The tag of the symbol table.
pub const LC_SYMTAB: u32 = 0x2;

/// The tag of the dynamic symbol table.
pub const LC_DYSYMTAB: u32 = 0xb;

/// The tag of a dynamic library to load.
pub const LC_LOAD_DYLIB: u32 = 0xc;

/// The tag of the identity of a dynamic library.
pub const LC_ID_DYLIB: u32 = 0xd;

/// The tag of the dynamic linker to load.
pub const LC_LOAD_DYLINKER: u32 = 0xe;

/// The tag of a segment with 64-bit addresses.
pub const LC_SEGMENT_64: u32 = 0x19;

/// The tag of the identifier of an image.
pub const LC_UUID: u32 = 0x1b;

/// The tag of a run-path entry.
pub const LC_RPATH: u32 = 0x8000001c;

/// The tag of the code signature.
pub const LC_CODE_SIGNATURE: u32 = 0x1d;

/// The tag of the encrypted range of a 32-bit image.
pub const LC_ENCRYPTION_INFO: u32 = 0x21;

/// The tag of the tables of the dynamic loader.
pub const LC_DYLD_INFO_ONLY: u32 = 0x80000022;

/// The tag of the minimum system version.
pub const LC_VERSION_MIN_IPHONEOS: u32 = 0x25;

/// The tag of the table of function starts.
pub const LC_FUNCTION_STARTS: u32 = 0x26;

/// The tag of the entry point.
pub const LC_MAIN: u32 = 0x80000028;

/// The tag of the table of data in code.
pub const LC_DATA_IN_CODE: u32 = 0x29;

/// The tag of the version of the sources.
pub const LC_SOURCE_VERSION: u32 = 0x2a;

/// The tag of the encrypted range of a 64-bit image.
pub const LC_ENCRYPTION_INFO_64: u32 = 0x2c;

/// The tag of the build version with its tools.
pub const LC_BUILD_VERSION: u32 = 0x32;

/// A segment: a named range of memory, and the sections in it.
#[derive(Clone, Debug, PartialEq, Eq)]
pub struct Segment<A> {
    /// The name of the segment.
    pub segment_name: String,
    /// The address of the segment in memory.
    pub vm_addr: A,
    /// The size of the segment in memory.
    pub vm_size: A,
    /// The offset of the segment in the file.
    pub file_offset: A,
    /// The number of bytes of the segment in the file.
    pub file_size: A,
    /// The most permissive protection that the segment may get.
    pub max_prot: i32,
    /// The protection that the segment starts with.
    pub init_prot: i32,
    /// Flags.
    pub flags: u32,
    /// The sections; their number is written from the length of this list.
    pub sections: Vec<Section<A>>,
}

/// The mathematical value of a [`Segment`].
pub struct SegmentView<A> {
    pub segment_name: Seq<char>,
    pub vm_addr: A,
    pub vm_size: A,
    pub file_offset: A,
    pub file_size: A,
    pub max_prot: i32,
    pub init_prot: i32,
    pub flags: u32,
    pub sections: Seq<SectionView<A>>,
}

impl<A> View for Segment<A> {
    type V = SegmentView<A>;

    open spec fn view(&self) -> SegmentView<A> {
        SegmentView {
            segment_name: self.segment_name@,
            vm_addr: self.vm_addr,
            vm_size: self.vm_size,
            file_offset: self.file_offset,
            file_size: self.file_size,
            max_prot: self.max_prot,
            init_prot: self.init_prot,
            flags: self.flags,
            sections: section_views(self.sections@),
        }
    }
}

/// The mathematical values of a list of sections.
pub open spec fn section_views<A>(sections: Seq<Section<A>>) -> Seq<SectionView<A>> {
    Seq::new(sections.len(), |i: int| sections[i]@)
}

/// A command that consists of a path: a run-path entry, or the name of the
/// dynamic linker.
#[derive(Clone, Debug, PartialEq, Eq)]
pub struct PathCommand {
    /// The size of the command; the path is padded up to it.
    pub cmd_size: u32,
    /// Where the path starts, counted from the start of the command.
    pub str_offset: u32,
    /// The path.
    pub path: String,
}

/// The mathematical value of a [`PathCommand`].
pub struct PathCommandView {
    pub cmd_size: u32,
    pub str_offset: u32,
    pub path: Seq<char>,
}

impl View for PathCommand {
    type V = PathCommandView;

    open spec fn view(&self) -> PathCommandView {
        PathCommandView { cmd_size: self.cmd_size, str_offset: self.str_offset, path: self.path@ }
    }
}

/// A command that names a dynamic library.
#[derive(Clone, Debug, PartialEq, Eq)]
pub struct DylibCommand {
    /// The size of the command; the name is padded up to it.
    pub cmd_size: u32,
    /// Where the name starts, counted from the start of the command.
    pub str_offset: u32,
    /// When the library was built.
    pub time_stamp: u32,
    /// The current version of the library.
    pub current_version: u32,
    /// The oldest version that the library is compatible with.
    pub compatibility_version: u32,
    /// The path name of the library.
    pub name: String,
}

/// The mathematical value of a [`DylibCommand`].
pub struct DylibCommandView {
    pub cmd_size: u32,
    pub str_offset: u32,
    pub time_stamp: u32,
    pub current_version: u32,
    pub compatibility_version: u32,
    pub name: Seq<char>,
}

impl View for DylibCommand {
    type V = DylibCommandView;

    open spec fn view(&self) -> DylibCommandView {
        DylibCommandView {
            cmd_size: self.cmd_size,
            str_offset: self.str_offset,
            time_stamp: self.time_stamp,
            current_version: self.current_version,
            compatibility_version: self.compatibility_version,
            name: self.name@,
        }
    }
}

/// The platform and versions that an image was built for, and the tools
/// that built it.
#[derive(Clone, Debug, PartialEq, Eq)]
pub struct BuildVersion {
    /// The platform.
    pub platform: u32,
    /// The oldest system version that the image runs on.
    pub minimum_os_version: u32,
    /// The version of the development kit.
    pub bundle_sdk_version: u32,
    /// The tools; their number is written from the length of this list.
    pub build_tool_versions: Vec<BuildToolVersion>,
}

/// The mathematical value of a [`BuildVersion`].
pub struct BuildVersionView {
    pub platform: u32,
    pub minimum_os_version: u32,
    pub bundle_sdk_version: u32,
    pub build_tool_versions: Seq<BuildToolVersion>,
}

impl View for BuildVersion {
    type V = BuildVersionView;

    open spec fn view(&self) -> BuildVersionView {
        BuildVersionView {
            platform: self.platform,
            minimum_os_version: self.minimum_os_version,
            bundle_sdk_version: self.bundle_sdk_version,
            build_tool_versions: self.build_tool_versions@,
        }
    }
}

/// A load command.
#[derive(Clone, Debug, PartialEq, Eq)]
pub enum LoadCommand {
    /// A segment with 32-bit addresses.
    Segment32(Segment<u32>),
    /// A segment with 64-bit addresses.
    Segment64(Segment<u64>),
    /// The encrypted range of a 32-bit image.
    EncryptionInfo(EncryptionInfo),
    /// The encrypted range of a 64-bit image.
    EncryptionInfo64(EncryptionInfo64),
    /// The tables of the dynamic loader.
    DyldInfoOnly(DyldInfo),
    /// The table of function starts.
    FunctionStarts(FileRange),
    /// The table of data in code.
    DataInCode(FileRange),
    /// The symbol table.
    SymbolTable(SymbolTable),
    /// A run-path entry.
    RunPathSearchPath(PathCommand),
    /// The identity of a dynamic library.
    IdentifyDylib(DylibCommand),
    /// A dynamic library to load.
    LoadDylib(DylibCommand),
    /// The dynamic linker to load.
    LoadDynamicLinker(PathCommand),
    /// The minimum system version.
    MinimumOSVersion(MinimumOsVersion),
    /// The build version with its tools.
    BuildToolVersions(BuildVersion),
    /// The identifier of the image.
    Uuid(uuid::Uuid),
    /// The version of the sources.
    SourceVersion(u64),
    /// The dynamic symbol table.
    DynamicSymbolTable(DynamicSymbolTable),
    /// The entry point.
    MainEntryPoint(EntryPoint),
    /// The code signature.
    CodeSignature(FileRange),
    /// A command with a tag outside the table: the tag, and the bytes
    /// after the eight-byte prefix as they are.
    Unknown(u32, Vec<u8>),
}

/// The mathematical value of a [`LoadCommand`].
pub enum LoadCommandView {
    Segment32(SegmentView<u32>),
    Segment64(SegmentView<u64>),
    EncryptionInfo(EncryptionInfo),
    EncryptionInfo64(EncryptionInfo64),
    DyldInfoOnly(DyldInfo),
    FunctionStarts(FileRange),
    DataInCode(FileRange),
    SymbolTable(SymbolTable),
    RunPathSearchPath(PathCommandView),
    IdentifyDylib(DylibCommandView),
    LoadDylib(DylibCommandView),
    LoadDynamicLinker(PathCommandView),
    MinimumOSVersion(MinimumOsVersion),
    BuildToolVersions(BuildVersionView),
    Uuid(Seq<u8>),
    SourceVersion(u64),
    DynamicSymbolTable(DynamicSymbolTable),
    MainEntryPoint(EntryPoint),
    CodeSignature(FileRange),
    Unknown(u32, Seq<u8>),
}

impl View for LoadCommand {
    type V = LoadCommandView;

    open spec fn view(&self) -> LoadCommandView {
        match *self {
            LoadCommand::Segment32(g) => LoadCommandView::Segment32(g@),
            LoadCommand::Segment64(g) => LoadCommandView::Segment64(g@),
            LoadCommand::EncryptionInfo(r) => LoadCommandView::EncryptionInfo(r),
            LoadCommand::EncryptionInfo64(r) => LoadCommandView::EncryptionInfo64(r),
            LoadCommand::DyldInfoOnly(r) => LoadCommandView::DyldInfoOnly(r),
            LoadCommand::FunctionStarts(r) => LoadCommandView::FunctionStarts(r),
            LoadCommand::DataInCode(r) => LoadCommandView::DataInCode(r),
            LoadCommand::SymbolTable(r) => LoadCommandView::SymbolTable(r),
            LoadCommand::RunPathSearchPath(c) => LoadCommandView::RunPathSearchPath(c@),
            LoadCommand::IdentifyDylib(c) => LoadCommandView::IdentifyDylib(c@),
            LoadCommand::LoadDylib(c) => LoadCommandView::LoadDylib(c@),
            LoadCommand::LoadDynamicLinker(c) => LoadCommandView::LoadDynamicLinker(c@),
            LoadCommand::MinimumOSVersion(r) => LoadCommandView::MinimumOSVersion(r),
            LoadCommand::BuildToolVersions(b) => LoadCommandView::BuildToolVersions(b@),
            LoadCommand::Uuid(id) => LoadCommandView::Uuid(uuid_octets(id)),
            LoadCommand::SourceVersion(v) => LoadCommandView::SourceVersion(v),
            LoadCommand::DynamicSymbolTable(r) => LoadCommandView::DynamicSymbolTable(r),
            LoadCommand::MainEntryPoint(r) => LoadCommandView::MainEntryPoint(r),
            LoadCommand::CodeSignature(r) => LoadCommandView::CodeSignature(r),
            LoadCommand::Unknown(tag, data) => LoadCommandView::Unknown(tag, data@),
        }
    }
}

/// The tag is one of the table: a command with it is decoded field by
/// field.
pub open spec fn is_known_tag(tag: u32) -> bool {
    tag == LC_SEGMENT || tag == LC_SYMTAB || tag == LC_DYSYMTAB || tag == LC_LOAD_DYLIB || tag
        == LC_ID_DYLIB || tag == LC_LOAD_DYLINKER || tag == LC_SEGMENT_64 || tag == LC_UUID || tag
        == LC_RPATH || tag == LC_CODE_SIGNATURE || tag == LC_ENCRYPTION_INFO || tag
        == LC_DYLD_INFO_ONLY || tag == LC_VERSION_MIN_IPHONEOS || tag == LC_FUNCTION_STARTS || tag
        == LC_MAIN || tag == LC_DATA_IN_CODE || tag == LC_SOURCE_VERSION || tag
        == LC_ENCRYPTION_INFO_64 || tag == LC_BUILD_VERSION
}

/// The number of bytes that a command with this tag takes at least: its
/// prefix and its fixed fields.
pub open spec fn min_len(tag: u32) -> nat {
    if tag == LC_SEGMENT {
        56
    } else if tag == LC_SEGMENT_64 {
        72
    } else if tag == LC_DYSYMTAB {
        80
    } else if tag == LC_DYLD_INFO_ONLY {
        48
    } else if tag == LC_SYMTAB || tag == LC_LOAD_DYLIB || tag == LC_ID_DYLIB || tag == LC_UUID
        || tag == LC_MAIN || tag == LC_ENCRYPTION_INFO_64 || tag == LC_BUILD_VERSION {
        24
    } else if tag == LC_ENCRYPTION_INFO {
        20
    } else if tag == LC_CODE_SIGNATURE || tag == LC_VERSION_MIN_IPHONEOS || tag
        == LC_FUNCTION_STARTS || tag == LC_DATA_IN_CODE || tag == LC_SOURCE_VERSION {
        16
    } else if tag == LC_RPATH || tag == LC_LOAD_DYLINKER {
        12
    } else {
        8
    }
}

/// The number of bytes of a segment command with `n` sections.
pub open spec fn segment_len<A: Address>(n: nat) -> nat {
    if A::is_wide() {
        72 + 80 * n
    } else {
        56 + 68 * n
    }
}

/// The position of section `i` in a table of sections that starts at `p`.
pub open spec fn section_pos<A: Address>(p: int, i: int) -> int {
    if A::is_wide() {
        p + 80 * i
    } else {
        p + 68 * i
    }
}

/// The bytes of a list of sections.
pub open spec fn sections_bytes<A: Address>(
    sections: Seq<SectionView<A>>,
    order: ByteOrder,
) -> Seq<u8>
    decreases sections.len(),
{
    if sections.len() == 0 {
        Seq::empty()
    } else {
        sections_bytes(sections.drop_last(), order) + section_bytes(sections.last(), order)
    }
}

/// The `n` sections in the table that starts at position `p` of `s`.
pub open spec fn sections_at<A: Address>(s: Seq<u8>, p: int, n: nat, order: ByteOrder) -> Seq<
    SectionView<A>,
> {
    Seq::new(n, |i: int| section_at::<A>(s, section_pos::<A>(p, i), order))
}

/// Why a list of sections cannot be written, if it cannot: the error of
/// its first section that has one.
pub open spec fn sections_encode_error<A>(sections: Seq<SectionView<A>>) -> Option<EncodeError>
    decreases sections.len(),
{
    if sections.len() == 0 {
        None
    } else {
        match sections_encode_error(sections.drop_last()) {
            Some(e) => Some(e),
            None => section_encode_error(sections.last()),
        }
    }
}

/// The 32-bit fields between the addresses of a segment and its sections.
pub open spec fn segment_words<A>(v: SegmentView<A>) -> Seq<u32> {
    seq![pattern_of(v.max_prot), pattern_of(v.init_prot), v.sections.len() as u32, v.flags]
}

/// The bytes of a segment after the prefix of its command.
pub open spec fn segment_body<A: Address>(v: SegmentView<A>, order: ByteOrder) -> Seq<u8> {
    name_bytes(v.segment_name, 16) + v.vm_addr.bytes(order) + v.vm_size.bytes(order)
        + v.file_offset.bytes(order) + v.file_size.bytes(order) + words_bytes(
        segment_words(v),
        order,
    ) + sections_bytes(v.sections, order)
}

/// The segment in the command of `size` bytes at position `p` of `s`;
/// nothing where the size is not the one that the number of sections
/// asks for.
pub open spec fn segment_at<A: Address>(s: Seq<u8>, p: int, size: u32, order: ByteOrder) -> Option<
    SegmentView<A>,
> {
    let w = addr_len::<A>();
    let t = p + 24 + 4 * w;
    let ws = words_at(s, t, 4, order);
    if size == segment_len::<A>(ws[2] as nat) {
        Some(
            SegmentView {
                segment_name: name_at(s, p + 8, 16),
                vm_addr: A::at(s, p + 24, order),
                vm_size: A::at(s, p + 24 + w, order),
                file_offset: A::at(s, p + 24 + 2 * w, order),
                file_size: A::at(s, p + 24 + 3 * w, order),
                max_prot: signed_of(ws[0]),
                init_prot: signed_of(ws[1]),
                flags: ws[3],
                sections: sections_at::<A>(s, t + 16, ws[2] as nat, order),
            },
        )
    } else {
        None
    }
}

/// Why a segment cannot be written, if it cannot: its name takes more than
/// sixteen bytes; or else its size does not fit 32 bits; or else one of
/// its sections cannot be written.
pub open spec fn segment_encode_error<A: Address>(v: SegmentView<A>) -> Option<EncodeError> {
    if encode_utf8(v.segment_name).len() > 16 {
        Some(EncodeError::NameTooLong(NameField::SegmentName, 16))
    } else if segment_len::<A>(v.sections.len()) > u32::MAX {
        Some(EncodeError::TooLarge)
    } else {
        sections_encode_error(v.sections)
    }
}

/// The segment is read back as it is from its own bytes.
pub open spec fn segment_wf<A: Address>(v: SegmentView<A>) -> bool {
    &&& name_fits(v.segment_name, 16)
    &&& segment_len::<A>(v.sections.len()) <= u32::MAX
    &&& forall|i: int| 0 <= i < v.sections.len() ==> section_wf(#[trigger] v.sections[i])
}

/// The padding and the text at the end of a command of `cmd_size` bytes
/// whose fixed fields take `fixed` bytes and whose text starts at
/// `str_offset`.
pub open spec fn text_tail(text: Seq<char>, fixed: int, str_offset: u32, cmd_size: u32) -> Seq<
    u8,
> {
    zeros((str_offset - fixed) as nat) + name_bytes(text, (cmd_size - str_offset) as nat)
}

/// Why the text at the end of a command cannot be written, if it cannot:
/// it does not start after the fixed fields and within the command; or
/// else it takes more bytes than are left up to the end of the command.
pub open spec fn text_tail_error(
    text: Seq<char>,
    tag: u32,
    fixed: int,
    str_offset: u32,
    cmd_size: u32,
) -> Option<EncodeError> {
    if str_offset < fixed || cmd_size < str_offset {
        Some(EncodeError::InvalidCommandSize(tag, cmd_size))
    } else if encode_utf8(text).len() > cmd_size - str_offset {
        Some(EncodeError::NameTooLong(NameField::Path, (cmd_size - str_offset) as u32))
    } else {
        None
    }
}

/// The text at the end of a command is read back as it is.
pub open spec fn text_tail_wf(text: Seq<char>, fixed: int, str_offset: u32, cmd_size: u32) -> bool {
    &&& fixed <= str_offset <= cmd_size
    &&& name_fits(text, (cmd_size - str_offset) as nat)
}

/// The tag of a command.
pub open spec fn command_tag(v: LoadCommandView) -> u32 {
    match v {
        LoadCommandView::Segment32(_) => LC_SEGMENT,
        LoadCommandView::Segment64(_) => LC_SEGMENT_64,
        LoadCommandView::EncryptionInfo(_) => LC_ENCRYPTION_INFO,
        LoadCommandView::EncryptionInfo64(_) => LC_ENCRYPTION_INFO_64,
        LoadCommandView::DyldInfoOnly(_) => LC_DYLD_INFO_ONLY,
        LoadCommandView::FunctionStarts(_) => LC_FUNCTION_STARTS,
        LoadCommandView::DataInCode(_) => LC_DATA_IN_CODE,
        LoadCommandView::SymbolTable(_) => LC_SYMTAB,
        LoadCommandView::RunPathSearchPath(_) => LC_RPATH,
        LoadCommandView::IdentifyDylib(_) => LC_ID_DYLIB,
        LoadCommandView::LoadDylib(_) => LC_LOAD_DYLIB,
        LoadCommandView::LoadDynamicLinker(_) => LC_LOAD_DYLINKER,
        LoadCommandView::MinimumOSVersion(_) => LC_VERSION_MIN_IPHONEOS,
        LoadCommandView::BuildToolVersions(_) => LC_BUILD_VERSION,
        LoadCommandView::Uuid(_) => LC_UUID,
        LoadCommandView::SourceVersion(_) => LC_SOURCE_VERSION,
        LoadCommandView::DynamicSymbolTable(_) => LC_DYSYMTAB,
        LoadCommandView::MainEntryPoint(_) => LC_MAIN,
        LoadCommandView::CodeSignature(_) => LC_CODE_SIGNATURE,
        LoadCommandView::Unknown(tag, _) => tag,
    }
}

/// The number of bytes that a command takes when it is written, its
/// eight-byte prefix included.
pub open spec fn command_len(v: LoadCommandView) -> nat {
    match v {
        LoadCommandView::Segment32(g) => segment_len::<u32>(g.sections.len()),
        LoadCommandView::Segment64(g) => segment_len::<u64>(g.sections.len()),
        LoadCommandView::EncryptionInfo(_) => 20,
        LoadCommandView::EncryptionInfo64(_) => 24,
        LoadCommandView::DyldInfoOnly(_) => 48,
        LoadCommandView::FunctionStarts(_) => 16,
        LoadCommandView::DataInCode(_) => 16,
        LoadCommandView::SymbolTable(_) => 24,
        LoadCommandView::RunPathSearchPath(c) => c.cmd_size as nat,
        LoadCommandView::IdentifyDylib(c) => c.cmd_size as nat,
        LoadCommandView::LoadDylib(c) => c.cmd_size as nat,
        LoadCommandView::LoadDynamicLinker(c) => c.cmd_size as nat,
        LoadCommandView::MinimumOSVersion(_) => 16,
        LoadCommandView::BuildToolVersions(b) => 24 + 8 * b.build_tool_versions.len(),
        LoadCommandView::Uuid(_) => 24,
        LoadCommandView::SourceVersion(_) => 16,
        LoadCommandView::DynamicSymbolTable(_) => 80,
        LoadCommandView::MainEntryPoint(_) => 24,
        LoadCommandView::CodeSignature(_) => 16,
        LoadCommandView::Unknown(_, data) => 8 + data.len(),
    }
}

/// The bytes of a path command after its prefix.
pub open spec fn path_body(c: PathCommandView, order: ByteOrder) -> Seq<u8> {
    words_bytes(seq![c.str_offset], order) + text_tail(c.path, 12, c.str_offset, c.cmd_size)
}

/// The bytes of a library command after its prefix.
pub open spec fn dylib_body(c: DylibCommandView, order: ByteOrder) -> Seq<u8> {
    words_bytes(
        seq![c.str_offset, c.time_stamp, c.current_version, c.compatibility_version],
        order,
    ) + text_tail(c.name, 24, c.str_offset, c.cmd_size)
}

/// The bytes of a build version after the prefix of its command.
pub open spec fn build_body(b: BuildVersionView, order: ByteOrder) -> Seq<u8> {
    words_bytes(
        seq![
            b.platform,
            b.minimum_os_version,
            b.bundle_sdk_version,
            b.build_tool_versions.len() as u32,
        ],
        order,
    ) + tools_bytes(b.build_tool_versions, order)
}

/// The bytes of a command after its eight-byte prefix.
pub open spec fn command_body(v: LoadCommandView, order: ByteOrder) -> Seq<u8> {
    match v {
        LoadCommandView::Segment32(g) => segment_body(g, order),
        LoadCommandView::Segment64(g) => segment_body(g, order),
        LoadCommandView::EncryptionInfo(r) => words_bytes(r.words(), order),
        LoadCommandView::EncryptionInfo64(r) => words_bytes(r.words(), order),
        LoadCommandView::DyldInfoOnly(r) => words_bytes(r.words(), order),
        LoadCommandView::FunctionStarts(r) => words_bytes(r.words(), order),
        LoadCommandView::DataInCode(r) => words_bytes(r.words(), order),
        LoadCommandView::SymbolTable(r) => words_bytes(r.words(), order),
        LoadCommandView::RunPathSearchPath(c) => path_body(c, order),
        LoadCommandView::IdentifyDylib(c) => dylib_body(c, order),
        LoadCommandView::LoadDylib(c) => dylib_body(c, order),
        LoadCommandView::LoadDynamicLinker(c) => path_body(c, order),
        LoadCommandView::MinimumOSVersion(r) => words_bytes(r.words(), order),
        LoadCommandView::BuildToolVersions(b) => build_body(b, order),
        LoadCommandView::Uuid(octets) => octets,
        LoadCommandView::SourceVersion(version) => u64_bytes(version, order),
        LoadCommandView::DynamicSymbolTable(r) => words_bytes(r.words(), order),
        LoadCommandView::MainEntryPoint(r) => r.bytes(order),
        LoadCommandView::CodeSignature(r) => words_bytes(r.words(), order),
        LoadCommandView::Unknown(_, data) => data,
    }
}

/// The bytes of a command: its tag, its size, and its body.
pub open spec fn command_bytes(v: LoadCommandView, order: ByteOrder) -> Seq<u8> {
    words_bytes(seq![command_tag(v), command_len(v) as u32], order) + command_body(v, order)
}

/// Why a command cannot be written, if it cannot.
pub open spec fn command_encode_error(v: LoadCommandView) -> Option<EncodeError> {
    match v {
        LoadCommandView::Segment32(g) => segment_encode_error(g),
        LoadCommandView::Segment64(g) => segment_encode_error(g),
        LoadCommandView::RunPathSearchPath(c) => text_tail_error(
            c.path,
            LC_RPATH,
            12,
            c.str_offset,
            c.cmd_size,
        ),
        LoadCommandView::LoadDynamicLinker(c) => text_tail_error(
            c.path,
            LC_LOAD_DYLINKER,
            12,
            c.str_offset,
            c.cmd_size,
        ),
        LoadCommandView::IdentifyDylib(c) => text_tail_error(
            c.name,
            LC_ID_DYLIB,
            24,
            c.str_offset,
            c.cmd_size,
        ),
        LoadCommandView::LoadDylib(c) => text_tail_error(
            c.name,
            LC_LOAD_DYLIB,
            24,
            c.str_offset,
            c.cmd_size,
        ),
        LoadCommandView::BuildToolVersions(b) => if 24 + 8 * b.build_tool_versions.len()
            > u32::MAX {
            Some(EncodeError::TooLarge)
        } else {
            None
        },
        LoadCommandView::Unknown(_, data) => if 8 + data.len() > u32::MAX {
            Some(EncodeError::TooLarge)
        } else {
            None
        },
        _ => None,
    }
}

/// The command is read back as it is from its own bytes.
pub open spec fn command_wf(v: LoadCommandView) -> bool {
    match v {
        LoadCommandView::Segment32(g) => segment_wf(g),
        LoadCommandView::Segment64(g) => segment_wf(g),
        LoadCommandView::RunPathSearchPath(c) => text_tail_wf(c.path, 12, c.str_offset, c.cmd_size),
        LoadCommandView::LoadDynamicLinker(c) => text_tail_wf(c.path, 12, c.str_offset, c.cmd_size),
        LoadCommandView::IdentifyDylib(c) => text_tail_wf(c.name, 24, c.str_offset, c.cmd_size),
        LoadCommandView::LoadDylib(c) => text_tail_wf(c.name, 24, c.str_offset, c.cmd_size),
        LoadCommandView::BuildToolVersions(b) => 24 + 8 * b.build_tool_versions.len() <= u32::MAX,
        LoadCommandView::Uuid(octets) => octets.len() == 16,
        LoadCommandView::Unknown(tag, data) => !is_known_tag(tag) && 8 + data.len() <= u32::MAX,
        _ => true,
    }
}

/// Every text that the command holds can be stored in its field and read
/// back: it takes no more bytes than the field has, and its encoding holds
/// no NUL byte.
pub open spec fn command_names_fit(v: LoadCommandView) -> bool {
    match v {
        LoadCommandView::Segment32(g) => segment_names_fit(g),
        LoadCommandView::Segment64(g) => segment_names_fit(g),
        LoadCommandView::RunPathSearchPath(c) => name_fits(
            c.path,
            (c.cmd_size - c.str_offset) as nat,
        ),
        LoadCommandView::LoadDynamicLinker(c) => name_fits(
            c.path,
            (c.cmd_size - c.str_offset) as nat,
        ),
        LoadCommandView::IdentifyDylib(c) => name_fits(c.name, (c.cmd_size - c.str_offset) as nat),
        LoadCommandView::LoadDylib(c) => name_fits(c.name, (c.cmd_size - c.str_offset) as nat),
        _ => true,
    }
}

/// The name of the segment and the names of its sections can be stored in
/// their fields and read back.
pub open spec fn segment_names_fit<A>(v: SegmentView<A>) -> bool {
    &&& name_fits(v.segment_name, 16)
    &&& forall|i: int| 0 <= i < v.sections.len() ==> section_names_fit(#[trigger] v.sections[i])
}

/// The name fields of the `n` sections in the table at position `p` are
/// written as the encoder writes them.
pub open spec fn sections_canonical<A: Address>(s: Seq<u8>, p: int, n: nat) -> bool {
    forall|i: int| 0 <= i < n ==> section_canonical(s, #[trigger] section_pos::<A>(p, i))
}

/// The name fields of the segment command at position `p`, and of its
/// sections, are written as the encoder writes them.
pub open spec fn segment_canonical<A: Address>(s: Seq<u8>, p: int, order: ByteOrder) -> bool {
    let t = p + 24 + 4 * addr_len::<A>();
    &&& field_canonical(s, p + 8, 16)
    &&& sections_canonical::<A>(s, t + 16, words_at(s, t, 4, order)[2] as nat)
}

/// The end of the command at position `p`, whose fixed fields take `fixed`
/// bytes, is written as the encoder writes it: the bytes between the
/// fixed fields and the text are NUL, and so are the bytes behind the
/// text.
pub open spec fn text_tail_canonical(s: Seq<u8>, p: int, fixed: int, order: ByteOrder) -> bool {
    let size = u32_at(s, p + 4, order);
    let str_offset = u32_at(s, p + 8, order);
    &&& forall|i: int| p + fixed <= i < p + str_offset ==> #[trigger] s[i] == 0
    &&& field_canonical(s, p + str_offset, (size - str_offset) as nat)
}

/// The command at position `p` is written as the encoder writes it: its
/// texts are valid UTF-8, and the bytes that no field covers are NUL.
/// The fields of integers are written in one way only, and so is the
/// payload of a command with a tag outside the table.
pub open spec fn command_canonical(s: Seq<u8>, p: int, order: ByteOrder) -> bool {
    let tag = u32_at(s, p, order);
    if tag == LC_SEGMENT {
        segment_canonical::<u32>(s, p, order)
    } else if tag == LC_SEGMENT_64 {
        segment_canonical::<u64>(s, p, order)
    } else if tag == LC_RPATH || tag == LC_LOAD_DYLINKER {
        text_tail_canonical(s, p, 12, order)
    } else if tag == LC_ID_DYLIB || tag == LC_LOAD_DYLIB {
        text_tail_canonical(s, p, 24, order)
    } else {
        true
    }
}

/// The path command in the command of `size` bytes at position `p`;
/// nothing where the path does not start after the fixed fields and within
/// the command.
pub open spec fn path_at(s: Seq<u8>, p: int, size: u32, order: ByteOrder) -> Option<
    PathCommandView,
> {
    let str_offset = u32_at(s, p + 8, order);
    if 12 <= str_offset <= size {
        Some(
            PathCommandView {
                cmd_size: size,
                str_offset,
                path: name_at(s, p + str_offset, size - str_offset),
            },
        )
    } else {
        None
    }
}

/// The library command in the command of `size` bytes at position `p`;
/// nothing where the name does not start after the fixed fields and within
/// the command.
pub open spec fn dylib_at(s: Seq<u8>, p: int, size: u32, order: ByteOrder) -> Option<
    DylibCommandView,
> {
    let ws = words_at(s, p + 8, 4, order);
    if 24 <= ws[0] <= size {
        Some(
            DylibCommandView {
                cmd_size: size,
                str_offset: ws[0],
                time_stamp: ws[1],
                current_version: ws[2],
                compatibility_version: ws[3],
                name: name_at(s, p + ws[0], size - ws[0]),
            },
        )
    } else {
        None
    }
}

/// The build version in the command of `size` bytes at position `p`;
/// nothing where the size is not the one that the number of tools asks
/// for.
pub open spec fn build_at(s: Seq<u8>, p: int, size: u32, order: ByteOrder) -> Option<
    BuildVersionView,
> {
    let ws = words_at(s, p + 8, 4, order);
    if size == 24 + 8 * ws[3] {
        Some(
            BuildVersionView {
                platform: ws[0],
                minimum_os_version: ws[1],
                bundle_sdk_version: ws[2],
                build_tool_versions: tools_at(s, p + 24, ws[3] as nat, order),
            },
        )
    } else {
        None
    }
}

/// The command with this tag and this size at position `p` of `s`, which
/// holds at least `size` bytes from `p` on; nothing where the layout of
/// the command contradicts its size.
#[verifier::opaque]
pub open spec fn command_at(s: Seq<u8>, p: int, tag: u32, size: u32, order: ByteOrder) -> Option<
    LoadCommandView,
> {
    if tag == LC_SEGMENT {
        match segment_at::<u32>(s, p, size, order) {
            Some(g) => Some(LoadCommandView::Segment32(g)),
            None => None,
        }
    } else if tag == LC_SEGMENT_64 {
        match segment_at::<u64>(s, p, size, order) {
            Some(g) => Some(LoadCommandView::Segment64(g)),
            None => None,
        }
    } else if tag == LC_RPATH {
        match path_at(s, p, size, order) {
            Some(c) => Some(LoadCommandView::RunPathSearchPath(c)),
            None => None,
        }
    } else if tag == LC_LOAD_DYLINKER {
        match path_at(s, p, size, order) {
            Some(c) => Some(LoadCommandView::LoadDynamicLinker(c)),
            None => None,
        }
    } else if tag == LC_ID_DYLIB {
        match dylib_at(s, p, size, order) {
            Some(c) => Some(LoadCommandView::IdentifyDylib(c)),
            None => None,
        }
    } else if tag == LC_LOAD_DYLIB {
        match dylib_at(s, p, size, order) {
            Some(c) => Some(LoadCommandView::LoadDylib(c)),
            None => None,
        }
    } else if tag == LC_BUILD_VERSION {
        match build_at(s, p, size, order) {
            Some(b) => Some(LoadCommandView::BuildToolVersions(b)),
            None => None,
        }
    } else if !is_known_tag(tag) {
        Some(LoadCommandView::Unknown(tag, s.subrange(p + 8, p + size)))
    } else if size != min_len(tag) {
        None
    } else if tag == LC_ENCRYPTION_INFO {
        Some(
            LoadCommandView::EncryptionInfo(
                EncryptionInfo::of_words(words_at(s, p + 8, 3, order)),
            ),
        )
    } else if tag == LC_ENCRYPTION_INFO_64 {
        Some(
            LoadCommandView::EncryptionInfo64(
                EncryptionInfo64::of_words(words_at(s, p + 8, 4, order)),
            ),
        )
    } else if tag == LC_DYLD_INFO_ONLY {
        Some(LoadCommandView::DyldInfoOnly(DyldInfo::of_words(words_at(s, p + 8, 10, order))))
    } else if tag == LC_FUNCTION_STARTS {
        Some(LoadCommandView::FunctionStarts(FileRange::of_words(words_at(s, p + 8, 2, order))))
    } else if tag == LC_DATA_IN_CODE {
        Some(LoadCommandView::DataInCode(FileRange::of_words(words_at(s, p + 8, 2, order))))
    } else if tag == LC_SYMTAB {
        Some(LoadCommandView::SymbolTable(SymbolTable::of_words(words_at(s, p + 8, 4, order))))
    } else if tag == LC_VERSION_MIN_IPHONEOS {
        Some(
            LoadCommandView::MinimumOSVersion(
                MinimumOsVersion::of_words(words_at(s, p + 8, 2, order)),
            ),
        )
    } else if tag == LC_UUID {
        Some(LoadCommandView::Uuid(s.subrange(p + 8, p + 24)))
    } else if tag == LC_SOURCE_VERSION {
        Some(LoadCommandView::SourceVersion(u64_at(s, p + 8, order)))
    } else if tag == LC_DYSYMTAB {
        Some(
            LoadCommandView::DynamicSymbolTable(
                DynamicSymbolTable::of_words(words_at(s, p + 8, 18, order)),
            ),
        )
    } else if tag == LC_MAIN {
        Some(LoadCommandView::MainEntryPoint(EntryPoint::at(s, p + 8, order)))
    } else {
        Some(LoadCommandView::CodeSignature(FileRange::of_words(words_at(s, p + 8, 2, order))))
    }
}

/// What decoding the command at position `p` of `s` gives: the command and
/// the position after it, or the reason why there is none.
///
/// Eight bytes are needed for the tag and the size.  The size must cover
/// the fixed fields of the tag and lie within the buffer, and the layout
/// of the command must agree with it.
#[verifier::opaque]
pub open spec fn command_decoded(s: Seq<u8>, p: int, order: ByteOrder) -> Result<
    (LoadCommandView, int),
    DecodeError,
> {
    let avail = left(s.len(), p);
    let tag = u32_at(s, p, order);
    let size = u32_at(s, p + 4, order);
    if avail < 8 {
        Err(DecodeError::TruncatedInput(8, avail as u64))
    } else if size < min_len(tag) {
        Err(DecodeError::InvalidCommandSize(tag, size))
    } else if avail < size {
        Err(DecodeError::TruncatedInput(size as u64, avail as u64))
    } else {
        match command_at(s, p, tag, size, order) {
            Some(v) => Ok((v, p + size)),
            None => Err(DecodeError::InvalidCommandSize(tag, size)),
        }
    }
}

} // verus!
