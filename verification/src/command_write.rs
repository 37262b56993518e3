//! Writing load commands.

use vstd::prelude::*;
use vstd::utf8::*;
use crate::command::{
    build_body, command_body, command_bytes, command_encode_error, command_len, command_tag,
    dylib_body, path_body, section_pos, section_views, sections_bytes, sections_encode_error,
    segment_body, segment_encode_error, segment_len, segment_words, text_tail, text_tail_error,
    BuildVersion, DylibCommand, LC_BUILD_VERSION, LC_CODE_SIGNATURE, LC_DATA_IN_CODE,
    LC_DYLD_INFO_ONLY, LC_DYSYMTAB, LC_ENCRYPTION_INFO, LC_ENCRYPTION_INFO_64, LC_FUNCTION_STARTS,
    LC_ID_DYLIB, LC_LOAD_DYLIB, LC_LOAD_DYLINKER, LC_MAIN, LC_RPATH, LC_SEGMENT, LC_SEGMENT_64,
    LC_SOURCE_VERSION, LC_SYMTAB, LC_UUID, LC_VERSION_MIN_IPHONEOS, LoadCommand, LoadCommandView,
    PathCommand, Segment, SegmentView,
};
use crate::errors::{EncodeError, NameField};
use crate::ident::put_uuid;
use crate::names::{fit_name, map_cstring_bytes};
use crate::payload::{lemma_tools_len, tools_bytes, BuildToolVersion};
use crate::section::{encode_section, lemma_section_len, Address, Section, SectionView};
use crate::wire::{
    bytes_of_words, lemma_words_len, put_bytes, put_u64, put_words, put_zeros, to_pattern,
    ByteOrder,
};

verus! {

/// A list of `n` sections takes `n` times the length of a section.
pub proof fn lemma_sections_len<A: Address>(sections: Seq<SectionView<A>>, order: ByteOrder)
    ensures
        sections_bytes(sections, order).len() == section_pos::<A>(0, sections.len() as int),
    decreases sections.len(),
{
    if sections.len() > 0 {
        lemma_sections_len(sections.drop_last(), order);
        lemma_section_len(sections.last(), order);
    }
}

/// The error of a list of sections is the error of the first of its
/// prefixes that has one.
pub proof fn lemma_sections_error_prefix<A>(sections: Seq<SectionView<A>>, k: int)
    requires
        0 <= k <= sections.len(),
        sections_encode_error(sections.take(k)) is Some,
    ensures
        sections_encode_error(sections) == sections_encode_error(sections.take(k)),
    decreases sections.len() - k,
{
    if k < sections.len() {
        assert(sections.take(k + 1).drop_last() =~= sections.take(k));
        lemma_sections_error_prefix(sections, k + 1);
    } else {
        assert(sections.take(k) =~= sections);
    }
}

/// The body of a segment takes the length of the segment less the prefix.
pub proof fn lemma_segment_body_len<A: Address>(v: SegmentView<A>, order: ByteOrder)
    ensures
        segment_body(v, order).len() + 8 == segment_len::<A>(v.sections.len()),
{
    v.vm_addr.lemma_len(order);
    v.vm_size.lemma_len(order);
    v.file_offset.lemma_len(order);
    v.file_size.lemma_len(order);
    lemma_words_len(segment_words(v), order);
    lemma_sections_len(v.sections, order);
}

/// The body of a command that can be written takes the length of the
/// command less the eight bytes of the prefix, and the length fits 32
/// bits.
pub proof fn lemma_command_len(v: LoadCommandView, order: ByteOrder)
    requires
        command_encode_error(v) is None,
        v matches LoadCommandView::Uuid(octets) ==> octets.len() == 16,
    ensures
        command_body(v, order).len() + 8 == command_len(v),
        command_bytes(v, order).len() == command_len(v),
        command_len(v) <= u32::MAX,
{
    lemma_words_len(seq![command_tag(v), command_len(v) as u32], order);
    match v {
        LoadCommandView::Segment32(g) => {
            lemma_segment_body_len(g, order);
        },
        LoadCommandView::Segment64(g) => {
            lemma_segment_body_len(g, order);
        },
        LoadCommandView::EncryptionInfo(r) => {
            lemma_words_len(r.words(), order);
        },
        LoadCommandView::EncryptionInfo64(r) => {
            lemma_words_len(r.words(), order);
        },
        LoadCommandView::DyldInfoOnly(r) => {
            lemma_words_len(r.words(), order);
        },
        LoadCommandView::FunctionStarts(r) => {
            lemma_words_len(r.words(), order);
        },
        LoadCommandView::DataInCode(r) => {
            lemma_words_len(r.words(), order);
        },
        LoadCommandView::SymbolTable(r) => {
            lemma_words_len(r.words(), order);
        },
        LoadCommandView::RunPathSearchPath(c) => {
            lemma_words_len(seq![c.str_offset], order);
        },
        LoadCommandView::LoadDynamicLinker(c) => {
            lemma_words_len(seq![c.str_offset], order);
        },
        LoadCommandView::IdentifyDylib(c) => {
            lemma_words_len(
                seq![c.str_offset, c.time_stamp, c.current_version, c.compatibility_version],
                order,
            );
        },
        LoadCommandView::LoadDylib(c) => {
            lemma_words_len(
                seq![c.str_offset, c.time_stamp, c.current_version, c.compatibility_version],
                order,
            );
        },
        LoadCommandView::MinimumOSVersion(r) => {
            lemma_words_len(r.words(), order);
        },
        LoadCommandView::BuildToolVersions(b) => {
            lemma_words_len(
                seq![
                    b.platform,
                    b.minimum_os_version,
                    b.bundle_sdk_version,
                    b.build_tool_versions.len() as u32,
                ],
                order,
            );
            lemma_tools_len(b.build_tool_versions, order);
        },
        LoadCommandView::Uuid(_) => {},
        LoadCommandView::SourceVersion(_) => {},
        LoadCommandView::DynamicSymbolTable(r) => {
            lemma_words_len(r.words(), order);
        },
        LoadCommandView::MainEntryPoint(_) => {},
        LoadCommandView::CodeSignature(r) => {
            lemma_words_len(r.words(), order);
        },
        LoadCommandView::Unknown(_, _) => {},
    }
}

/// Appends the sections to `out`, up to the first that cannot be written.
fn encode_sections<A: Address>(
    sections: &Vec<Section<A>>,
    out: &mut Vec<u8>,
    order: ByteOrder,
) -> (r: Result<(), EncodeError>)
    ensures
        match r {
            Ok(_) => sections_encode_error(section_views(sections@)) is None && final(out)@
                == old(out)@ + sections_bytes(section_views(sections@), order),
            Err(e) => sections_encode_error(section_views(sections@)) == Some(e),
        },
{
    let ghost views = section_views(sections@);
    let mut i: usize = 0;
    assert(out@ =~= old(out)@ + sections_bytes(views.take(0), order));
    while i < sections.len()
        invariant
            i <= sections.len(),
            views == section_views(sections@),
            sections_encode_error(views.take(i as int)) is None,
            out@ == old(out)@ + sections_bytes(views.take(i as int), order),
        decreases sections.len() - i,
    {
        let step = encode_section(&sections[i], out, order);
        proof {
            assert(views.take(i + 1).drop_last() =~= views.take(i as int));
            assert(views.take(i + 1).last() == sections@[i as int]@);
        }
        match step {
            Ok(_) => {},
            Err(e) => {
                proof {
                    lemma_sections_error_prefix(views, i + 1);
                }
                return Err(e);
            },
        }
        i += 1;
        assert(out@ =~= old(out)@ + sections_bytes(views.take(i as int), order));
    }
    assert(views.take(i as int) =~= views);
    Ok(())
}

/// The body of a segment command, unless the segment cannot be written.
fn encode_segment<A: Address>(g: &Segment<A>, order: ByteOrder) -> (r: Result<
    Vec<u8>,
    EncodeError,
>)
    ensures
        match r {
            Ok(body) => segment_encode_error(g@) is None && body@ == segment_body(g@, order),
            Err(e) => segment_encode_error(g@) == Some(e),
        },
{
    let mut body = match map_cstring_bytes(&g.segment_name) {
        Ok(field) => field,
        Err(e) => {
            return Err(e);
        },
    };
    let n: usize = g.sections.len();
    let limit: usize = if A::wide() {
        53687090
    } else {
        63161282
    };
    if n > limit {
        return Err(EncodeError::TooLarge);
    }
    g.vm_addr.put(&mut body, order);
    g.vm_size.put(&mut body, order);
    g.file_offset.put(&mut body, order);
    g.file_size.put(&mut body, order);
    let ws: [u32; 4] = [to_pattern(g.max_prot), to_pattern(g.init_prot), n as u32, g.flags];
    assert(ws@ =~= segment_words(g@));
    put_words(&mut body, &ws, order);
    match encode_sections(&g.sections, &mut body, order) {
        Ok(_) => {},
        Err(e) => {
            return Err(e);
        },
    }
    Ok(body)
}

/// Appends the padding and the text at the end of a command to `out`,
/// unless the text cannot be written; then `out` stays as it is.
fn put_text_tail(
    out: &mut Vec<u8>,
    text: &String,
    tag: u32,
    fixed: u32,
    str_offset: u32,
    cmd_size: u32,
) -> (r: Result<(), EncodeError>)
    ensures
        match r {
            Ok(_) => text_tail_error(text@, tag, fixed as int, str_offset, cmd_size) is None
                && final(out)@ == old(out)@ + text_tail(text@, fixed as int, str_offset, cmd_size),
            Err(e) => text_tail_error(text@, tag, fixed as int, str_offset, cmd_size) == Some(e)
                && final(out)@ == old(out)@,
        },
{
    if str_offset < fixed || cmd_size < str_offset {
        return Err(EncodeError::InvalidCommandSize(tag, cmd_size));
    }
    let room: u32 = cmd_size - str_offset;
    if text.as_str().as_bytes().len() > room as usize {
        return Err(EncodeError::NameTooLong(NameField::Path, room));
    }
    let mut tail: Vec<u8> = Vec::new();
    put_zeros(&mut tail, (str_offset - fixed) as usize);
    let field = fit_name(text, room as usize);
    put_bytes(&mut tail, field.as_slice());
    assert(tail@ =~= text_tail(text@, fixed as int, str_offset, cmd_size));
    put_bytes(out, tail.as_slice());
    Ok(())
}

/// The body of a path command, unless it cannot be written.
fn encode_path(c: &PathCommand, tag: u32, order: ByteOrder) -> (r: Result<Vec<u8>, EncodeError>)
    ensures
        match r {
            Ok(body) => text_tail_error(c@.path, tag, 12, c.str_offset, c.cmd_size) is None
                && body@ == path_body(c@, order),
            Err(e) => text_tail_error(c@.path, tag, 12, c.str_offset, c.cmd_size) == Some(e),
        },
{
    let ws: [u32; 1] = [c.str_offset];
    assert(ws@ =~= seq![c.str_offset]);
    let mut body = bytes_of_words(&ws, order);
    match put_text_tail(&mut body, &c.path, tag, 12, c.str_offset, c.cmd_size) {
        Ok(_) => Ok(body),
        Err(e) => Err(e),
    }
}

/// The body of a library command, unless it cannot be written.
fn encode_dylib(c: &DylibCommand, tag: u32, order: ByteOrder) -> (r: Result<Vec<u8>, EncodeError>)
    ensures
        match r {
            Ok(body) => text_tail_error(c@.name, tag, 24, c.str_offset, c.cmd_size) is None
                && body@ == dylib_body(c@, order),
            Err(e) => text_tail_error(c@.name, tag, 24, c.str_offset, c.cmd_size) == Some(e),
        },
{
    let ws: [u32; 4] = [
        c.str_offset,
        c.time_stamp,
        c.current_version,
        c.compatibility_version,
    ];
    assert(ws@ =~= seq![
        c.str_offset,
        c.time_stamp,
        c.current_version,
        c.compatibility_version,
    ]);
    let mut body = bytes_of_words(&ws, order);
    match put_text_tail(&mut body, &c.name, tag, 24, c.str_offset, c.cmd_size) {
        Ok(_) => Ok(body),
        Err(e) => Err(e),
    }
}

/// Appends the tool entries to `out`.
fn put_tools(out: &mut Vec<u8>, tools: &Vec<BuildToolVersion>, order: ByteOrder)
    ensures
        final(out)@ == old(out)@ + tools_bytes(tools@, order),
{
    let mut i: usize = 0;
    assert(out@ =~= old(out)@ + tools_bytes(tools@.take(0), order));
    while i < tools.len()
        invariant
            i <= tools.len(),
            out@ == old(out)@ + tools_bytes(tools@.take(i as int), order),
        decreases tools.len() - i,
    {
        let ws: [u32; 2] = [tools[i].tool, tools[i].version];
        assert(ws@ =~= seq![tools@[i as int].tool, tools@[i as int].version]);
        put_words(out, &ws, order);
        proof {
            assert(tools@.take(i + 1).drop_last() =~= tools@.take(i as int));
        }
        i += 1;
        assert(out@ =~= old(out)@ + tools_bytes(tools@.take(i as int), order));
    }
    assert(tools@.take(i as int) =~= tools@);
}

/// The body of a build version command, unless it is too large.
fn encode_build(b: &BuildVersion, order: ByteOrder) -> (r: Result<Vec<u8>, EncodeError>)
    ensures
        match r {
            Ok(body) => 24 + 8 * b@.build_tool_versions.len() <= u32::MAX && body@ == build_body(
                b@,
                order,
            ),
            Err(e) => 24 + 8 * b@.build_tool_versions.len() > u32::MAX && e
                == EncodeError::TooLarge,
        },
{
    let n: usize = b.build_tool_versions.len();
    if n > 536870908 {
        return Err(EncodeError::TooLarge);
    }
    let ws: [u32; 4] = [b.platform, b.minimum_os_version, b.bundle_sdk_version, n as u32];
    assert(ws@ =~= seq![
        b.platform,
        b.minimum_os_version,
        b.bundle_sdk_version,
        b@.build_tool_versions.len() as u32,
    ]);
    let mut body = bytes_of_words(&ws, order);
    put_tools(&mut body, &b.build_tool_versions, order);
    Ok(body)
}

impl LoadCommand {
    /// The tag of the command.
    pub fn tag(&self) -> (tag: u32)
        ensures
            tag == command_tag(self@),
    {
        match self {
            LoadCommand::Segment32(_) => LC_SEGMENT,
            LoadCommand::Segment64(_) => LC_SEGMENT_64,
            LoadCommand::EncryptionInfo(_) => LC_ENCRYPTION_INFO,
            LoadCommand::EncryptionInfo64(_) => LC_ENCRYPTION_INFO_64,
            LoadCommand::DyldInfoOnly(_) => LC_DYLD_INFO_ONLY,
            LoadCommand::FunctionStarts(_) => LC_FUNCTION_STARTS,
            LoadCommand::DataInCode(_) => LC_DATA_IN_CODE,
            LoadCommand::SymbolTable(_) => LC_SYMTAB,
            LoadCommand::RunPathSearchPath(_) => LC_RPATH,
            LoadCommand::IdentifyDylib(_) => LC_ID_DYLIB,
            LoadCommand::LoadDylib(_) => LC_LOAD_DYLIB,
            LoadCommand::LoadDynamicLinker(_) => LC_LOAD_DYLINKER,
            LoadCommand::MinimumOSVersion(_) => LC_VERSION_MIN_IPHONEOS,
            LoadCommand::BuildToolVersions(_) => LC_BUILD_VERSION,
            LoadCommand::Uuid(_) => LC_UUID,
            LoadCommand::SourceVersion(_) => LC_SOURCE_VERSION,
            LoadCommand::DynamicSymbolTable(_) => LC_DYSYMTAB,
            LoadCommand::MainEntryPoint(_) => LC_MAIN,
            LoadCommand::CodeSignature(_) => LC_CODE_SIGNATURE,
            LoadCommand::Unknown(tag, _) => *tag,
        }
    }
}

/// The body of a command, unless the command cannot be written.
fn encode_body(cmd: &LoadCommand, order: ByteOrder) -> (r: Result<Vec<u8>, EncodeError>)
    ensures
        match r {
            Ok(body) => command_encode_error(cmd@) is None && body@ == command_body(cmd@, order)
                && (cmd@ matches LoadCommandView::Uuid(octets) ==> octets.len() == 16),
            Err(e) => command_encode_error(cmd@) == Some(e),
        },
{
    match cmd {
        LoadCommand::Segment32(g) => encode_segment(g, order),
        LoadCommand::Segment64(g) => encode_segment(g, order),
        LoadCommand::EncryptionInfo(r) => Ok(r.to_bytes(order)),
        LoadCommand::EncryptionInfo64(r) => Ok(r.to_bytes(order)),
        LoadCommand::DyldInfoOnly(r) => Ok(r.to_bytes(order)),
        LoadCommand::FunctionStarts(r) => Ok(r.to_bytes(order)),
        LoadCommand::DataInCode(r) => Ok(r.to_bytes(order)),
        LoadCommand::SymbolTable(r) => Ok(r.to_bytes(order)),
        LoadCommand::RunPathSearchPath(c) => encode_path(c, LC_RPATH, order),
        LoadCommand::IdentifyDylib(c) => encode_dylib(c, LC_ID_DYLIB, order),
        LoadCommand::LoadDylib(c) => encode_dylib(c, LC_LOAD_DYLIB, order),
        LoadCommand::LoadDynamicLinker(c) => encode_path(c, LC_LOAD_DYLINKER, order),
        LoadCommand::MinimumOSVersion(r) => Ok(r.to_bytes(order)),
        LoadCommand::BuildToolVersions(b) => encode_build(b, order),
        LoadCommand::Uuid(id) => {
            let mut body: Vec<u8> = Vec::new();
            put_uuid(&mut body, id);
            assert(body@ =~= command_body(cmd@, order));
            Ok(body)
        },
        LoadCommand::SourceVersion(version) => {
            let mut body: Vec<u8> = Vec::new();
            put_u64(&mut body, *version, order);
            assert(body@ =~= command_body(cmd@, order));
            Ok(body)
        },
        LoadCommand::DynamicSymbolTable(r) => Ok(r.to_bytes(order)),
        LoadCommand::MainEntryPoint(r) => Ok(r.to_bytes(order)),
        LoadCommand::CodeSignature(r) => Ok(r.to_bytes(order)),
        LoadCommand::Unknown(_, data) => {
            if data.len() > 0xffff_fff7 {
                return Err(EncodeError::TooLarge);
            }
            let mut body: Vec<u8> = Vec::new();
            put_bytes(&mut body, data.as_slice());
            assert(body@ =~= command_body(cmd@, order));
            Ok(body)
        },
    }
}

/// Encodes a load command in the given byte order.
///
/// The result is the tag, the size and the body of the command; the size
/// is computed from what the command holds.  It is an error where a name
/// or a path does not fit its field, where a path does not start after the
/// fixed fields and within its command, and where the size of the command
/// does not fit 32 bits.
pub fn encode_command(cmd: &LoadCommand, order: ByteOrder) -> (r: Result<Vec<u8>, EncodeError>)
    ensures
        match r {
            Ok(b) => command_encode_error(cmd@) is None && b@ == command_bytes(cmd@, order)
                && b@.len() == command_len(cmd@),
            Err(e) => command_encode_error(cmd@) == Some(e),
        },
{
    let body = match encode_body(cmd, order) {
        Ok(body) => body,
        Err(e) => {
            return Err(e);
        },
    };
    proof {
        lemma_command_len(cmd@, order);
    }
    let size: u32 = (body.len() + 8) as u32;
    let head: [u32; 2] = [cmd.tag(), size];
    assert(head@ =~= seq![command_tag(cmd@), command_len(cmd@) as u32]);
    let mut out = bytes_of_words(&head, order);
    put_bytes(&mut out, body.as_slice());
    Ok(out)
}

} // verus!
