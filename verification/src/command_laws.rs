//! What holds of load commands: a command is read back from its own bytes.

use vstd::prelude::*;
use crate::command::{
    build_at, build_body, command_at, command_body, command_bytes, command_canonical,
    command_decoded, command_encode_error, command_len, command_names_fit, command_tag, command_wf,
    dylib_at, dylib_body, is_known_tag, min_len, path_at, path_body, section_pos, sections_at,
    sections_bytes, sections_canonical, sections_encode_error, segment_at, segment_body,
    segment_canonical, segment_len, segment_names_fit, segment_wf, segment_words, text_tail,
    text_tail_canonical, text_tail_wf, BuildVersionView, DylibCommandView, LoadCommandView,
    PathCommandView, SegmentView,
};
use crate::errors::DecodeError;
use crate::command_write::{lemma_command_len, lemma_sections_len};
use crate::names::{lemma_field_kept, lemma_name_round_trip, name_at, name_bytes, name_fits};
use crate::payload::{
    lemma_tools_kept, lemma_tools_round_trip, tools_bytes, DyldInfo, DynamicSymbolTable,
    EncryptionInfo, EncryptionInfo64, EntryPoint, FileRange, MinimumOsVersion, SymbolTable,
};
use crate::section::{
    addr_len, lemma_section_kept, lemma_section_round_trip, section_bytes, section_canonical,
    section_names_fit, section_wf, Address, SectionView,
};
use crate::wire::{
    holds_at, lemma_holds_split, lemma_signed_round_trip, lemma_subrange_join, lemma_u64_kept,
    lemma_u64_round_trip, lemma_words_kept, lemma_words_len, lemma_words_round_trip, u32_at,
    words_at, words_bytes, zeros, ByteOrder,
};

verus! {

/// A list of well-formed sections can be written.
pub proof fn lemma_sections_wf_no_error<A: Address>(sections: Seq<SectionView<A>>)
    requires
        forall|i: int| 0 <= i < sections.len() ==> section_wf(#[trigger] sections[i]),
    ensures
        sections_encode_error(sections) is None,
    decreases sections.len(),
{
    if sections.len() > 0 {
        let front = sections.drop_last();
        assert forall|i: int| 0 <= i < front.len() implies section_wf(#[trigger] front[i]) by {
            assert(front[i] == sections[i]);
        }
        lemma_sections_wf_no_error(front);
        assert(section_wf(sections[sections.len() - 1]));
    }
}

/// A well-formed command can be written.
pub proof fn lemma_wf_no_error(v: LoadCommandView)
    requires
        command_wf(v),
    ensures
        command_encode_error(v) is None,
{
    match v {
        LoadCommandView::Segment32(g) => {
            lemma_sections_wf_no_error(g.sections);
        },
        LoadCommandView::Segment64(g) => {
            lemma_sections_wf_no_error(g.sections);
        },
        _ => {},
    }
}

/// A list of well-formed sections is read back from its bytes.
pub proof fn lemma_sections_round_trip<A: Address>(
    sections: Seq<SectionView<A>>,
    s: Seq<u8>,
    p: int,
    order: ByteOrder,
)
    requires
        forall|i: int| 0 <= i < sections.len() ==> section_wf(#[trigger] sections[i]),
        holds_at(s, p, sections_bytes(sections, order)),
    ensures
        sections_at::<A>(s, p, sections.len(), order) == sections,
    decreases sections.len(),
{
    if sections.len() > 0 {
        let front = sections.drop_last();
        let last = sections.last();
        assert forall|i: int| 0 <= i < front.len() implies section_wf(#[trigger] front[i]) by {
            assert(front[i] == sections[i]);
        }
        lemma_sections_len(front, order);
        lemma_holds_split(s, p, sections_bytes(front, order), section_bytes(last, order));
        lemma_sections_round_trip(front, s, p, order);
        lemma_section_round_trip(last, s, section_pos::<A>(p, front.len() as int), order);
        assert forall|i: int| 0 <= i < sections.len() implies sections_at::<A>(
            s,
            p,
            sections.len(),
            order,
        )[i] == sections[i] by {
            if i < front.len() {
                assert(sections_at::<A>(s, p, front.len(), order)[i] == front[i]);
            }
        }
    }
    assert(sections_at::<A>(s, p, sections.len(), order) =~= sections);
}

/// A well-formed segment is read back from the bytes of its command,
/// which starts at `p`.
pub proof fn lemma_segment_round_trip<A: Address>(
    v: SegmentView<A>,
    s: Seq<u8>,
    p: int,
    order: ByteOrder,
)
    requires
        segment_wf(v),
        holds_at(s, p + 8, segment_body(v, order)),
    ensures
        segment_at::<A>(s, p, segment_len::<A>(v.sections.len()) as u32, order) == Some(v),
{
    let w = addr_len::<A>();
    let e1 = name_bytes(v.segment_name, 16);
    let e2 = e1 + v.vm_addr.bytes(order);
    let e3 = e2 + v.vm_size.bytes(order);
    let e4 = e3 + v.file_offset.bytes(order);
    let e5 = e4 + v.file_size.bytes(order);
    let e6 = e5 + words_bytes(segment_words(v), order);
    v.vm_addr.lemma_len(order);
    v.vm_size.lemma_len(order);
    v.file_offset.lemma_len(order);
    v.file_size.lemma_len(order);
    lemma_words_len(segment_words(v), order);
    lemma_holds_split(s, p + 8, e6, sections_bytes(v.sections, order));
    lemma_holds_split(s, p + 8, e5, words_bytes(segment_words(v), order));
    lemma_holds_split(s, p + 8, e4, v.file_size.bytes(order));
    lemma_holds_split(s, p + 8, e3, v.file_offset.bytes(order));
    lemma_holds_split(s, p + 8, e2, v.vm_size.bytes(order));
    lemma_holds_split(s, p + 8, e1, v.vm_addr.bytes(order));
    lemma_name_round_trip(s, p + 8, v.segment_name, 16);
    v.vm_addr.lemma_round_trip(s, p + 24, order);
    v.vm_size.lemma_round_trip(s, p + 24 + w, order);
    v.file_offset.lemma_round_trip(s, p + 24 + 2 * w, order);
    v.file_size.lemma_round_trip(s, p + 24 + 3 * w, order);
    let t = p + 24 + 4 * w;
    lemma_words_round_trip(s, t, segment_words(v), order);
    lemma_sections_round_trip(v.sections, s, t + 16, order);
    lemma_signed_round_trip(v.max_prot, 0);
    lemma_signed_round_trip(v.init_prot, 0);
    let ws = words_at(s, t, 4, order);
    assert(ws == segment_words(v));
    assert(ws[2] as nat == v.sections.len());
}

/// The text at the end of a command is read back from the bytes of the
/// command, which starts at `p`.
pub proof fn lemma_text_tail_round_trip(
    text: Seq<char>,
    fixed: int,
    str_offset: u32,
    cmd_size: u32,
    s: Seq<u8>,
    p: int,
)
    requires
        0 <= fixed,
        text_tail_wf(text, fixed, str_offset, cmd_size),
        holds_at(s, p + fixed, text_tail(text, fixed, str_offset, cmd_size)),
    ensures
        name_at(s, p + str_offset, cmd_size - str_offset) == text,
{
    lemma_holds_split(
        s,
        p + fixed,
        zeros((str_offset - fixed) as nat),
        name_bytes(text, (cmd_size - str_offset) as nat),
    );
    lemma_name_round_trip(s, p + str_offset, text, (cmd_size - str_offset) as nat);
}

/// A well-formed path command is read back from the bytes of its command,
/// which starts at `p`.
pub proof fn lemma_path_round_trip(c: PathCommandView, s: Seq<u8>, p: int, order: ByteOrder)
    requires
        text_tail_wf(c.path, 12, c.str_offset, c.cmd_size),
        holds_at(s, p + 8, path_body(c, order)),
    ensures
        path_at(s, p, c.cmd_size, order) == Some(c),
{
    let ws = seq![c.str_offset];
    lemma_words_len(ws, order);
    lemma_holds_split(
        s,
        p + 8,
        words_bytes(ws, order),
        text_tail(c.path, 12, c.str_offset, c.cmd_size),
    );
    lemma_words_round_trip(s, p + 8, ws, order);
    assert(words_at(s, p + 8, 1, order)[0] == ws[0]);
    lemma_text_tail_round_trip(c.path, 12, c.str_offset, c.cmd_size, s, p);
}

/// A well-formed library command is read back from the bytes of its
/// command, which starts at `p`.
pub proof fn lemma_dylib_round_trip(c: DylibCommandView, s: Seq<u8>, p: int, order: ByteOrder)
    requires
        text_tail_wf(c.name, 24, c.str_offset, c.cmd_size),
        holds_at(s, p + 8, dylib_body(c, order)),
    ensures
        dylib_at(s, p, c.cmd_size, order) == Some(c),
{
    let ws = seq![c.str_offset, c.time_stamp, c.current_version, c.compatibility_version];
    lemma_words_len(ws, order);
    lemma_holds_split(
        s,
        p + 8,
        words_bytes(ws, order),
        text_tail(c.name, 24, c.str_offset, c.cmd_size),
    );
    lemma_words_round_trip(s, p + 8, ws, order);
    lemma_text_tail_round_trip(c.name, 24, c.str_offset, c.cmd_size, s, p);
}

/// A build version that fits its command is read back from the bytes of
/// its command, which starts at `p`.
pub proof fn lemma_build_round_trip(b: BuildVersionView, s: Seq<u8>, p: int, order: ByteOrder)
    requires
        24 + 8 * b.build_tool_versions.len() <= u32::MAX,
        holds_at(s, p + 8, build_body(b, order)),
    ensures
        build_at(s, p, (24 + 8 * b.build_tool_versions.len()) as u32, order) == Some(b),
{
    let ws = seq![
        b.platform,
        b.minimum_os_version,
        b.bundle_sdk_version,
        b.build_tool_versions.len() as u32,
    ];
    lemma_words_len(ws, order);
    lemma_holds_split(s, p + 8, words_bytes(ws, order), tools_bytes(b.build_tool_versions, order));
    lemma_words_round_trip(s, p + 8, ws, order);
    lemma_tools_round_trip(b.build_tool_versions, s, p + 24, order);
    assert(words_at(s, p + 8, 4, order)[3] == ws[3]);
}

/// The body of a well-formed command is read back from the bytes of the
/// command, which starts at `p`.
pub proof fn lemma_body_round_trip(v: LoadCommandView, s: Seq<u8>, p: int, order: ByteOrder)
    requires
        command_wf(v),
        command_len(v) <= u32::MAX,
        holds_at(s, p + 8, command_body(v, order)),
    ensures
        command_at(s, p, command_tag(v), command_len(v) as u32, order) == Some(v),
{
    reveal(command_at);
    let tag = command_tag(v);
    let size = command_len(v) as u32;
    match v {
        LoadCommandView::Segment32(g) => {
            lemma_segment_round_trip(g, s, p, order);
        },
        LoadCommandView::Segment64(g) => {
            lemma_segment_round_trip(g, s, p, order);
        },
        LoadCommandView::EncryptionInfo(r) => {
            lemma_words_round_trip(s, p + 8, r.words(), order);
        },
        LoadCommandView::EncryptionInfo64(r) => {
            lemma_words_round_trip(s, p + 8, r.words(), order);
        },
        LoadCommandView::DyldInfoOnly(r) => {
            lemma_words_round_trip(s, p + 8, r.words(), order);
        },
        LoadCommandView::FunctionStarts(r) => {
            lemma_words_round_trip(s, p + 8, r.words(), order);
        },
        LoadCommandView::DataInCode(r) => {
            lemma_words_round_trip(s, p + 8, r.words(), order);
        },
        LoadCommandView::SymbolTable(r) => {
            lemma_words_round_trip(s, p + 8, r.words(), order);
        },
        LoadCommandView::RunPathSearchPath(c) => {
            lemma_path_round_trip(c, s, p, order);
        },
        LoadCommandView::IdentifyDylib(c) => {
            lemma_dylib_round_trip(c, s, p, order);
        },
        LoadCommandView::LoadDylib(c) => {
            lemma_dylib_round_trip(c, s, p, order);
        },
        LoadCommandView::LoadDynamicLinker(c) => {
            lemma_path_round_trip(c, s, p, order);
        },
        LoadCommandView::MinimumOSVersion(r) => {
            lemma_words_round_trip(s, p + 8, r.words(), order);
        },
        LoadCommandView::BuildToolVersions(b) => {
            lemma_build_round_trip(b, s, p, order);
        },
        LoadCommandView::Uuid(octets) => {
            assert(s.subrange(p + 8, p + 24) =~= octets);
        },
        LoadCommandView::SourceVersion(version) => {
            lemma_u64_round_trip(s, p + 8, version, order);
        },
        LoadCommandView::DynamicSymbolTable(r) => {
            lemma_words_round_trip(s, p + 8, r.words(), order);
        },
        LoadCommandView::MainEntryPoint(r) => {
            r.lemma_round_trip(s, p + 8, order);
        },
        LoadCommandView::CodeSignature(r) => {
            lemma_words_round_trip(s, p + 8, r.words(), order);
        },
        LoadCommandView::Unknown(_, data) => {
            assert(s.subrange(p + 8, p + size) =~= data);
        },
    }
}

/// Decoding yields a command where the tag and the size in the buffer are
/// those of the command, the size lies within the buffer, and the layout
/// read under them is the command.
proof fn lemma_decoded_from_parts(v: LoadCommandView, s: Seq<u8>, p: int, order: ByteOrder)
    requires
        0 <= p,
        p + command_len(v) <= s.len(),
        8 <= command_len(v) <= u32::MAX,
        min_len(command_tag(v)) <= command_len(v),
        u32_at(s, p, order) == command_tag(v),
        u32_at(s, p + 4, order) == command_len(v),
        command_at(s, p, command_tag(v), command_len(v) as u32, order) == Some(v),
    ensures
        command_decoded(s, p, order) == Ok::<(LoadCommandView, int), DecodeError>(
            (v, p + command_len(v)),
        ),
{
    reveal(command_decoded);
}

/// The tag and the size of a command are read back from its prefix.
proof fn lemma_head_round_trip(
    tag: u32,
    size: u32,
    rest: Seq<u8>,
    s: Seq<u8>,
    p: int,
    order: ByteOrder,
)
    requires
        holds_at(s, p, words_bytes(seq![tag, size], order) + rest),
    ensures
        u32_at(s, p, order) == tag,
        u32_at(s, p + 4, order) == size,
        holds_at(s, p + 8, rest),
{
    let head = seq![tag, size];
    lemma_words_len(head, order);
    lemma_holds_split(s, p, words_bytes(head, order), rest);
    lemma_words_round_trip(s, p, head, order);
    let got = words_at(s, p, 2, order);
    assert(got[0] == head[0]);
    assert(got[1] == head[1]);
}

/// A well-formed command is read back from its own bytes, wherever they
/// lie in a buffer and whatever follows them: decoding yields the command
/// and the position after its bytes.
pub proof fn lemma_command_round_trip(v: LoadCommandView, s: Seq<u8>, p: int, order: ByteOrder)
    requires
        command_wf(v),
        holds_at(s, p, command_bytes(v, order)),
    ensures
        command_decoded(s, p, order) == Ok::<(LoadCommandView, int), DecodeError>(
            (v, p + command_len(v)),
        ),
{
    lemma_wf_no_error(v);
    lemma_command_len(v, order);
    lemma_head_round_trip(
        command_tag(v),
        command_len(v) as u32,
        command_body(v, order),
        s,
        p,
        order,
    );
    lemma_body_round_trip(v, s, p, order);
    lemma_min_len(v);
    lemma_decoded_from_parts(v, s, p, order);
}

/// Opaque pass-through: a command with a tag outside the table and any
/// payload that fits the 32-bit size is read back from its own bytes with
/// the same tag and the same payload.
pub proof fn law_unknown_round_trip(tag: u32, data: Seq<u8>, order: ByteOrder)
    requires
        !is_known_tag(tag),
        8 + data.len() <= u32::MAX,
    ensures
        command_decoded(command_bytes(LoadCommandView::Unknown(tag, data), order), 0, order)
            == Ok::<(LoadCommandView, int), DecodeError>(
            (LoadCommandView::Unknown(tag, data), 8 + data.len() as int),
        ),
{
    let v = LoadCommandView::Unknown(tag, data);
    let s = command_bytes(v, order);
    assert(holds_at(s, 0, s));
    lemma_command_round_trip(v, s, 0, order);
}

/// A segment that was decoded is well-formed where its names fit, and
/// takes the size that its command declares.
pub proof fn lemma_segment_decoded<A: Address>(s: Seq<u8>, p: int, size: u32, order: ByteOrder)
    requires
        segment_at::<A>(s, p, size, order) is Some,
        segment_names_fit(segment_at::<A>(s, p, size, order)->0),
    ensures
        segment_wf(segment_at::<A>(s, p, size, order)->0),
        segment_len::<A>(segment_at::<A>(s, p, size, order)->0.sections.len()) == size,
{
    let g = segment_at::<A>(s, p, size, order)->0;
    assert forall|i: int| 0 <= i < g.sections.len() implies section_wf(
        #[trigger] g.sections[i],
    ) by {
        assert(section_names_fit(g.sections[i]));
    }
}

/// A command that was read under its tag and its size is well-formed
/// where its texts fit, has that tag, and takes that size.
pub proof fn lemma_command_at_wf(s: Seq<u8>, p: int, tag: u32, size: u32, order: ByteOrder)
    requires
        0 <= p,
        p + size <= s.len(),
        min_len(tag) <= size,
        command_at(s, p, tag, size, order) is Some,
        command_names_fit(command_at(s, p, tag, size, order)->0),
    ensures
        command_wf(command_at(s, p, tag, size, order)->0),
        command_tag(command_at(s, p, tag, size, order)->0) == tag,
        command_len(command_at(s, p, tag, size, order)->0) == size,
{
    reveal(command_at);
    let c = command_at(s, p, tag, size, order)->0;
    match c {
        LoadCommandView::Segment32(_) => {
            lemma_segment_decoded::<u32>(s, p, size, order);
        },
        LoadCommandView::Segment64(_) => {
            lemma_segment_decoded::<u64>(s, p, size, order);
        },
        _ => {},
    }
}

/// A command that was decoded is well-formed where its texts fit, and
/// ends where its length says.
pub proof fn lemma_command_decoded_wf(s: Seq<u8>, p: int, order: ByteOrder)
    requires
        command_decoded(s, p, order) is Ok,
        command_names_fit(command_decoded(s, p, order)->Ok_0.0),
    ensures
        command_wf(command_decoded(s, p, order)->Ok_0.0),
        command_decoded(s, p, order)->Ok_0.1 == p + command_len(
            command_decoded(s, p, order)->Ok_0.0,
        ),
{
    reveal(command_decoded);
    let tag = u32_at(s, p, order);
    let size = u32_at(s, p + 4, order);
    lemma_command_at_wf(s, p, tag, size, order);
}

/// Writing the sections that are read from a table gives the bytes of
/// the table, where their name fields are written as the encoder writes
/// them; and the sections are well-formed.
pub proof fn lemma_sections_kept<A: Address>(s: Seq<u8>, p: int, n: nat, order: ByteOrder)
    requires
        0 <= p,
        section_pos::<A>(p, n as int) <= s.len(),
        sections_canonical::<A>(s, p, n),
    ensures
        sections_bytes(sections_at::<A>(s, p, n, order), order) == s.subrange(
            p,
            section_pos::<A>(p, n as int),
        ),
        forall|i: int| 0 <= i < n ==> section_wf(#[trigger] sections_at::<A>(s, p, n, order)[i]),
    decreases n,
{
    let all = sections_at::<A>(s, p, n, order);
    if n == 0 {
        assert(sections_bytes(all, order) =~= s.subrange(p, p));
    } else {
        let q = section_pos::<A>(p, n - 1);
        assert(all.drop_last() =~= sections_at::<A>(s, p, (n - 1) as nat, order));
        assert forall|i: int| 0 <= i < n - 1 implies section_canonical(
            s,
            #[trigger] section_pos::<A>(p, i),
        ) by {}
        lemma_sections_kept::<A>(s, p, (n - 1) as nat, order);
        assert(section_canonical(s, section_pos::<A>(p, n - 1)));
        lemma_section_kept::<A>(s, q, order);
        lemma_subrange_join(s, p, q, section_pos::<A>(p, n as int));
        assert forall|i: int| 0 <= i < n implies section_wf(#[trigger] all[i]) by {
            if i < n - 1 {
                assert(all[i] == sections_at::<A>(s, p, (n - 1) as nat, order)[i]);
            }
        }
    }
}

/// Writing the segment that is read from a command gives the bytes of
/// the command behind its prefix, where its name fields are written as
/// the encoder writes them; and the segment is well-formed.
pub proof fn lemma_segment_kept<A: Address>(s: Seq<u8>, p: int, size: u32, order: ByteOrder)
    requires
        0 <= p,
        p + size <= s.len(),
        segment_at::<A>(s, p, size, order) is Some,
        segment_canonical::<A>(s, p, order),
    ensures
        segment_wf(segment_at::<A>(s, p, size, order)->0),
        segment_body(segment_at::<A>(s, p, size, order)->0, order) == s.subrange(p + 8, p + size),
{
    let g = segment_at::<A>(s, p, size, order)->0;
    let w = addr_len::<A>();
    let t = p + 24 + 4 * w;
    let ws = words_at(s, t, 4, order);
    let n = ws[2] as nat;
    lemma_field_kept(s, p + 8, 16);
    A::lemma_kept(s, p + 24, order);
    A::lemma_kept(s, p + 24 + w, order);
    A::lemma_kept(s, p + 24 + 2 * w, order);
    A::lemma_kept(s, p + 24 + 3 * w, order);
    lemma_words_kept(s, t, 4, order);
    lemma_signed_round_trip(0, ws[0]);
    lemma_signed_round_trip(0, ws[1]);
    assert(segment_words(g) =~= ws);
    lemma_sections_kept::<A>(s, t + 16, n, order);
    lemma_subrange_join(s, p + 8, p + 24, p + 24 + w);
    lemma_subrange_join(s, p + 8, p + 24 + w, p + 24 + 2 * w);
    lemma_subrange_join(s, p + 8, p + 24 + 2 * w, p + 24 + 3 * w);
    lemma_subrange_join(s, p + 8, p + 24 + 3 * w, t);
    lemma_subrange_join(s, p + 8, t, t + 16);
    lemma_subrange_join(s, p + 8, t + 16, p + size);
}

/// Writing the text that is read from the end of a command gives the
/// bytes of the command behind its fixed fields, where they are written
/// as the encoder writes them; and the text fits.
pub proof fn lemma_text_tail_kept(s: Seq<u8>, p: int, fixed: int, order: ByteOrder)
    requires
        0 <= p,
        12 <= fixed,
        p + u32_at(s, p + 4, order) <= s.len(),
        fixed <= u32_at(s, p + 8, order) <= u32_at(s, p + 4, order),
        text_tail_canonical(s, p, fixed, order),
    ensures
        ({
            let size = u32_at(s, p + 4, order);
            let str_offset = u32_at(s, p + 8, order);
            let text = name_at(s, p + str_offset, size - str_offset);
            &&& name_fits(text, (size - str_offset) as nat)
            &&& text_tail(text, fixed, str_offset, size) == s.subrange(p + fixed, p + size)
        }),
{
    let size = u32_at(s, p + 4, order);
    let str_offset = u32_at(s, p + 8, order);
    lemma_field_kept(s, p + str_offset, (size - str_offset) as nat);
    assert(zeros((str_offset - fixed) as nat) =~= s.subrange(p + fixed, p + str_offset));
    lemma_subrange_join(s, p + fixed, p + str_offset, p + size);
}

/// Writing the path command that is read from a command gives the bytes
/// of the command behind its prefix, where they are written as the
/// encoder writes them; and its path fits.
pub proof fn lemma_path_kept(s: Seq<u8>, p: int, order: ByteOrder)
    requires
        0 <= p,
        p + u32_at(s, p + 4, order) <= s.len(),
        path_at(s, p, u32_at(s, p + 4, order), order) is Some,
        text_tail_canonical(s, p, 12, order),
    ensures
        ({
            let c = path_at(s, p, u32_at(s, p + 4, order), order)->0;
            &&& text_tail_wf(c.path, 12, c.str_offset, c.cmd_size)
            &&& path_body(c, order) == s.subrange(p + 8, p + u32_at(s, p + 4, order))
        }),
{
    let size = u32_at(s, p + 4, order);
    let c = path_at(s, p, size, order)->0;
    lemma_text_tail_kept(s, p, 12, order);
    lemma_words_kept(s, p + 8, 1, order);
    assert(seq![c.str_offset] =~= words_at(s, p + 8, 1, order));
    lemma_subrange_join(s, p + 8, p + 12, p + size);
}

/// Writing the library command that is read from a command gives the
/// bytes of the command behind its prefix, where they are written as the
/// encoder writes them; and its name fits.
pub proof fn lemma_dylib_kept(s: Seq<u8>, p: int, order: ByteOrder)
    requires
        0 <= p,
        p + u32_at(s, p + 4, order) <= s.len(),
        dylib_at(s, p, u32_at(s, p + 4, order), order) is Some,
        text_tail_canonical(s, p, 24, order),
    ensures
        ({
            let c = dylib_at(s, p, u32_at(s, p + 4, order), order)->0;
            &&& text_tail_wf(c.name, 24, c.str_offset, c.cmd_size)
            &&& dylib_body(c, order) == s.subrange(p + 8, p + u32_at(s, p + 4, order))
        }),
{
    let size = u32_at(s, p + 4, order);
    let c = dylib_at(s, p, size, order)->0;
    let ws = words_at(s, p + 8, 4, order);
    assert(ws[0] == u32_at(s, p + 8, order));
    lemma_text_tail_kept(s, p, 24, order);
    lemma_words_kept(s, p + 8, 4, order);
    assert(seq![c.str_offset, c.time_stamp, c.current_version, c.compatibility_version] =~= ws);
    lemma_subrange_join(s, p + 8, p + 24, p + size);
}

/// Writing the build version that is read from a command gives the bytes
/// of the command behind its prefix.
pub proof fn lemma_build_kept(s: Seq<u8>, p: int, size: u32, order: ByteOrder)
    requires
        0 <= p,
        p + size <= s.len(),
        build_at(s, p, size, order) is Some,
    ensures
        24 + 8 * build_at(s, p, size, order)->0.build_tool_versions.len() == size,
        build_body(build_at(s, p, size, order)->0, order) == s.subrange(p + 8, p + size),
{
    let b = build_at(s, p, size, order)->0;
    let ws = words_at(s, p + 8, 4, order);
    lemma_words_kept(s, p + 8, 4, order);
    assert(seq![
        b.platform,
        b.minimum_os_version,
        b.bundle_sdk_version,
        b.build_tool_versions.len() as u32,
    ] =~= ws);
    lemma_tools_kept(s, p + 24, ws[3] as nat, order);
    lemma_subrange_join(s, p + 8, p + 24, p + size);
}

/// Writing the body of the command that is read under its tag and its
/// size gives the bytes of the command behind its prefix, where the
/// command is written as the encoder writes it; and the command is
/// well-formed.
pub proof fn lemma_body_kept(s: Seq<u8>, p: int, order: ByteOrder)
    requires
        0 <= p,
        p + u32_at(s, p + 4, order) <= s.len(),
        min_len(u32_at(s, p, order)) <= u32_at(s, p + 4, order),
        command_at(s, p, u32_at(s, p, order), u32_at(s, p + 4, order), order) is Some,
        command_canonical(s, p, order),
    ensures
        ({
            let tag = u32_at(s, p, order);
            let size = u32_at(s, p + 4, order);
            let c = command_at(s, p, tag, size, order)->0;
            &&& command_wf(c)
            &&& command_tag(c) == tag
            &&& command_len(c) == size
            &&& command_body(c, order) == s.subrange(p + 8, p + size)
        }),
{
    reveal(command_at);
    let tag = u32_at(s, p, order);
    let size = u32_at(s, p + 4, order);
    let c = command_at(s, p, tag, size, order)->0;
    match c {
        LoadCommandView::Segment32(_) => {
            lemma_segment_kept::<u32>(s, p, size, order);
        },
        LoadCommandView::Segment64(_) => {
            lemma_segment_kept::<u64>(s, p, size, order);
        },
        LoadCommandView::EncryptionInfo(_) => {
            EncryptionInfo::lemma_kept(s, p + 8, order);
        },
        LoadCommandView::EncryptionInfo64(_) => {
            EncryptionInfo64::lemma_kept(s, p + 8, order);
        },
        LoadCommandView::DyldInfoOnly(_) => {
            DyldInfo::lemma_kept(s, p + 8, order);
        },
        LoadCommandView::FunctionStarts(_) => {
            FileRange::lemma_kept(s, p + 8, order);
        },
        LoadCommandView::DataInCode(_) => {
            FileRange::lemma_kept(s, p + 8, order);
        },
        LoadCommandView::SymbolTable(_) => {
            SymbolTable::lemma_kept(s, p + 8, order);
        },
        LoadCommandView::RunPathSearchPath(_) => {
            lemma_path_kept(s, p, order);
        },
        LoadCommandView::LoadDynamicLinker(_) => {
            lemma_path_kept(s, p, order);
        },
        LoadCommandView::IdentifyDylib(_) => {
            lemma_dylib_kept(s, p, order);
        },
        LoadCommandView::LoadDylib(_) => {
            lemma_dylib_kept(s, p, order);
        },
        LoadCommandView::MinimumOSVersion(_) => {
            MinimumOsVersion::lemma_kept(s, p + 8, order);
        },
        LoadCommandView::BuildToolVersions(_) => {
            lemma_build_kept(s, p, size, order);
        },
        LoadCommandView::Uuid(_) => {},
        LoadCommandView::SourceVersion(_) => {
            lemma_u64_kept(s, p + 8, order);
        },
        LoadCommandView::DynamicSymbolTable(_) => {
            DynamicSymbolTable::lemma_kept(s, p + 8, order);
        },
        LoadCommandView::MainEntryPoint(_) => {
            EntryPoint::lemma_kept(s, p + 8, order);
        },
        LoadCommandView::CodeSignature(_) => {
            FileRange::lemma_kept(s, p + 8, order);
        },
        LoadCommandView::Unknown(_, _) => {},
    }
}

/// Round trip on bytes: writing the command that was decoded at a position
/// gives the bytes that it was decoded from, where they are written as
/// the encoder writes them; and the command is well-formed.
pub proof fn lemma_command_kept(s: Seq<u8>, p: int, order: ByteOrder)
    requires
        command_decoded(s, p, order) is Ok,
        command_canonical(s, p, order),
    ensures
        command_wf(command_decoded(s, p, order)->Ok_0.0),
        command_decoded(s, p, order)->Ok_0.1 == p + command_len(
            command_decoded(s, p, order)->Ok_0.0,
        ),
        command_bytes(command_decoded(s, p, order)->Ok_0.0, order) == s.subrange(
            p,
            command_decoded(s, p, order)->Ok_0.1,
        ),
{
    reveal(command_decoded);
    let size = u32_at(s, p + 4, order);
    lemma_body_kept(s, p, order);
    lemma_words_kept(s, p, 2, order);
    let c = command_decoded(s, p, order)->Ok_0.0;
    assert(seq![command_tag(c), command_len(c) as u32] =~= words_at(s, p, 2, order));
    lemma_subrange_join(s, p, p + 8, p + size);
}

/// Opaque pass-through on bytes: a command with a tag outside the table
/// is written back byte for byte as it was decoded.
pub proof fn law_unknown_bytes_kept(s: Seq<u8>, p: int, order: ByteOrder)
    requires
        command_decoded(s, p, order) is Ok,
        !is_known_tag(u32_at(s, p, order)),
    ensures
        command_decoded(s, p, order)->Ok_0.0 is Unknown,
        command_decoded(s, p, order)->Ok_0.0->Unknown_0 == u32_at(s, p, order),
        command_bytes(command_decoded(s, p, order)->Ok_0.0, order) == s.subrange(
            p,
            command_decoded(s, p, order)->Ok_0.1,
        ),
{
    lemma_command_kept(s, p, order);
    reveal(command_decoded);
    reveal(command_at);
}

/// A command that was decoded lies within the buffer and takes at least
/// the eight bytes of its prefix.
pub proof fn lemma_decoded_bounds(s: Seq<u8>, p: int, order: ByteOrder)
    requires
        command_decoded(s, p, order) is Ok,
    ensures
        0 <= p,
        p + 8 <= command_decoded(s, p, order)->Ok_0.1 <= s.len(),
{
    reveal(command_decoded);
}

/// The length of a command covers the fixed fields of its tag.
pub proof fn lemma_min_len(v: LoadCommandView)
    requires
        command_wf(v),
    ensures
        min_len(command_tag(v)) <= command_len(v),
{
}

} // verus!
