//! The header of a single image and its load commands.
//!
//! The number of commands and their total size are fields of the wire
//! format, not of the value: they are computed from the commands when a
//! header is written, and checked against the commands when one is read.

use vstd::prelude::*;
use crate::command::{
    command_bytes, command_canonical, command_decoded, command_encode_error, command_len,
    command_names_fit, command_wf, LoadCommand, LoadCommandView,
};
use crate::command_read::{command_result_view, decode_command};
use crate::command_write::encode_command;
use crate::errors::{DecodeError, EncodeError};
use crate::tags::{CpuSubtype, CpuType, FileType, MagicKind};
use crate::wire::{
    bytes_of_words, left, put_bytes, put_words, read_u32, u32_at, words_at, words_bytes, ByteOrder,
};

verus! {

/// The header of a single image, with its load commands.
#[derive(Clone, Debug, PartialEq, Eq)]
pub struct MachHeader {
    /// The magic number; it fixes the address width and the byte order.
    pub magic: MagicKind,
    /// The type of processor.
    pub cpu_type: CpuType,
    /// The variant of the processor.
    pub cpu_subtype: CpuSubtype,
    /// What the file is.
    pub file_type: FileType,
    /// Flags.
    pub flags: u32,
    /// Reserved; present exactly in headers of 64-bit images.
    pub reserved: Option<u32>,
    /// The load commands, in their order.
    pub commands: Vec<LoadCommand>,
}

/// The mathematical value of a [`MachHeader`].
pub struct MachHeaderView {
    pub magic: MagicKind,
    pub cpu_type: CpuType,
    pub cpu_subtype: CpuSubtype,
    pub file_type: FileType,
    pub flags: u32,
    pub reserved: Option<u32>,
    pub commands: Seq<LoadCommandView>,
}

/// The mathematical values of a list of commands.
pub open spec fn command_views(commands: Seq<LoadCommand>) -> Seq<LoadCommandView> {
    Seq::new(commands.len(), |i: int| commands[i]@)
}

impl View for MachHeader {
    type V = MachHeaderView;

    open spec fn view(&self) -> MachHeaderView {
        MachHeaderView {
            magic: self.magic,
            cpu_type: self.cpu_type,
            cpu_subtype: self.cpu_subtype,
            file_type: self.file_type,
            flags: self.flags,
            reserved: self.reserved,
            commands: command_views(self.commands@),
        }
    }
}

/// The bytes of a list of commands.
pub open spec fn commands_bytes(commands: Seq<LoadCommandView>, order: ByteOrder) -> Seq<u8>
    decreases commands.len(),
{
    if commands.len() == 0 {
        Seq::empty()
    } else {
        commands_bytes(commands.drop_last(), order) + command_bytes(commands.last(), order)
    }
}

/// The sum of the lengths of the commands.
pub open spec fn commands_len(commands: Seq<LoadCommandView>) -> nat
    decreases commands.len(),
{
    if commands.len() == 0 {
        0
    } else {
        commands_len(commands.drop_last()) + command_len(commands.last())
    }
}

/// Why a list of commands cannot be written, if it cannot: the error of
/// its first command that has one.
pub open spec fn commands_encode_error(commands: Seq<LoadCommandView>) -> Option<EncodeError>
    decreases commands.len(),
{
    if commands.len() == 0 {
        None
    } else {
        match commands_encode_error(commands.drop_last()) {
            Some(e) => Some(e),
            None => command_encode_error(commands.last()),
        }
    }
}

/// The number of bytes of a header before its commands: 32 for a 64-bit
/// image, 28 otherwise.
pub open spec fn mach_head_len(magic: MagicKind) -> nat {
    if magic.is_wide() {
        32
    } else {
        28
    }
}

/// The 32-bit fields of a header after its magic number.  The number of
/// commands and their total size are those of the commands of the value.
/// A 64-bit header without its reserved word is written with zero there.
pub open spec fn mach_words(v: MachHeaderView) -> Seq<u32> {
    let fixed = seq![
        v.cpu_type.spec_code(),
        v.cpu_subtype.spec_code(),
        v.file_type.spec_code(),
        v.commands.len() as u32,
        commands_len(v.commands) as u32,
        v.flags,
    ];
    if v.magic.is_wide() {
        fixed.push(
            match v.reserved {
                Some(r) => r,
                None => 0u32,
            },
        )
    } else {
        fixed
    }
}

/// The bytes of a header and its commands.  The magic number is written
/// most significant byte first; everything else in the order that the
/// magic number fixes.
#[verifier::opaque]
pub open spec fn mach_bytes(v: MachHeaderView) -> Seq<u8> {
    words_bytes(seq![v.magic.spec_code()], ByteOrder::Big) + words_bytes(
        mach_words(v),
        v.magic.order(),
    ) + commands_bytes(v.commands, v.magic.order())
}

/// Why a header cannot be written, if it cannot: its magic number is not
/// that of a single image; or else it has more commands than 32 bits can
/// count; or else one of its commands cannot be written; or else the
/// total size of the commands does not fit 32 bits.
#[verifier::opaque]
pub open spec fn mach_encode_error(v: MachHeaderView) -> Option<EncodeError> {
    if !v.magic.is_thin() {
        Some(EncodeError::UnrecognizedMagic(v.magic.spec_code()))
    } else if v.commands.len() > u32::MAX {
        Some(EncodeError::TooLarge)
    } else if commands_encode_error(v.commands) is Some {
        commands_encode_error(v.commands)
    } else if commands_len(v.commands) > u32::MAX {
        Some(EncodeError::TooLarge)
    } else {
        None
    }
}

/// What encoding a header gives: its bytes, or the reason why it cannot
/// be written.
pub open spec fn mach_encoded(v: MachHeaderView) -> Result<Seq<u8>, EncodeError> {
    match mach_encode_error(v) {
        Some(e) => Err(e),
        None => Ok(mach_bytes(v)),
    }
}

/// The header is read back as it is from its own bytes: the magic number
/// is that of a single image; no code is kept as unknown that the
/// registries know; the reserved word is there exactly in a 64-bit header;
/// the number and the total size of the commands fit 32 bits; and every
/// command is read back as it is.
pub open spec fn mach_wf(v: MachHeaderView) -> bool {
    &&& v.magic.is_thin()
    &&& v.cpu_type.canonical()
    &&& v.cpu_subtype.canonical()
    &&& v.file_type.canonical()
    &&& v.reserved is Some <==> v.magic.is_wide()
    &&& v.commands.len() <= u32::MAX
    &&& commands_len(v.commands) <= u32::MAX
    &&& forall|i: int| 0 <= i < v.commands.len() ==> command_wf(#[trigger] v.commands[i])
}

/// Every text in the commands of the header can be stored in its field
/// and read back.
pub open spec fn mach_names_fit(v: MachHeaderView) -> bool {
    forall|i: int| 0 <= i < v.commands.len() ==> command_names_fit(#[trigger] v.commands[i])
}

/// What decoding the first `k` commands of a table gives: the commands and
/// the position after them, or the reason why there are none.
///
/// The table starts at `start`; its header declares `declared` commands
/// that take `total` bytes together.  Before a command is decoded, the
/// bytes that the declared total leaves must hold its prefix of eight
/// bytes; after it, the commands decoded so far must not take more than
/// the declared total.
pub open spec fn commands_decoded(
    s: Seq<u8>,
    start: int,
    order: ByteOrder,
    k: nat,
    declared: u32,
    total: u32,
) -> Result<(Seq<LoadCommandView>, int), DecodeError>
    decreases k,
{
    if k == 0 {
        Ok((Seq::empty(), start))
    } else {
        match commands_decoded(s, start, order, (k - 1) as nat, declared, total) {
            Err(e) => Err(e),
            Ok((front, p)) => if total - (p - start) < 8 {
                Err(DecodeError::CommandCountMismatch(declared, (p - start) as u64, total))
            } else {
                match command_decoded(s, p, order) {
                    Err(e) => Err(e),
                    Ok((c, q)) => if q - start > total {
                        Err(DecodeError::CommandCountMismatch(declared, (q - start) as u64, total))
                    } else {
                        Ok((front.push(c), q))
                    },
                }
            },
        }
    }
}

/// The first `k` commands of a table are written as the encoder writes
/// them.
pub open spec fn commands_canonical(
    s: Seq<u8>,
    start: int,
    order: ByteOrder,
    k: nat,
    declared: u32,
    total: u32,
) -> bool
    decreases k,
{
    k == 0 || (commands_canonical(s, start, order, (k - 1) as nat, declared, total)
        && match commands_decoded(s, start, order, (k - 1) as nat, declared, total) {
        Ok((_, p)) => command_canonical(s, p, order),
        Err(_) => true,
    })
}

/// The commands of the header at position `p` are written as the encoder
/// writes them: their texts are valid UTF-8, and the bytes that no field
/// covers are NUL.
pub open spec fn mach_canonical(s: Seq<u8>, p: int) -> bool {
    let magic = MagicKind::of_code(u32_at(s, p, ByteOrder::Big));
    let ws = words_at(s, p + 4, 6, magic.order());
    commands_canonical(s, p + mach_head_len(magic), magic.order(), ws[3] as nat, ws[3], ws[4])
}

/// What decoding the header at position `p` of `s` gives: the header and
/// the position after its commands, or the reason why there is none.
///
/// The first four bytes, read most significant byte first, must be the
/// magic number of a single image, and its byte order must be the hinted
/// one where there is a hint.  As many commands are decoded as the header
/// declares, and they must take exactly the total size that it declares.
#[verifier::opaque]
pub open spec fn mach_decoded(s: Seq<u8>, p: int, hint: Option<ByteOrder>) -> Result<
    (MachHeaderView, int),
    DecodeError,
> {
    let avail = left(s.len(), p);
    let code = u32_at(s, p, ByteOrder::Big);
    let magic = MagicKind::of_code(code);
    let order = magic.order();
    let head = mach_head_len(magic);
    let ws = words_at(s, p + 4, 6, order);
    if avail < 4 {
        Err(DecodeError::TruncatedInput(4, avail as u64))
    } else if !magic.is_thin() || (hint matches Some(h) && h != order) {
        Err(DecodeError::UnrecognizedMagic(code))
    } else if avail < head {
        Err(DecodeError::TruncatedInput(head as u64, avail as u64))
    } else {
        match commands_decoded(s, p + head, order, ws[3] as nat, ws[3], ws[4]) {
            Err(e) => Err(e),
            Ok((commands, end)) => if end - (p + head) != ws[4] {
                Err(DecodeError::CommandCountMismatch(ws[3], (end - (p + head)) as u64, ws[4]))
            } else {
                Ok(
                    (
                        MachHeaderView {
                            magic,
                            cpu_type: CpuType::of_code(ws[0]),
                            cpu_subtype: CpuSubtype::of_code(ws[1]),
                            file_type: FileType::of_code(ws[2]),
                            flags: ws[5],
                            reserved: if magic.is_wide() {
                                Some(u32_at(s, p + 28, order))
                            } else {
                                None
                            },
                            commands,
                        },
                        end,
                    ),
                )
            },
        }
    }
}

/// The mathematical value of what decoding a header gave.
pub open spec fn mach_result_view(r: Result<(MachHeader, usize), DecodeError>) -> Result<
    (MachHeaderView, int),
    DecodeError,
> {
    match r {
        Ok((h, next)) => Ok((h@, next as int)),
        Err(e) => Err(e),
    }
}

/// The error of a list of commands is the error of the first of its
/// prefixes that has one.
pub proof fn lemma_commands_error_prefix(commands: Seq<LoadCommandView>, k: int)
    requires
        0 <= k <= commands.len(),
        commands_encode_error(commands.take(k)) is Some,
    ensures
        commands_encode_error(commands) == commands_encode_error(commands.take(k)),
    decreases commands.len() - k,
{
    if k < commands.len() {
        assert(commands.take(k + 1).drop_last() =~= commands.take(k));
        lemma_commands_error_prefix(commands, k + 1);
    } else {
        assert(commands.take(k) =~= commands);
    }
}

/// Once decoding a table of commands has failed, it fails in the same way
/// however many more commands are asked for.
pub proof fn lemma_commands_error_persists(
    s: Seq<u8>,
    start: int,
    order: ByteOrder,
    k: nat,
    n: nat,
    declared: u32,
    total: u32,
)
    requires
        k <= n,
        commands_decoded(s, start, order, k, declared, total) is Err,
    ensures
        commands_decoded(s, start, order, n, declared, total) == commands_decoded(
            s,
            start,
            order,
            k,
            declared,
            total,
        ),
    decreases n - k,
{
    if k < n {
        lemma_commands_error_persists(s, start, order, k, (n - 1) as nat, declared, total);
    }
}

/// Encodes the commands one after another, up to the first that cannot be
/// written.
fn encode_commands(commands: &Vec<LoadCommand>, order: ByteOrder) -> (r: Result<
    Vec<u8>,
    EncodeError,
>)
    ensures
        match r {
            Ok(body) => commands_encode_error(command_views(commands@)) is None && body@
                == commands_bytes(command_views(commands@), order) && body@.len() == commands_len(
                command_views(commands@),
            ),
            Err(e) => commands_encode_error(command_views(commands@)) == Some(e),
        },
{
    let ghost views = command_views(commands@);
    let mut body: Vec<u8> = Vec::new();
    let mut i: usize = 0;
    assert(body@ =~= commands_bytes(views.take(0), order));
    while i < commands.len()
        invariant
            i <= commands.len(),
            views == command_views(commands@),
            commands_encode_error(views.take(i as int)) is None,
            body@ == commands_bytes(views.take(i as int), order),
            body@.len() == commands_len(views.take(i as int)),
        decreases commands.len() - i,
    {
        proof {
            assert(views.take(i + 1).drop_last() =~= views.take(i as int));
            assert(views.take(i + 1).last() == commands@[i as int]@);
        }
        match encode_command(&commands[i], order) {
            Ok(part) => {
                put_bytes(&mut body, part.as_slice());
            },
            Err(e) => {
                proof {
                    lemma_commands_error_prefix(views, i + 1);
                }
                return Err(e);
            },
        }
        i += 1;
    }
    assert(views.take(i as int) =~= views);
    Ok(body)
}

impl MachHeader {
    /// The number of commands, as it is written to the header.
    pub fn command_count(&self) -> (n: usize)
        ensures
            n == self@.commands.len(),
    {
        self.commands.len()
    }

    /// The total size of the commands, as it is written to the header:
    /// the sum of the lengths that the commands are written with.  It is
    /// an error where a command cannot be written, and where the sum does
    /// not fit 32 bits.
    pub fn commands_total_size(&self) -> (r: Result<u32, EncodeError>)
        ensures
            match r {
                Ok(n) => commands_encode_error(self@.commands) is None && n == commands_len(
                    self@.commands,
                ),
                Err(e) => match commands_encode_error(self@.commands) {
                    Some(first) => e == first,
                    None => e == EncodeError::TooLarge && commands_len(self@.commands) > u32::MAX,
                },
            },
    {
        let body = match encode_commands(&self.commands, self.magic.byte_order()) {
            Ok(body) => body,
            Err(e) => {
                return Err(e);
            },
        };
        if body.len() > 0xffff_ffff {
            return Err(EncodeError::TooLarge);
        }
        Ok(body.len() as u32)
    }
}

/// Encodes a header and its commands.
///
/// The number of commands and their total size are written from the
/// commands that the header holds at this moment, whatever was done to
/// them before.  It is an error where the magic number is not that of a
/// single image, where a command cannot be written, and where the number
/// or the total size of the commands does not fit 32 bits.
pub fn encode_mach(header: &MachHeader) -> (r: Result<Vec<u8>, EncodeError>)
    ensures
        match r {
            Ok(b) => mach_encoded(header@) == Ok::<Seq<u8>, EncodeError>(b@) && u32_at(
                b@,
                16,
                header@.magic.order(),
            ) == header@.commands.len() && u32_at(b@, 20, header@.magic.order()) == commands_len(
                header@.commands,
            ),
            Err(e) => mach_encoded(header@) == Err::<Seq<u8>, EncodeError>(e),
        },
{
    let r = encode_mach_bytes(header);
    proof {
        if r is Ok {
            crate::header_laws::law_computed_counts(header@);
        }
    }
    r
}

/// Encodes a header and its commands.
fn encode_mach_bytes(header: &MachHeader) -> (r: Result<Vec<u8>, EncodeError>)
    ensures
        match r {
            Ok(b) => mach_encoded(header@) == Ok::<Seq<u8>, EncodeError>(b@),
            Err(e) => mach_encoded(header@) == Err::<Seq<u8>, EncodeError>(e),
        },
{
    reveal(mach_bytes);
    reveal(mach_encode_error);
    let (wide, order): (bool, ByteOrder) = match header.magic {
        MagicKind::Mach32BigEndian => (false, ByteOrder::Big),
        MagicKind::Mach32LittleEndian => (false, ByteOrder::Little),
        MagicKind::Mach64BigEndian => (true, ByteOrder::Big),
        MagicKind::Mach64LittleEndian => (true, ByteOrder::Little),
        _ => {
            return Err(EncodeError::UnrecognizedMagic(header.magic.code()));
        },
    };
    if header.commands.len() > 0xffff_ffff {
        return Err(EncodeError::TooLarge);
    }
    let body = match encode_commands(&header.commands, order) {
        Ok(body) => body,
        Err(e) => {
            return Err(e);
        },
    };
    if body.len() > 0xffff_ffff {
        return Err(EncodeError::TooLarge);
    }
    let count: u32 = header.commands.len() as u32;
    let total: u32 = body.len() as u32;
    let first: [u32; 1] = [header.magic.code()];
    assert(first@ =~= seq![header@.magic.spec_code()]);
    let mut out = bytes_of_words(&first, ByteOrder::Big);
    if wide {
        let reserved: u32 = match header.reserved {
            Some(r) => r,
            None => 0,
        };
        let ws: [u32; 7] = [
            header.cpu_type.code(),
            header.cpu_subtype.code(),
            header.file_type.code(),
            count,
            total,
            header.flags,
            reserved,
        ];
        assert(ws@ =~= mach_words(header@));
        put_words(&mut out, &ws, order);
    } else {
        let ws: [u32; 6] = [
            header.cpu_type.code(),
            header.cpu_subtype.code(),
            header.file_type.code(),
            count,
            total,
            header.flags,
        ];
        assert(ws@ =~= mach_words(header@));
        put_words(&mut out, &ws, order);
    }
    put_bytes(&mut out, body.as_slice());
    Ok(out)
}

/// Decodes the `n` commands of the table at `start`.
fn decode_commands(bytes: &[u8], start: usize, order: ByteOrder, n: u32, total: u32) -> (r: Result<
    (Vec<LoadCommand>, usize),
    DecodeError,
>)
    requires
        start <= bytes.len(),
    ensures
        match r {
            Ok((commands, end)) => commands_decoded(
                bytes@,
                start as int,
                order,
                n as nat,
                n,
                total,
            ) == Ok::<(Seq<LoadCommandView>, int), DecodeError>(
                (command_views(commands@), end as int),
            ) && start <= end <= bytes.len(),
            Err(e) => commands_decoded(bytes@, start as int, order, n as nat, n, total) == Err::<
                (Seq<LoadCommandView>, int),
                DecodeError,
            >(e),
        },
{
    let mut commands: Vec<LoadCommand> = Vec::new();
    let mut i: u32 = 0;
    let mut cur: usize = start;
    assert(command_views(commands@) =~= Seq::<LoadCommandView>::empty());
    while i < n
        invariant
            i <= n,
            start <= cur <= bytes.len(),
            cur - start <= total,
            commands_decoded(bytes@, start as int, order, i as nat, n, total) == Ok::<
                (Seq<LoadCommandView>, int),
                DecodeError,
            >((command_views(commands@), cur as int)),
        decreases n - i,
    {
        let ghost before = command_views(commands@);
        let consumed: usize = cur - start;
        if total as usize - consumed < 8 {
            proof {
                lemma_commands_error_persists(
                    bytes@,
                    start as int,
                    order,
                    (i + 1) as nat,
                    n as nat,
                    n,
                    total,
                );
            }
            return Err(DecodeError::CommandCountMismatch(n, consumed as u64, total));
        }
        let step = decode_command(bytes, cur, order);
        assert(command_result_view(step) == command_decoded(bytes@, cur as int, order));
        match step {
            Err(e) => {
                proof {
                    lemma_commands_error_persists(
                        bytes@,
                        start as int,
                        order,
                        (i + 1) as nat,
                        n as nat,
                        n,
                        total,
                    );
                }
                return Err(e);
            },
            Ok((c, next)) => {
                proof {
                    crate::command_laws::lemma_decoded_bounds(bytes@, cur as int, order);
                }
                if next - start > total as usize {
                    proof {
                        lemma_commands_error_persists(
                            bytes@,
                            start as int,
                            order,
                            (i + 1) as nat,
                            n as nat,
                            n,
                            total,
                        );
                    }
                    return Err(
                        DecodeError::CommandCountMismatch(n, (next - start) as u64, total),
                    );
                }
                commands.push(c);
                assert(command_views(commands@) =~= before.push(c@));
                cur = next;
                i = i + 1;
            },
        }
    }
    Ok((commands, cur))
}

/// Decodes the header of a single image at `pos`.
///
/// The byte order is the one of the magic number; `hint` is for callers
/// that have looked at the magic number already, and must then agree with
/// it.  On success the result holds the header and the position after its
/// commands.
pub fn decode_mach_at(bytes: &[u8], pos: usize, hint: Option<ByteOrder>) -> (r: Result<
    (MachHeader, usize),
    DecodeError,
>)
    ensures
        mach_result_view(r) == mach_decoded(bytes@, pos as int, hint),
{
    reveal(mach_decoded);
    let len: usize = bytes.len();
    let avail: usize = if pos <= len {
        len - pos
    } else {
        0
    };
    if avail < 4 {
        return Err(DecodeError::TruncatedInput(4, avail as u64));
    }
    let code: u32 = read_u32(bytes, pos, ByteOrder::Big);
    let magic = MagicKind::from_code(code);
    let (wide, order): (bool, ByteOrder) = match magic {
        MagicKind::Mach32BigEndian => (false, ByteOrder::Big),
        MagicKind::Mach32LittleEndian => (false, ByteOrder::Little),
        MagicKind::Mach64BigEndian => (true, ByteOrder::Big),
        MagicKind::Mach64LittleEndian => (true, ByteOrder::Little),
        _ => {
            return Err(DecodeError::UnrecognizedMagic(code));
        },
    };
    match hint {
        Some(h) => {
            if h != order {
                return Err(DecodeError::UnrecognizedMagic(code));
            }
        },
        None => {},
    }
    let head: usize = if wide {
        32
    } else {
        28
    };
    if avail < head {
        return Err(DecodeError::TruncatedInput(head as u64, avail as u64));
    }
    let cpu_type = CpuType::from_code(read_u32(bytes, pos + 4, order));
    let cpu_subtype = CpuSubtype::from_code(read_u32(bytes, pos + 8, order));
    let file_type = FileType::from_code(read_u32(bytes, pos + 12, order));
    let count: u32 = read_u32(bytes, pos + 16, order);
    let total: u32 = read_u32(bytes, pos + 20, order);
    let flags: u32 = read_u32(bytes, pos + 24, order);
    let reserved = if wide {
        Some(read_u32(bytes, pos + 28, order))
    } else {
        None
    };
    let (commands, end) = match decode_commands(bytes, pos + head, order, count, total) {
        Ok(found) => found,
        Err(e) => {
            return Err(e);
        },
    };
    if end - (pos + head) != total as usize {
        return Err(DecodeError::CommandCountMismatch(count, (end - (pos + head)) as u64, total));
    }
    Ok((MachHeader { magic, cpu_type, cpu_subtype, file_type, flags, reserved, commands }, end))
}

impl MachHeader {
    /// Decodes a header; see [`decode_mach`].
    pub fn decode(bytes: &[u8], hint: Option<ByteOrder>) -> (r: Result<MachHeader, DecodeError>)
        ensures
            match r {
                Ok(h) => mach_decoded(bytes@, 0, hint) is Ok && mach_decoded(
                    bytes@,
                    0,
                    hint,
                )->Ok_0.0 == h@,
                Err(e) => mach_decoded(bytes@, 0, hint) == Err::<
                    (MachHeaderView, int),
                    DecodeError,
                >(e),
            },
    {
        decode_mach(bytes, hint)
    }

    /// Encodes the header; see [`encode_mach`].
    pub fn encode(&self) -> (r: Result<Vec<u8>, EncodeError>)
        ensures
            match r {
                Ok(b) => mach_encoded(self@) == Ok::<Seq<u8>, EncodeError>(b@),
                Err(e) => mach_encoded(self@) == Err::<Seq<u8>, EncodeError>(e),
            },
    {
        encode_mach(self)
    }
}

/// Decodes the header of a single image at the start of `bytes`.
///
/// The byte order is the one of the magic number; `hint` is for callers
/// that have looked at the magic number already, and must then agree with
/// it.
pub fn decode_mach(bytes: &[u8], hint: Option<ByteOrder>) -> (r: Result<MachHeader, DecodeError>)
    ensures
        match r {
            Ok(h) => mach_decoded(bytes@, 0, hint) is Ok && mach_decoded(bytes@, 0, hint)->Ok_0.0
                == h@,
            Err(e) => mach_decoded(bytes@, 0, hint) == Err::<(MachHeaderView, int), DecodeError>(
                e,
            ),
        },
{
    match decode_mach_at(bytes, 0, hint) {
        Ok((h, _)) => Ok(h),
        Err(e) => Err(e),
    }
}

} // verus!
