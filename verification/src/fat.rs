//! The fat wrapper: a table of architecture slots, and behind it the
//! header of one image for each slot.

use vstd::prelude::*;
use crate::errors::{DecodeError, EncodeError};
use crate::header::{
    decode_mach_at, encode_mach, mach_bytes, mach_canonical, mach_decoded, mach_encode_error,
    mach_names_fit, mach_result_view, mach_wf, MachHeader, MachHeaderView,
};
use crate::tags::{CpuSubtype, CpuType, MagicKind};
use crate::wire::{
    bytes_of_words, put_bytes, put_words, put_zeros, read_u32, u32_at, words_at, words_bytes, zeros,
    ByteOrder,
};

verus! {

/// One architecture slot of a fat wrapper, with the header of its image.
#[derive(Clone, Debug, PartialEq, Eq)]
pub struct FatArch {
    /// The type of processor.
    pub cpu_type: CpuType,
    /// The variant of the processor.
    pub cpu_subtype: CpuSubtype,
    /// Where the image of the slot starts in the file.
    pub offset: u32,
    /// The number of bytes of the image.
    pub size: u32,
    /// The alignment of the image, as a power of two.
    pub align: u32,
    /// The header of the image, which lies at `offset`.
    pub mach: MachHeader,
}

/// The mathematical value of a [`FatArch`].
pub struct FatArchView {
    pub cpu_type: CpuType,
    pub cpu_subtype: CpuSubtype,
    pub offset: u32,
    pub size: u32,
    pub align: u32,
    pub mach: MachHeaderView,
}

impl View for FatArch {
    type V = FatArchView;

    open spec fn view(&self) -> FatArchView {
        FatArchView {
            cpu_type: self.cpu_type,
            cpu_subtype: self.cpu_subtype,
            offset: self.offset,
            size: self.size,
            align: self.align,
            mach: self.mach@,
        }
    }
}

/// A fat wrapper: the images of several architectures in one file.
#[derive(Clone, Debug, PartialEq, Eq)]
pub struct FatHeader {
    /// The magic number; it fixes the byte order of the slot table.
    pub magic: MagicKind,
    /// The slots; their number is written from the length of this list.
    pub archs: Vec<FatArch>,
}

/// The mathematical value of a [`FatHeader`].
pub struct FatHeaderView {
    pub magic: MagicKind,
    pub archs: Seq<FatArchView>,
}

/// The mathematical values of a list of slots.
pub open spec fn arch_views(archs: Seq<FatArch>) -> Seq<FatArchView> {
    Seq::new(archs.len(), |i: int| archs[i]@)
}

impl View for FatHeader {
    type V = FatHeaderView;

    open spec fn view(&self) -> FatHeaderView {
        FatHeaderView { magic: self.magic, archs: arch_views(self.archs@) }
    }
}

/// The five fields of a slot in the table.
pub open spec fn arch_words(a: FatArchView) -> Seq<u32> {
    seq![a.cpu_type.spec_code(), a.cpu_subtype.spec_code(), a.offset, a.size, a.align]
}

/// The bytes of the entries of a slot table.
pub open spec fn entries_bytes(archs: Seq<FatArchView>, order: ByteOrder) -> Seq<u8>
    decreases archs.len(),
{
    if archs.len() == 0 {
        Seq::empty()
    } else {
        entries_bytes(archs.drop_last(), order) + words_bytes(arch_words(archs.last()), order)
    }
}

/// The bytes of the slot table: the magic number, most significant byte
/// first; the number of slots; and the entries.
pub open spec fn table_bytes(v: FatHeaderView) -> Seq<u8> {
    words_bytes(seq![v.magic.spec_code()], ByteOrder::Big) + words_bytes(
        seq![v.archs.len() as u32],
        v.magic.order(),
    ) + entries_bytes(v.archs, v.magic.order())
}

/// `bytes`, filled up with NUL bytes to the length `offset` where it is
/// shorter.
pub open spec fn padded_to(bytes: Seq<u8>, offset: int) -> Seq<u8> {
    if bytes.len() <= offset {
        bytes + zeros((offset - bytes.len()) as nat)
    } else {
        bytes
    }
}

/// The bytes of a fat wrapper up to and including the header of its slot
/// `k - 1`: the slot table, and then each header at the offset of its
/// slot, with NUL bytes in between.
pub open spec fn fat_bytes_upto(v: FatHeaderView, k: nat) -> Seq<u8>
    decreases k,
{
    if k == 0 {
        table_bytes(v)
    } else {
        padded_to(fat_bytes_upto(v, (k - 1) as nat), v.archs[k - 1].offset as int) + mach_bytes(
            v.archs[k - 1].mach,
        )
    }
}

/// The bytes of a fat wrapper.
pub open spec fn fat_bytes(v: FatHeaderView) -> Seq<u8> {
    fat_bytes_upto(v, v.archs.len())
}

/// Why the headers of the first `k` slots cannot be written, if they
/// cannot: the first slot whose offset lies before the end of what was
/// written before it, or whose header cannot be written.
pub open spec fn fat_error_upto(v: FatHeaderView, k: nat) -> Option<EncodeError>
    decreases k,
{
    if k == 0 {
        None
    } else {
        match fat_error_upto(v, (k - 1) as nat) {
            Some(e) => Some(e),
            None => if v.archs[k - 1].offset < fat_bytes_upto(v, (k - 1) as nat).len() {
                Some(EncodeError::SeekOutOfRange(v.archs[k - 1].offset))
            } else {
                mach_encode_error(v.archs[k - 1].mach)
            },
        }
    }
}

/// Why a fat wrapper cannot be written, if it cannot: its magic number is
/// not that of a fat wrapper; or else it has more slots than 32 bits can
/// count; or else one of its headers cannot be written where its slot
/// asks for it.
pub open spec fn fat_encode_error(v: FatHeaderView) -> Option<EncodeError> {
    if !v.magic.is_fat() {
        Some(EncodeError::UnrecognizedMagic(v.magic.spec_code()))
    } else if v.archs.len() > u32::MAX {
        Some(EncodeError::TooLarge)
    } else {
        fat_error_upto(v, v.archs.len())
    }
}

/// What encoding a fat wrapper gives: its bytes, or the reason why it
/// cannot be written.
pub open spec fn fat_encoded(v: FatHeaderView) -> Result<Seq<u8>, EncodeError> {
    match fat_encode_error(v) {
        Some(e) => Err(e),
        None => Ok(fat_bytes(v)),
    }
}

/// The fat wrapper is read back as it is from its own bytes: it can be
/// written, so that its magic number is that of a fat wrapper and every
/// slot lies behind what is written before it; no code is kept as unknown
/// that the registries know; and every header is read back as it is.
pub open spec fn fat_wf(v: FatHeaderView) -> bool {
    &&& fat_encode_error(v) is None
    &&& forall|i: int|
        0 <= i < v.archs.len() ==> {
            &&& (#[trigger] v.archs[i]).cpu_type.canonical()
            &&& v.archs[i].cpu_subtype.canonical()
            &&& mach_wf(v.archs[i].mach)
        }
}

/// Every text in the headers of the wrapper can be stored in its field
/// and read back.
pub open spec fn fat_names_fit(v: FatHeaderView) -> bool {
    forall|i: int| 0 <= i < v.archs.len() ==> mach_names_fit((#[trigger] v.archs[i]).mach)
}

/// What decoding the first `k` slots of a fat wrapper gives: the slots
/// with their headers, or the reason why there are none.  The header of a
/// slot is decoded at the offset of the slot, in the byte order of its own
/// magic number.
pub open spec fn archs_decoded(s: Seq<u8>, order: ByteOrder, k: nat) -> Result<
    Seq<FatArchView>,
    DecodeError,
>
    decreases k,
{
    if k == 0 {
        Ok(Seq::empty())
    } else {
        let ws = words_at(s, 8 + 20 * (k - 1), 5, order);
        match archs_decoded(s, order, (k - 1) as nat) {
            Err(e) => Err(e),
            Ok(front) => if ws[2] > s.len() {
                Err(DecodeError::SeekOutOfRange(ws[2]))
            } else {
                match mach_decoded(s, ws[2] as int, None) {
                    Err(e) => Err(e),
                    Ok((mach, _)) => Ok(
                        front.push(
                            FatArchView {
                                cpu_type: CpuType::of_code(ws[0]),
                                cpu_subtype: CpuSubtype::of_code(ws[1]),
                                offset: ws[2],
                                size: ws[3],
                                align: ws[4],
                                mach,
                            },
                        ),
                    ),
                }
            },
        }
    }
}

/// Where the bytes of the first `k` slots of a fat wrapper end: behind
/// the slot table, or behind the header of slot `k - 1`.
pub open spec fn fat_end_upto(s: Seq<u8>, order: ByteOrder, k: nat) -> int {
    if k == 0 {
        8 + 20 * u32_at(s, 4, order)
    } else {
        match mach_decoded(s, words_at(s, 8 + 20 * (k - 1), 5, order)[2] as int, None) {
            Ok((_, end)) => end,
            Err(_) => 0,
        }
    }
}

/// The first `k` slots of a fat wrapper are written as the encoder writes
/// them: the header of each slot starts behind what lies before it, the
/// bytes in between are NUL, and the header is written as the encoder
/// writes it.
pub open spec fn fat_canonical_upto(s: Seq<u8>, order: ByteOrder, k: nat) -> bool
    decreases k,
{
    k == 0 || {
        let offset = words_at(s, 8 + 20 * (k - 1), 5, order)[2];
        let before = fat_end_upto(s, order, (k - 1) as nat);
        &&& fat_canonical_upto(s, order, (k - 1) as nat)
        &&& before <= offset
        &&& forall|i: int| before <= i < offset ==> #[trigger] s[i] == 0
        &&& mach_canonical(s, offset as int)
    }
}

/// The buffer is a fat wrapper as the encoder writes it: the slots follow
/// one another in the order of the table, with NUL bytes in between;
/// every header is written as the encoder writes it; and the buffer ends
/// with the last header.
pub open spec fn fat_canonical(s: Seq<u8>) -> bool {
    let order = MagicKind::of_code(u32_at(s, 0, ByteOrder::Big)).order();
    let n = u32_at(s, 4, order) as nat;
    &&& fat_canonical_upto(s, order, n)
    &&& s.len() == fat_end_upto(s, order, n)
}

/// What decoding a fat wrapper gives: the wrapper, or the reason why
/// there is none.
///
/// The first four bytes, read most significant byte first, must be the
/// magic number of a fat wrapper.  The slot table must lie within the
/// buffer, and so must the offset of every slot.
pub open spec fn fat_decoded(s: Seq<u8>) -> Result<FatHeaderView, DecodeError> {
    let code = u32_at(s, 0, ByteOrder::Big);
    let magic = MagicKind::of_code(code);
    let order = magic.order();
    let n = u32_at(s, 4, order);
    if s.len() < 4 {
        Err(DecodeError::TruncatedInput(4, s.len() as u64))
    } else if !magic.is_fat() {
        Err(DecodeError::UnrecognizedMagic(code))
    } else if s.len() < 8 {
        Err(DecodeError::TruncatedInput(8, s.len() as u64))
    } else if s.len() < 8 + 20 * n {
        Err(DecodeError::TruncatedInput((8 + 20 * n) as u64, s.len() as u64))
    } else {
        match archs_decoded(s, order, n as nat) {
            Err(e) => Err(e),
            Ok(archs) => Ok(FatHeaderView { magic, archs }),
        }
    }
}

/// The mathematical value of what decoding a fat wrapper gave.
pub open spec fn fat_result_view(r: Result<FatHeader, DecodeError>) -> Result<
    FatHeaderView,
    DecodeError,
> {
    match r {
        Ok(h) => Ok(h@),
        Err(e) => Err(e),
    }
}

/// The mathematical value of what encoding gave.
pub open spec fn bytes_result_view(r: Result<Vec<u8>, EncodeError>) -> Result<
    Seq<u8>,
    EncodeError,
> {
    match r {
        Ok(b) => Ok(b@),
        Err(e) => Err(e),
    }
}

/// Once writing the headers of a fat wrapper has failed, it fails in the
/// same way however many more slots are asked for.
pub proof fn lemma_fat_error_persists(v: FatHeaderView, k: nat, n: nat)
    requires
        k <= n,
        fat_error_upto(v, k) is Some,
    ensures
        fat_error_upto(v, n) == fat_error_upto(v, k),
    decreases n - k,
{
    if k < n {
        lemma_fat_error_persists(v, k, (n - 1) as nat);
    }
}

/// Once decoding the slots of a fat wrapper has failed, it fails in the
/// same way however many more slots are asked for.
pub proof fn lemma_archs_error_persists(s: Seq<u8>, order: ByteOrder, k: nat, n: nat)
    requires
        k <= n,
        archs_decoded(s, order, k) is Err,
    ensures
        archs_decoded(s, order, n) == archs_decoded(s, order, k),
    decreases n - k,
{
    if k < n {
        lemma_archs_error_persists(s, order, k, (n - 1) as nat);
    }
}

/// The bytes of the slot table.
fn encode_table(header: &FatHeader, order: ByteOrder) -> (out: Vec<u8>)
    requires
        header.archs@.len() <= u32::MAX,
        order == header@.magic.order(),
    ensures
        out@ == table_bytes(header@),
{
    let ghost views = arch_views(header.archs@);
    let first: [u32; 1] = [header.magic.code()];
    assert(first@ =~= seq![header@.magic.spec_code()]);
    let mut out = bytes_of_words(&first, ByteOrder::Big);
    let count: [u32; 1] = [header.archs.len() as u32];
    assert(count@ =~= seq![header@.archs.len() as u32]);
    put_words(&mut out, &count, order);
    let ghost base = out@;
    let mut i: usize = 0;
    assert(out@ =~= base + entries_bytes(views.take(0), order));
    while i < header.archs.len()
        invariant
            i <= header.archs.len(),
            views == arch_views(header.archs@),
            out@ == base + entries_bytes(views.take(i as int), order),
        decreases header.archs.len() - i,
    {
        let a = &header.archs[i];
        let ws: [u32; 5] = [a.cpu_type.code(), a.cpu_subtype.code(), a.offset, a.size, a.align];
        proof {
            assert(views.take(i + 1).drop_last() =~= views.take(i as int));
            assert(views.take(i + 1).last() == header.archs@[i as int]@);
            assert(ws@ =~= arch_words(header.archs@[i as int]@));
        }
        put_words(&mut out, &ws, order);
        i += 1;
        assert(out@ =~= base + entries_bytes(views.take(i as int), order));
    }
    assert(views.take(i as int) =~= views);
    out
}

/// Encodes a fat wrapper.
///
/// The slot table is written first, in the byte order of the magic number
/// of the wrapper.  The header of each slot follows at the offset of the
/// slot, in the byte order of its own magic number; the bytes in between
/// are NUL.  It is an error where the magic number is not that of a fat
/// wrapper, where there are more slots than 32 bits can count, where a
/// slot asks for its header before the end of what is written already,
/// and where a header cannot be written.
pub fn encode_fat(header: &FatHeader) -> (r: Result<Vec<u8>, EncodeError>)
    ensures
        bytes_result_view(r) == fat_encoded(header@),
{
    let order: ByteOrder = match header.magic {
        MagicKind::FatBigEndian => ByteOrder::Big,
        MagicKind::FatLittleEndian => ByteOrder::Little,
        _ => {
            return Err(EncodeError::UnrecognizedMagic(header.magic.code()));
        },
    };
    if header.archs.len() > 0xffff_ffff {
        return Err(EncodeError::TooLarge);
    }
    let mut out = encode_table(header, order);
    let mut i: usize = 0;
    while i < header.archs.len()
        invariant
            i <= header.archs.len(),
            header@.magic.is_fat(),
            header.archs@.len() <= u32::MAX,
            fat_error_upto(header@, i as nat) is None,
            out@ == fat_bytes_upto(header@, i as nat),
        decreases header.archs.len() - i,
    {
        let a = &header.archs[i];
        assert(header@.archs[i as int] == a@);
        if (a.offset as usize) < out.len() {
            proof {
                assert(fat_error_upto(header@, (i + 1) as nat) == Some(
                    EncodeError::SeekOutOfRange(a.offset),
                ));
                lemma_fat_error_persists(header@, (i + 1) as nat, header@.archs.len());
            }
            return Err(EncodeError::SeekOutOfRange(a.offset));
        }
        match encode_mach(&a.mach) {
            Ok(part) => {
                let gap: usize = a.offset as usize - out.len();
                put_zeros(&mut out, gap);
                put_bytes(&mut out, part.as_slice());
            },
            Err(e) => {
                proof {
                    assert(mach_encode_error(a@.mach) == Some(e));
                    assert(fat_error_upto(header@, (i + 1) as nat) == Some(e));
                    lemma_fat_error_persists(header@, (i + 1) as nat, header@.archs.len());
                }
                return Err(e);
            },
        }
        i += 1;
    }
    Ok(out)
}

/// Decodes a fat wrapper, which starts at the start of `bytes`.
///
/// The offsets of the slots are taken as they are stored: the header of a
/// slot is decoded at the offset of the slot, whatever alignment the slot
/// declares, and by its own magic number.  It is an error where the magic
/// number is not that of a fat wrapper, where the slot table or the offset
/// of a slot lies beyond the end of the buffer, and where the header of a
/// slot cannot be decoded.
pub fn decode_fat(bytes: &[u8]) -> (r: Result<FatHeader, DecodeError>)
    ensures
        fat_result_view(r) == fat_decoded(bytes@),
{
    let len: usize = bytes.len();
    if len < 4 {
        return Err(DecodeError::TruncatedInput(4, len as u64));
    }
    let code: u32 = read_u32(bytes, 0, ByteOrder::Big);
    let magic = MagicKind::from_code(code);
    let order: ByteOrder = match magic {
        MagicKind::FatBigEndian => ByteOrder::Big,
        MagicKind::FatLittleEndian => ByteOrder::Little,
        _ => {
            return Err(DecodeError::UnrecognizedMagic(code));
        },
    };
    if len < 8 {
        return Err(DecodeError::TruncatedInput(8, len as u64));
    }
    let n: u32 = read_u32(bytes, 4, order);
    let needed: u64 = 8 + 20 * (n as u64);
    if (len as u64) < needed {
        return Err(DecodeError::TruncatedInput(needed, len as u64));
    }
    let mut archs: Vec<FatArch> = Vec::new();
    let mut i: u32 = 0;
    let mut cur: usize = 8;
    assert(arch_views(archs@) =~= Seq::<FatArchView>::empty());
    while i < n
        invariant
            i <= n,
            cur == 8 + 20 * i,
            8 + 20 * n <= bytes.len(),
            len == bytes.len(),
            magic == MagicKind::of_code(u32_at(bytes@, 0, ByteOrder::Big)),
            magic.is_fat(),
            order == magic.order(),
            n == u32_at(bytes@, 4, order),
            archs_decoded(bytes@, order, i as nat) == Ok::<Seq<FatArchView>, DecodeError>(
                arch_views(archs@),
            ),
        decreases n - i,
    {
        let ghost before = arch_views(archs@);
        let cpu_type = CpuType::from_code(read_u32(bytes, cur, order));
        let cpu_subtype = CpuSubtype::from_code(read_u32(bytes, cur + 4, order));
        let offset: u32 = read_u32(bytes, cur + 8, order);
        let size: u32 = read_u32(bytes, cur + 12, order);
        let align: u32 = read_u32(bytes, cur + 16, order);
        let ghost ws = words_at(bytes@, 8 + 20 * i, 5, order);
        proof {
            assert(ws[0] == u32_at(bytes@, cur as int, order));
            assert(ws[1] == u32_at(bytes@, cur + 4, order));
            assert(ws[2] == offset);
            assert(ws[3] == size);
            assert(ws[4] == align);
        }
        if offset as u64 > len as u64 {
            proof {
                lemma_archs_error_persists(bytes@, order, (i + 1) as nat, n as nat);
            }
            return Err(DecodeError::SeekOutOfRange(offset));
        }
        let step = decode_mach_at(bytes, offset as usize, None);
        assert(mach_result_view(step) == mach_decoded(bytes@, offset as int, None));
        match step {
            Ok((mach, _)) => {
                let arch = FatArch { cpu_type, cpu_subtype, offset, size, align, mach };
                archs.push(arch);
                assert(arch_views(archs@) =~= before.push(arch@));
            },
            Err(e) => {
                proof {
                    lemma_archs_error_persists(bytes@, order, (i + 1) as nat, n as nat);
                }
                return Err(e);
            },
        }
        cur = cur + 20;
        i = i + 1;
    }
    Ok(FatHeader { magic, archs })
}

impl FatHeader {
    /// Decodes a fat wrapper; see [`decode_fat`].
    pub fn decode(bytes: &[u8]) -> (r: Result<FatHeader, DecodeError>)
        ensures
            fat_result_view(r) == fat_decoded(bytes@),
    {
        decode_fat(bytes)
    }

    /// Encodes the fat wrapper; see [`encode_fat`].
    pub fn encode(&self) -> (r: Result<Vec<u8>, EncodeError>)
        ensures
            bytes_result_view(r) == fat_encoded(self@),
    {
        encode_fat(self)
    }
}

} // verus!
