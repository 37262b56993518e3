//! Section records, in the two address widths.

use vstd::prelude::*;
use vstd::slice::slice_subrange;
use vstd::utf8::*;
use crate::errors::{EncodeError, NameField};
use crate::names::{
    field_canonical, fit_name, lemma_field_kept, lemma_name_round_trip, map_cstring, name_at,
    name_bytes, name_fits,
};
use crate::wire::{
    holds_at, lemma_holds_split, lemma_subrange_join, lemma_u32_kept, lemma_u32_round_trip,
    lemma_u64_kept, lemma_u64_round_trip, lemma_words_kept, lemma_words_len, lemma_words_round_trip,
    put_bytes, put_u32, put_u64, put_words, read_u32, read_u64, u32_at, u32_bytes, u64_at,
    u64_bytes, words_at, words_bytes, ByteOrder,
};

verus! {

/// An address of one of the two widths of the format: `u32` or `u64`.
pub trait Address: Sized + Copy {
    /// Whether addresses of this type take eight bytes rather than four.
    spec fn is_wide() -> bool;

    /// The address in the field at position `p` of `s`.
    spec fn at(s: Seq<u8>, p: int, order: ByteOrder) -> Self;

    /// The bytes that hold the address.
    spec fn bytes(self, order: ByteOrder) -> Seq<u8>;

    /// An address takes four or eight bytes.
    proof fn lemma_len(self, order: ByteOrder)
        ensures
            self.bytes(order).len() == if Self::is_wide() {
                8int
            } else {
                4int
            },
    ;

    /// Reading back the bytes of an address gives the address.
    proof fn lemma_round_trip(self, s: Seq<u8>, p: int, order: ByteOrder)
        requires
            holds_at(s, p, self.bytes(order)),
        ensures
            Self::at(s, p, order) == self,
    ;

    /// Writing the address that is read at a position gives the bytes at
    /// that position.
    proof fn lemma_kept(s: Seq<u8>, p: int, order: ByteOrder)
        requires
            0 <= p,
            p + if Self::is_wide() {
                8int
            } else {
                4int
            } <= s.len(),
        ensures
            Self::at(s, p, order).bytes(order) == s.subrange(
                p,
                p + if Self::is_wide() {
                    8int
                } else {
                    4int
                },
            ),
    ;

    /// Whether addresses of this type take eight bytes.
    fn wide() -> (w: bool)
        ensures
            w == Self::is_wide(),
    ;

    /// Reads the address at `pos`.
    fn read(bytes: &[u8], pos: usize, order: ByteOrder) -> (v: Self)
        requires
            pos + if Self::is_wide() {
                8int
            } else {
                4int
            } <= bytes.len(),
        ensures
            v == Self::at(bytes@, pos as int, order),
    ;

    /// Appends the bytes of the address to `out`.
    fn put(self, out: &mut Vec<u8>, order: ByteOrder)
        ensures
            final(out)@ == old(out)@ + self.bytes(order),
    ;
}

/// The number of bytes that an address of type `A` takes.
pub open spec fn addr_len<A: Address>() -> nat {
    if A::is_wide() {
        8
    } else {
        4
    }
}

impl Address for u32 {
    open spec fn is_wide() -> bool {
        false
    }

    open spec fn at(s: Seq<u8>, p: int, order: ByteOrder) -> u32 {
        u32_at(s, p, order)
    }

    open spec fn bytes(self, order: ByteOrder) -> Seq<u8> {
        u32_bytes(self, order)
    }

    proof fn lemma_len(self, order: ByteOrder) {
    }

    proof fn lemma_round_trip(self, s: Seq<u8>, p: int, order: ByteOrder) {
        lemma_u32_round_trip(s, p, self, order);
    }

    proof fn lemma_kept(s: Seq<u8>, p: int, order: ByteOrder) {
        lemma_u32_kept(s, p, order);
    }

    fn wide() -> (w: bool) {
        false
    }

    fn read(bytes: &[u8], pos: usize, order: ByteOrder) -> (v: u32) {
        read_u32(bytes, pos, order)
    }

    fn put(self, out: &mut Vec<u8>, order: ByteOrder) {
        put_u32(out, self, order);
    }
}

impl Address for u64 {
    open spec fn is_wide() -> bool {
        true
    }

    open spec fn at(s: Seq<u8>, p: int, order: ByteOrder) -> u64 {
        u64_at(s, p, order)
    }

    open spec fn bytes(self, order: ByteOrder) -> Seq<u8> {
        u64_bytes(self, order)
    }

    proof fn lemma_len(self, order: ByteOrder) {
    }

    proof fn lemma_round_trip(self, s: Seq<u8>, p: int, order: ByteOrder) {
        lemma_u64_round_trip(s, p, self, order);
    }

    proof fn lemma_kept(s: Seq<u8>, p: int, order: ByteOrder) {
        lemma_u64_kept(s, p, order);
    }

    fn wide() -> (w: bool) {
        true
    }

    fn read(bytes: &[u8], pos: usize, order: ByteOrder) -> (v: u64) {
        read_u64(bytes, pos, order)
    }

    fn put(self, out: &mut Vec<u8>, order: ByteOrder) {
        put_u64(out, self, order);
    }
}

/// One section of a segment.
#[derive(Clone, Debug, PartialEq, Eq)]
pub struct Section<A> {
    /// The name of the section.
    pub section_name: String,
    /// The name of the segment that owns the section.
    pub segment_name: String,
    /// The address of the section in memory.
    pub addr: A,
    /// The size of the section in memory.
    pub size: A,
    /// The offset of the section in the file.
    pub offset: u32,
    /// The alignment of the section, as a power of two.
    pub align: u32,
    /// The offset of the relocation entries in the file.
    pub rel_offset: u32,
    /// The number of relocation entries.
    pub nreloc: u32,
    /// The type and attributes of the section.
    pub flags: u32,
    /// Reserved.
    pub reserved1: u32,
    /// Reserved.
    pub reserved2: u32,
    /// Reserved; present exactly in sections with 64-bit addresses.
    pub reserved3: Option<u32>,
}

/// The mathematical value of a [`Section`].
pub struct SectionView<A> {
    pub section_name: Seq<char>,
    pub segment_name: Seq<char>,
    pub addr: A,
    pub size: A,
    pub offset: u32,
    pub align: u32,
    pub rel_offset: u32,
    pub nreloc: u32,
    pub flags: u32,
    pub reserved1: u32,
    pub reserved2: u32,
    pub reserved3: Option<u32>,
}

impl<A> View for Section<A> {
    type V = SectionView<A>;

    open spec fn view(&self) -> SectionView<A> {
        SectionView {
            section_name: self.section_name@,
            segment_name: self.segment_name@,
            addr: self.addr,
            size: self.size,
            offset: self.offset,
            align: self.align,
            rel_offset: self.rel_offset,
            nreloc: self.nreloc,
            flags: self.flags,
            reserved1: self.reserved1,
            reserved2: self.reserved2,
            reserved3: self.reserved3,
        }
    }
}

/// The number of bytes of a section record: 68 with 32-bit addresses, 80
/// with 64-bit addresses.
pub open spec fn section_len<A: Address>() -> nat {
    if A::is_wide() {
        80
    } else {
        68
    }
}

/// The 32-bit fields that follow the two addresses of a section.  A wide
/// section without its last reserved word is written with zero there.
pub open spec fn section_tail<A: Address>(v: SectionView<A>) -> Seq<u32> {
    if A::is_wide() {
        seq![
            v.offset,
            v.align,
            v.rel_offset,
            v.nreloc,
            v.flags,
            v.reserved1,
            v.reserved2,
            match v.reserved3 {
                Some(r) => r,
                None => 0u32,
            },
        ]
    } else {
        seq![v.offset, v.align, v.rel_offset, v.nreloc, v.flags, v.reserved1, v.reserved2]
    }
}

/// The bytes of a section record.
pub open spec fn section_bytes<A: Address>(v: SectionView<A>, order: ByteOrder) -> Seq<u8> {
    name_bytes(v.section_name, 16) + name_bytes(v.segment_name, 16) + v.addr.bytes(order)
        + v.size.bytes(order) + words_bytes(section_tail(v), order)
}

/// The section record at position `p` of `s`.
pub open spec fn section_at<A: Address>(s: Seq<u8>, p: int, order: ByteOrder) -> SectionView<A> {
    let t = p + 32 + 2 * addr_len::<A>();
    SectionView {
        section_name: name_at(s, p, 16),
        segment_name: name_at(s, p + 16, 16),
        addr: A::at(s, p + 32, order),
        size: A::at(s, p + 32 + addr_len::<A>(), order),
        offset: u32_at(s, t, order),
        align: u32_at(s, t + 4, order),
        rel_offset: u32_at(s, t + 8, order),
        nreloc: u32_at(s, t + 12, order),
        flags: u32_at(s, t + 16, order),
        reserved1: u32_at(s, t + 20, order),
        reserved2: u32_at(s, t + 24, order),
        reserved3: if A::is_wide() {
            Some(u32_at(s, t + 28, order))
        } else {
            None
        },
    }
}

/// Why a section cannot be written, if it cannot: the first of its names
/// that takes more than sixteen bytes.
pub open spec fn section_encode_error<A>(v: SectionView<A>) -> Option<EncodeError> {
    if encode_utf8(v.section_name).len() > 16 {
        Some(EncodeError::NameTooLong(NameField::SectionName, 16))
    } else if encode_utf8(v.segment_name).len() > 16 {
        Some(EncodeError::NameTooLong(NameField::SegmentName, 16))
    } else {
        None
    }
}

/// The section is read back as it is from its own bytes: both names fit
/// their fields, and the last reserved word is there exactly in a wide
/// section.
pub open spec fn section_wf<A: Address>(v: SectionView<A>) -> bool {
    &&& name_fits(v.section_name, 16)
    &&& name_fits(v.segment_name, 16)
    &&& v.reserved3 is Some <==> A::is_wide()
}

/// Both names of the section can be stored in their fields and read back.
pub open spec fn section_names_fit<A>(v: SectionView<A>) -> bool {
    &&& name_fits(v.section_name, 16)
    &&& name_fits(v.segment_name, 16)
}

/// A section record has the length of its width.
pub proof fn lemma_section_len<A: Address>(v: SectionView<A>, order: ByteOrder)
    ensures
        section_bytes(v, order).len() == section_len::<A>(),
{
    v.addr.lemma_len(order);
    v.size.lemma_len(order);
    lemma_words_len(section_tail(v), order);
}

/// A well-formed section is read back from its bytes.
pub proof fn lemma_section_round_trip<A: Address>(
    v: SectionView<A>,
    s: Seq<u8>,
    p: int,
    order: ByteOrder,
)
    requires
        section_wf(v),
        holds_at(s, p, section_bytes(v, order)),
    ensures
        section_at::<A>(s, p, order) == v,
{
    let e1 = name_bytes(v.section_name, 16);
    let e2 = e1 + name_bytes(v.segment_name, 16);
    let e3 = e2 + v.addr.bytes(order);
    let e4 = e3 + v.size.bytes(order);
    let tail = section_tail(v);
    v.addr.lemma_len(order);
    v.size.lemma_len(order);
    lemma_words_len(tail, order);
    lemma_holds_split(s, p, e4, words_bytes(tail, order));
    lemma_holds_split(s, p, e3, v.size.bytes(order));
    lemma_holds_split(s, p, e2, v.addr.bytes(order));
    lemma_holds_split(s, p, e1, name_bytes(v.segment_name, 16));
    lemma_name_round_trip(s, p, v.section_name, 16);
    lemma_name_round_trip(s, p + 16, v.segment_name, 16);
    v.addr.lemma_round_trip(s, p + 32, order);
    v.size.lemma_round_trip(s, p + 32 + addr_len::<A>(), order);
    let t = p + 32 + 2 * addr_len::<A>();
    lemma_words_round_trip(s, t, tail, order);
    let got = words_at(s, t, tail.len(), order);
    assert(got[0] == tail[0]);
    assert(got[1] == tail[1]);
    assert(got[2] == tail[2]);
    assert(got[3] == tail[3]);
    assert(got[4] == tail[4]);
    assert(got[5] == tail[5]);
    assert(got[6] == tail[6]);
    if A::is_wide() {
        assert(got[7] == tail[7]);
    }
}

/// Both name fields of the section record at position `p` are written as
/// the encoder writes them.
pub open spec fn section_canonical(s: Seq<u8>, p: int) -> bool {
    &&& field_canonical(s, p, 16)
    &&& field_canonical(s, p + 16, 16)
}

/// Writing the section that is read at a position gives the bytes at
/// that position, where its name fields are written as the encoder writes
/// them; and the section is well-formed.
pub proof fn lemma_section_kept<A: Address>(s: Seq<u8>, p: int, order: ByteOrder)
    requires
        0 <= p,
        p + section_len::<A>() <= s.len(),
        section_canonical(s, p),
    ensures
        section_wf(section_at::<A>(s, p, order)),
        section_bytes(section_at::<A>(s, p, order), order) == s.subrange(
            p,
            p + section_len::<A>(),
        ),
{
    let v = section_at::<A>(s, p, order);
    let w = addr_len::<A>();
    let t = p + 32 + 2 * w;
    let n: nat = if A::is_wide() {
        8
    } else {
        7
    };
    lemma_field_kept(s, p, 16);
    lemma_field_kept(s, p + 16, 16);
    A::lemma_kept(s, p + 32, order);
    A::lemma_kept(s, p + 32 + w, order);
    lemma_words_kept(s, t, n, order);
    assert(section_tail(v) =~= words_at(s, t, n, order));
    lemma_subrange_join(s, p, p + 16, p + 32);
    lemma_subrange_join(s, p, p + 32, p + 32 + w);
    lemma_subrange_join(s, p, p + 32 + w, t);
    lemma_subrange_join(s, p, t, t + 4 * n);
}

/// Reads the section record at `pos`.
pub(crate) fn decode_section<A: Address>(bytes: &[u8], pos: usize, order: ByteOrder) -> (sec:
    Section<A>)
    requires
        pos + section_len::<A>() <= bytes.len(),
    ensures
        sec@ == section_at::<A>(bytes@, pos as int, order),
{
    let wide = A::wide();
    let w: usize = if wide {
        8
    } else {
        4
    };
    let t: usize = pos + 32 + 2 * w;
    let section_name = map_cstring(slice_subrange(bytes, pos, pos + 16));
    let segment_name = map_cstring(slice_subrange(bytes, pos + 16, pos + 32));
    let addr = A::read(bytes, pos + 32, order);
    let size = A::read(bytes, pos + 32 + w, order);
    let reserved3 = if wide {
        Some(read_u32(bytes, t + 28, order))
    } else {
        None
    };
    Section {
        section_name,
        segment_name,
        addr,
        size,
        offset: read_u32(bytes, t, order),
        align: read_u32(bytes, t + 4, order),
        rel_offset: read_u32(bytes, t + 8, order),
        nreloc: read_u32(bytes, t + 12, order),
        flags: read_u32(bytes, t + 16, order),
        reserved1: read_u32(bytes, t + 20, order),
        reserved2: read_u32(bytes, t + 24, order),
        reserved3,
    }
}

/// Appends the section record to `out`, unless one of its names is too
/// long; then `out` stays as it is.
pub(crate) fn encode_section<A: Address>(
    sec: &Section<A>,
    out: &mut Vec<u8>,
    order: ByteOrder,
) -> (r: Result<(), EncodeError>)
    ensures
        match r {
            Ok(_) => section_encode_error(sec@) is None && final(out)@ == old(out)@
                + section_bytes(sec@, order),
            Err(e) => section_encode_error(sec@) == Some(e) && final(out)@ == old(out)@,
        },
{
    if sec.section_name.as_str().as_bytes().len() > 16 {
        return Err(EncodeError::NameTooLong(NameField::SectionName, 16));
    }
    if sec.segment_name.as_str().as_bytes().len() > 16 {
        return Err(EncodeError::NameTooLong(NameField::SegmentName, 16));
    }
    let first = fit_name(&sec.section_name, 16);
    put_bytes(out, first.as_slice());
    let second = fit_name(&sec.segment_name, 16);
    put_bytes(out, second.as_slice());
    sec.addr.put(out, order);
    sec.size.put(out, order);
    if A::wide() {
        let last: u32 = match sec.reserved3 {
            Some(r) => r,
            None => 0,
        };
        let tail: [u32; 8] = [
            sec.offset,
            sec.align,
            sec.rel_offset,
            sec.nreloc,
            sec.flags,
            sec.reserved1,
            sec.reserved2,
            last,
        ];
        assert(tail@ =~= section_tail(sec@));
        put_words(out, &tail, order);
    } else {
        let tail: [u32; 7] = [
            sec.offset,
            sec.align,
            sec.rel_offset,
            sec.nreloc,
            sec.flags,
            sec.reserved1,
            sec.reserved2,
        ];
        assert(tail@ =~= section_tail(sec@));
        put_words(out, &tail, order);
    }
    assert(out@ =~= old(out)@ + section_bytes(sec@, order));
    Ok(())
}

} // verus!
