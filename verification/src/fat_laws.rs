//! What holds of fat wrappers: a wrapper is read back from its own bytes.

use vstd::prelude::*;
use crate::errors::{DecodeError, EncodeError};
use crate::fat::{
    arch_words, archs_decoded, entries_bytes, fat_bytes, fat_bytes_upto, fat_canonical,
    fat_canonical_upto, fat_decoded, fat_encode_error, fat_encoded, fat_end_upto, fat_error_upto,
    fat_names_fit, fat_wf, padded_to, table_bytes, FatArchView, FatHeaderView,
};
use crate::header::{
    mach_bytes, mach_canonical, mach_decoded, mach_encode_error, mach_names_fit, mach_wf,
};
use crate::header_laws::{
    law_mach_bytes_kept, lemma_mach_decoded_wf, lemma_mach_round_trip, lemma_mach_span,
};
use crate::tags::{lemma_resolved_canonical, CpuSubtype, CpuType};
use crate::wire::{
    holds_at, lemma_holds_extend, lemma_holds_split, lemma_subrange_join, lemma_words_kept,
    lemma_words_len, lemma_words_round_trip, u32_at, words_at, words_bytes, zeros, ByteOrder,
};

verus! {

/// A sequence that ends in `part` holds `part` where its front ends.
pub proof fn lemma_holds_tail(front: Seq<u8>, part: Seq<u8>)
    ensures
        holds_at(front + part, front.len() as int, part),
{
    let s = front + part;
    assert forall|i: int| 0 <= i < part.len() implies s[front.len() + i] == #[trigger] part[i] by {}
}

/// The entries of `n` slots take `20 * n` bytes.
pub proof fn lemma_entries_len(archs: Seq<FatArchView>, order: ByteOrder)
    ensures
        entries_bytes(archs, order).len() == 20 * archs.len(),
    decreases archs.len(),
{
    if archs.len() > 0 {
        lemma_entries_len(archs.drop_last(), order);
        lemma_words_len(arch_words(archs.last()), order);
    }
}

/// The fields of every slot are read back from the entries of the table,
/// which start at `p`.
pub proof fn lemma_entries_round_trip(
    archs: Seq<FatArchView>,
    s: Seq<u8>,
    p: int,
    order: ByteOrder,
)
    requires
        holds_at(s, p, entries_bytes(archs, order)),
    ensures
        forall|i: int|
            0 <= i < archs.len() ==> words_at(s, p + 20 * i, 5, order) == arch_words(
                #[trigger] archs[i],
            ),
    decreases archs.len(),
{
    if archs.len() > 0 {
        let front = archs.drop_last();
        let last = arch_words(archs.last());
        lemma_entries_len(front, order);
        lemma_holds_split(s, p, entries_bytes(front, order), words_bytes(last, order));
        lemma_entries_round_trip(front, s, p, order);
        lemma_words_round_trip(s, p + 20 * front.len(), last, order);
        assert forall|i: int| 0 <= i < archs.len() implies words_at(s, p + 20 * i, 5, order)
            == arch_words(#[trigger] archs[i]) by {
            if i < front.len() {
                assert(front[i] == archs[i]);
            }
        }
    }
}

/// The magic number, the number of slots and the fields of every slot
/// are read back from the slot table.
pub proof fn lemma_table_round_trip(v: FatHeaderView, s: Seq<u8>)
    requires
        v.archs.len() <= u32::MAX,
        holds_at(s, 0, table_bytes(v)),
    ensures
        table_bytes(v).len() == 8 + 20 * v.archs.len(),
        u32_at(s, 0, ByteOrder::Big) == v.magic.spec_code(),
        u32_at(s, 4, v.magic.order()) == v.archs.len(),
        forall|i: int|
            0 <= i < v.archs.len() ==> words_at(s, 8 + 20 * i, 5, v.magic.order()) == arch_words(
                #[trigger] v.archs[i],
            ),
{
    let order = v.magic.order();
    let first = seq![v.magic.spec_code()];
    let count = seq![v.archs.len() as u32];
    let e1 = words_bytes(first, ByteOrder::Big);
    let e2 = e1 + words_bytes(count, order);
    lemma_words_len(first, ByteOrder::Big);
    lemma_words_len(count, order);
    lemma_entries_len(v.archs, order);
    lemma_holds_split(s, 0, e2, entries_bytes(v.archs, order));
    lemma_holds_split(s, 0, e1, words_bytes(count, order));
    lemma_words_round_trip(s, 0, first, ByteOrder::Big);
    assert(words_at(s, 0, 1, ByteOrder::Big)[0] == first[0]);
    lemma_words_round_trip(s, 4, count, order);
    assert(words_at(s, 4, 1, order)[0] == count[0]);
    lemma_entries_round_trip(v.archs, s, 8, order);
}

/// In the bytes of a well-formed wrapper up to any slot, the slot table
/// lies at the start and the header of every slot before lies at the
/// offset of its slot.
pub proof fn lemma_fat_layout(v: FatHeaderView, k: nat)
    requires
        k <= v.archs.len(),
        fat_error_upto(v, k) is None,
    ensures
        holds_at(fat_bytes_upto(v, k), 0, table_bytes(v)),
        forall|j: int|
            0 <= j < k ==> holds_at(
                fat_bytes_upto(v, k),
                (#[trigger] v.archs[j]).offset as int,
                mach_bytes(v.archs[j].mach),
            ),
    decreases k,
{
    if k == 0 {
        let t = table_bytes(v);
        assert(holds_at(t, 0, t));
    } else {
        let prev = fat_bytes_upto(v, (k - 1) as nat);
        let a = v.archs[k - 1];
        let gap = zeros((a.offset - prev.len()) as nat);
        let part = mach_bytes(a.mach);
        lemma_fat_layout(v, (k - 1) as nat);
        assert(padded_to(prev, a.offset as int) == prev + gap);
        let now = fat_bytes_upto(v, k);
        assert(now == prev + gap + part);
        lemma_holds_extend(prev, 0, table_bytes(v), gap);
        lemma_holds_extend(prev + gap, 0, table_bytes(v), part);
        lemma_holds_tail(prev + gap, part);
        assert forall|j: int| 0 <= j < k implies holds_at(
            now,
            (#[trigger] v.archs[j]).offset as int,
            mach_bytes(v.archs[j].mach),
        ) by {
            if j < k - 1 {
                lemma_holds_extend(
                    prev,
                    v.archs[j].offset as int,
                    mach_bytes(v.archs[j].mach),
                    gap,
                );
                lemma_holds_extend(
                    prev + gap,
                    v.archs[j].offset as int,
                    mach_bytes(v.archs[j].mach),
                    part,
                );
            }
        }
    }
}

/// The slots of a well-formed wrapper are read back from a buffer that
/// holds the fields of every slot in its table and the header of every
/// slot at its offset.
pub proof fn lemma_archs_round_trip(v: FatHeaderView, s: Seq<u8>, k: nat)
    requires
        fat_wf(v),
        k <= v.archs.len(),
        forall|i: int|
            0 <= i < v.archs.len() ==> words_at(s, 8 + 20 * i, 5, v.magic.order()) == arch_words(
                #[trigger] v.archs[i],
            ),
        forall|j: int|
            0 <= j < v.archs.len() ==> holds_at(
                s,
                (#[trigger] v.archs[j]).offset as int,
                mach_bytes(v.archs[j].mach),
            ),
    ensures
        archs_decoded(s, v.magic.order(), k) == Ok::<Seq<FatArchView>, DecodeError>(
            v.archs.take(k as int),
        ),
    decreases k,
{
    if k == 0 {
        assert(v.archs.take(0) =~= Seq::<FatArchView>::empty());
    } else {
        let a = v.archs[k - 1];
        lemma_archs_round_trip(v, s, (k - 1) as nat);
        let ws = words_at(s, 8 + 20 * (k - 1), 5, v.magic.order());
        assert(ws == arch_words(a));
        assert(holds_at(s, a.offset as int, mach_bytes(a.mach)));
        lemma_mach_round_trip(a.mach, s, a.offset as int);
        let got = FatArchView {
            cpu_type: CpuType::of_code(ws[0]),
            cpu_subtype: CpuSubtype::of_code(ws[1]),
            offset: ws[2],
            size: ws[3],
            align: ws[4],
            mach: a.mach,
        };
        assert(got == a);
        assert(v.archs.take(k - 1).push(a) =~= v.archs.take(k as int));
    }
}

/// The slots that were decoded are as many as were asked for; their codes
/// are the only values with their codes; and their headers are
/// well-formed where the texts in them fit their fields.
pub proof fn lemma_archs_decoded_wf(s: Seq<u8>, order: ByteOrder, k: nat)
    requires
        archs_decoded(s, order, k) is Ok,
        forall|i: int|
            0 <= i < archs_decoded(s, order, k)->Ok_0.len() ==> mach_names_fit(
                (#[trigger] archs_decoded(s, order, k)->Ok_0[i]).mach,
            ),
    ensures
        archs_decoded(s, order, k)->Ok_0.len() == k,
        forall|i: int|
            0 <= i < k ==> {
                &&& (#[trigger] archs_decoded(s, order, k)->Ok_0[i]).cpu_type.canonical()
                &&& archs_decoded(s, order, k)->Ok_0[i].cpu_subtype.canonical()
                &&& mach_wf(archs_decoded(s, order, k)->Ok_0[i].mach)
            },
    decreases k,
{
    if k > 0 {
        let all = archs_decoded(s, order, k)->Ok_0;
        let front = archs_decoded(s, order, (k - 1) as nat)->Ok_0;
        let ws = words_at(s, 8 + 20 * (k - 1), 5, order);
        let last = all[all.len() - 1];
        assert(all == front.push(last));
        assert forall|i: int| 0 <= i < front.len() implies mach_names_fit(
            (#[trigger] front[i]).mach,
        ) by {
            assert(all[i] == front[i]);
        }
        lemma_archs_decoded_wf(s, order, (k - 1) as nat);
        assert(all[k - 1] == last);
        assert(mach_names_fit(all[k - 1].mach));
        lemma_resolved_canonical(ws[0]);
        lemma_resolved_canonical(ws[1]);
        lemma_mach_decoded_wf(s, ws[2] as int, None);
        assert forall|i: int| 0 <= i < k implies {
            &&& (#[trigger] all[i]).cpu_type.canonical()
            &&& all[i].cpu_subtype.canonical()
            &&& mach_wf(all[i].mach)
        } by {
            if i < k - 1 {
                assert(all[i] == front[i]);
            }
        }
    }
}

/// A fat wrapper that was decoded is well-formed where it can be written
/// and the texts in its headers fit their fields.
pub proof fn lemma_fat_decoded_wf(s: Seq<u8>)
    requires
        fat_decoded(s) is Ok,
        fat_encode_error(fat_decoded(s)->Ok_0) is None,
        fat_names_fit(fat_decoded(s)->Ok_0),
    ensures
        fat_wf(fat_decoded(s)->Ok_0),
{
    let v = fat_decoded(s)->Ok_0;
    let order = v.magic.order();
    let n = u32_at(s, 4, order);
    lemma_archs_decoded_wf(s, order, n as nat);
}

/// Round trip of what was decoded: a fat wrapper that was decoded, that
/// can be written, and whose texts fit their fields, is given back by
/// decoding what it is written to.
pub proof fn law_fat_redecode(s: Seq<u8>)
    requires
        fat_decoded(s) is Ok,
        fat_encode_error(fat_decoded(s)->Ok_0) is None,
        fat_names_fit(fat_decoded(s)->Ok_0),
    ensures
        fat_decoded(fat_bytes(fat_decoded(s)->Ok_0)) == fat_decoded(s),
{
    lemma_fat_decoded_wf(s);
    law_fat_decode_encode(fat_decoded(s)->Ok_0);
}

/// The slots that were decoded first are the first of the slots that
/// were decoded in all.
pub proof fn lemma_archs_prefix(s: Seq<u8>, order: ByteOrder, k: nat, n: nat)
    requires
        k <= n,
        archs_decoded(s, order, n) is Ok,
    ensures
        archs_decoded(s, order, k) is Ok,
        archs_decoded(s, order, n)->Ok_0.len() == n,
        archs_decoded(s, order, k)->Ok_0 == archs_decoded(s, order, n)->Ok_0.take(k as int),
    decreases n - k,
{
    lemma_archs_len(s, order, n);
    if k < n {
        lemma_archs_prefix(s, order, (k + 1) as nat, n);
        lemma_archs_len(s, order, (k + 1) as nat);
        let next = archs_decoded(s, order, (k + 1) as nat)->Ok_0;
        let all = archs_decoded(s, order, n)->Ok_0;
        assert(next.drop_last() =~= all.take(k as int));
    } else {
        let all = archs_decoded(s, order, n)->Ok_0;
        assert(all.take(n as int) =~= all);
    }
}

/// As many slots are decoded as are asked for.
pub proof fn lemma_archs_len(s: Seq<u8>, order: ByteOrder, k: nat)
    requires
        archs_decoded(s, order, k) is Ok,
    ensures
        archs_decoded(s, order, k)->Ok_0.len() == k,
    decreases k,
{
    if k > 0 {
        lemma_archs_len(s, order, (k - 1) as nat);
    }
}

/// Writing the entries of the slots that were decoded gives the bytes of
/// the entries in the table.
pub proof fn lemma_entries_kept(s: Seq<u8>, order: ByteOrder, k: nat)
    requires
        8 + 20 * k <= s.len(),
        archs_decoded(s, order, k) is Ok,
    ensures
        entries_bytes(archs_decoded(s, order, k)->Ok_0, order) == s.subrange(8, 8 + 20 * k as int),
    decreases k,
{
    let all = archs_decoded(s, order, k)->Ok_0;
    if k == 0 {
        assert(entries_bytes(all, order) =~= s.subrange(8, 8));
    } else {
        let q = 8 + 20 * (k - 1);
        let ws = words_at(s, q, 5, order);
        let front = archs_decoded(s, order, (k - 1) as nat)->Ok_0;
        lemma_entries_kept(s, order, (k - 1) as nat);
        assert(all.drop_last() =~= front);
        lemma_resolved_canonical(ws[0]);
        lemma_resolved_canonical(ws[1]);
        assert(arch_words(all.last()) =~= ws);
        lemma_words_kept(s, q, 5, order);
        lemma_subrange_join(s, 8, q, 8 + 20 * k as int);
    }
}

/// Writing the slot table of a fat wrapper that was decoded gives the
/// bytes of the table.
pub proof fn lemma_table_kept(s: Seq<u8>)
    requires
        fat_decoded(s) is Ok,
    ensures
        table_bytes(fat_decoded(s)->Ok_0) == s.subrange(
            0,
            8 + 20 * fat_decoded(s)->Ok_0.archs.len() as int,
        ),
        fat_decoded(s)->Ok_0.archs.len() == u32_at(s, 4, fat_decoded(s)->Ok_0.magic.order()),
        8 + 20 * fat_decoded(s)->Ok_0.archs.len() <= s.len(),
{
    let v = fat_decoded(s)->Ok_0;
    let order = v.magic.order();
    let n = u32_at(s, 4, order);
    lemma_resolved_canonical(u32_at(s, 0, ByteOrder::Big));
    lemma_archs_len(s, order, n as nat);
    lemma_words_kept(s, 0, 1, ByteOrder::Big);
    assert(seq![v.magic.spec_code()] =~= words_at(s, 0, 1, ByteOrder::Big));
    lemma_words_kept(s, 4, 1, order);
    assert(seq![v.archs.len() as u32] =~= words_at(s, 4, 1, order));
    lemma_entries_kept(s, order, n as nat);
    lemma_subrange_join(s, 0, 4, 8);
    lemma_subrange_join(s, 0, 8, 8 + 20 * n);
}

/// Writing the first `k` slots of a fat wrapper that was decoded gives
/// the bytes up to the end of slot `k - 1`, where they are written as the
/// encoder writes them; and the headers of these slots are well-formed.
pub proof fn lemma_fat_kept_upto(s: Seq<u8>, k: nat)
    requires
        fat_decoded(s) is Ok,
        k <= fat_decoded(s)->Ok_0.archs.len(),
        fat_canonical_upto(s, fat_decoded(s)->Ok_0.magic.order(), k),
    ensures
        ({
            let v = fat_decoded(s)->Ok_0;
            let end = fat_end_upto(s, v.magic.order(), k);
            &&& 0 <= end <= s.len()
            &&& fat_error_upto(v, k) is None
            &&& fat_bytes_upto(v, k) == s.subrange(0, end)
            &&& forall|i: int| 0 <= i < k ==> mach_wf((#[trigger] v.archs[i]).mach)
        }),
    decreases k,
{
    let v = fat_decoded(s)->Ok_0;
    let order = v.magic.order();
    let n = u32_at(s, 4, order) as nat;
    lemma_table_kept(s);
    if k > 0 {
        let ws = words_at(s, 8 + 20 * (k - 1), 5, order);
        let offset = ws[2] as int;
        let before = fat_end_upto(s, order, (k - 1) as nat);
        let prev = fat_bytes_upto(v, (k - 1) as nat);
        lemma_fat_kept_upto(s, (k - 1) as nat);
        lemma_archs_prefix(s, order, k, n);
        lemma_archs_len(s, order, k);
        let a = archs_decoded(s, order, k)->Ok_0[k - 1];
        assert(a == v.archs[k - 1]);
        assert(a.offset == ws[2]);
        assert(mach_decoded(s, offset, None) is Ok);
        assert(a.mach == mach_decoded(s, offset, None)->Ok_0.0);
        law_mach_bytes_kept(s, offset, None);
        lemma_mach_end(s, offset);
        let end = fat_end_upto(s, order, k);
        assert(zeros((offset - before) as nat) =~= s.subrange(before, offset));
        lemma_subrange_join(s, 0, before, offset);
        lemma_subrange_join(s, 0, offset, end);
        assert(padded_to(prev, offset) == s.subrange(0, offset));
        assert forall|i: int| 0 <= i < k implies mach_wf((#[trigger] v.archs[i]).mach) by {}
    }
}

/// A header that was decoded ends within the buffer, behind its start.
pub proof fn lemma_mach_end(s: Seq<u8>, p: int)
    requires
        mach_decoded(s, p, None) is Ok,
        mach_canonical(s, p),
    ensures
        0 <= p <= mach_decoded(s, p, None)->Ok_0.1 <= s.len(),
        mach_encode_error(mach_decoded(s, p, None)->Ok_0.0) is None,
{
    law_mach_bytes_kept(s, p, None);
    lemma_mach_span(s, p);
}

/// Round trip on bytes: a fat wrapper that was decoded from a buffer that
/// is written as the encoder writes it is well-formed, and writing it
/// gives exactly the buffer.
pub proof fn law_fat_bytes_kept(s: Seq<u8>)
    requires
        fat_decoded(s) is Ok,
        fat_canonical(s),
    ensures
        fat_wf(fat_decoded(s)->Ok_0),
        fat_encoded(fat_decoded(s)->Ok_0) == Ok::<Seq<u8>, EncodeError>(s),
{
    let v = fat_decoded(s)->Ok_0;
    let order = v.magic.order();
    let n = u32_at(s, 4, order) as nat;
    lemma_table_kept(s);
    lemma_fat_kept_upto(s, n);
    lemma_resolved_canonical(u32_at(s, 0, ByteOrder::Big));
    assert(s.subrange(0, s.len() as int) =~= s);
    assert forall|i: int| 0 <= i < v.archs.len() implies {
        &&& (#[trigger] v.archs[i]).cpu_type.canonical()
        &&& v.archs[i].cpu_subtype.canonical()
        &&& mach_wf(v.archs[i].mach)
    } by {
        lemma_arch_codes(s, order, n, i);
    }
}

/// The codes of a slot that was decoded are the only values with their
/// codes.
pub proof fn lemma_arch_codes(s: Seq<u8>, order: ByteOrder, n: nat, i: int)
    requires
        archs_decoded(s, order, n) is Ok,
        0 <= i < n,
    ensures
        archs_decoded(s, order, n)->Ok_0.len() == n,
        archs_decoded(s, order, n)->Ok_0[i].cpu_type.canonical(),
        archs_decoded(s, order, n)->Ok_0[i].cpu_subtype.canonical(),
{
    lemma_archs_prefix(s, order, (i + 1) as nat, n);
    lemma_archs_len(s, order, (i + 1) as nat);
    let ws = words_at(s, 8 + 20 * i, 5, order);
    lemma_resolved_canonical(ws[0]);
    lemma_resolved_canonical(ws[1]);
    let part = archs_decoded(s, order, (i + 1) as nat)->Ok_0;
    let all = archs_decoded(s, order, n)->Ok_0;
    assert(part[i] == all.take(i + 1)[i]);
    assert(part[i].cpu_type == CpuType::of_code(ws[0]));
    assert(part[i].cpu_subtype == CpuSubtype::of_code(ws[1]));
}

/// Round trip: a well-formed fat wrapper can be written, and decoding
/// what was written gives the wrapper back.
pub proof fn law_fat_decode_encode(v: FatHeaderView)
    requires
        fat_wf(v),
    ensures
        fat_encoded(v) == Ok::<Seq<u8>, EncodeError>(fat_bytes(v)),
        fat_decoded(fat_bytes(v)) == Ok::<FatHeaderView, DecodeError>(v),
{
    let s = fat_bytes(v);
    let n = v.archs.len();
    lemma_fat_layout(v, n);
    lemma_table_round_trip(v, s);
    lemma_archs_round_trip(v, s, n);
    assert(v.archs.take(n as int) =~= v.archs);
}

/// Round trip on bytes: the bytes that a well-formed fat wrapper is
/// written to are decoded to a wrapper that is written to the same bytes.
pub proof fn law_fat_encode_decode(v: FatHeaderView, s: Seq<u8>)
    requires
        fat_wf(v),
        s == fat_bytes(v),
    ensures
        fat_decoded(s) is Ok,
        fat_encoded(fat_decoded(s)->Ok_0) == Ok::<Seq<u8>, EncodeError>(s),
{
    law_fat_decode_encode(v);
}

} // verus!
