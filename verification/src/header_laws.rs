//! What holds of headers: the counts that are written are those of the
//! commands, and a header is read back from its own bytes.

use vstd::prelude::*;
use crate::command::{
    command_bytes, command_decoded, command_names_fit, command_wf, LoadCommandView,
};
use crate::command_laws::{
    lemma_command_decoded_wf, lemma_command_kept, lemma_command_round_trip, lemma_decoded_bounds,
    lemma_wf_no_error,
};
use crate::command_write::lemma_command_len;
use crate::errors::{DecodeError, EncodeError};
use crate::header::{
    commands_bytes, commands_canonical, commands_decoded, commands_encode_error, commands_len,
    mach_bytes, mach_canonical, mach_decoded, mach_encode_error, mach_encoded, mach_head_len,
    mach_names_fit, mach_wf, mach_words, MachHeaderView,
};
use crate::tags::{lemma_resolved_canonical, CpuSubtype, CpuType, FileType, MagicKind};
use crate::wire::{
    holds_at, lemma_holds_split, lemma_subrange_join, lemma_words_kept, lemma_words_len,
    lemma_words_round_trip, u32_at, words_at, words_bytes, ByteOrder,
};

verus! {

/// The commands of a list that can be written are each written with their
/// own length: the bytes of the list take the sum of the lengths.
pub proof fn lemma_commands_bytes_len(commands: Seq<LoadCommandView>, order: ByteOrder)
    requires
        forall|i: int| 0 <= i < commands.len() ==> command_wf(#[trigger] commands[i]),
    ensures
        commands_bytes(commands, order).len() == commands_len(commands),
        commands_encode_error(commands) is None,
    decreases commands.len(),
{
    if commands.len() > 0 {
        let front = commands.drop_last();
        assert forall|i: int| 0 <= i < front.len() implies command_wf(#[trigger] front[i]) by {
            assert(front[i] == commands[i]);
        }
        lemma_commands_bytes_len(front, order);
        assert(command_wf(commands[commands.len() - 1]));
        lemma_wf_no_error(commands.last());
        lemma_command_len(commands.last(), order);
    }
}

/// A list of well-formed commands is read back from its bytes, where the
/// declared total size leaves room for all of them.
pub proof fn lemma_commands_round_trip(
    commands: Seq<LoadCommandView>,
    s: Seq<u8>,
    start: int,
    order: ByteOrder,
    declared: u32,
    total: u32,
)
    requires
        forall|i: int| 0 <= i < commands.len() ==> command_wf(#[trigger] commands[i]),
        holds_at(s, start, commands_bytes(commands, order)),
        commands_len(commands) <= total,
    ensures
        commands_decoded(s, start, order, commands.len(), declared, total) == Ok::<
            (Seq<LoadCommandView>, int),
            DecodeError,
        >((commands, start + commands_len(commands))),
    decreases commands.len(),
{
    if commands.len() > 0 {
        let front = commands.drop_last();
        let last = commands.last();
        assert forall|i: int| 0 <= i < front.len() implies command_wf(#[trigger] front[i]) by {
            assert(front[i] == commands[i]);
        }
        assert(command_wf(commands[commands.len() - 1]));
        lemma_commands_bytes_len(front, order);
        lemma_holds_split(s, start, commands_bytes(front, order), command_bytes(last, order));
        lemma_commands_round_trip(front, s, start, order, declared, total);
        lemma_wf_no_error(last);
        lemma_command_len(last, order);
        crate::command_laws::lemma_min_len(last);
        lemma_command_round_trip(last, s, start + commands_len(front), order);
        assert(front.push(last) =~= commands);
    } else {
        assert(commands =~= Seq::<LoadCommandView>::empty());
    }
}

/// The fields of a header are read back from its bytes.
proof fn lemma_mach_fields(v: MachHeaderView, s: Seq<u8>, p: int)
    requires
        holds_at(s, p, mach_bytes(v)),
    ensures
        0 <= p,
        p + mach_bytes(v).len() <= s.len(),
        mach_bytes(v).len() == mach_head_len(v.magic) + commands_bytes(
            v.commands,
            v.magic.order(),
        ).len(),
        u32_at(s, p, ByteOrder::Big) == v.magic.spec_code(),
        words_at(s, p + 4, 6, v.magic.order()) =~= mach_words(v).take(6),
        v.magic.is_wide() ==> u32_at(s, p + 28, v.magic.order()) == mach_words(v)[6],
        holds_at(s, p + mach_head_len(v.magic), commands_bytes(v.commands, v.magic.order())),
{
    reveal(mach_bytes);
    let order = v.magic.order();
    let first = seq![v.magic.spec_code()];
    let ws = mach_words(v);
    let e1 = words_bytes(first, ByteOrder::Big);
    let e2 = e1 + words_bytes(ws, order);
    lemma_words_len(first, ByteOrder::Big);
    lemma_words_len(ws, order);
    lemma_holds_split(s, p, e2, commands_bytes(v.commands, order));
    lemma_holds_split(s, p, e1, words_bytes(ws, order));
    lemma_words_round_trip(s, p, first, ByteOrder::Big);
    assert(words_at(s, p, 1, ByteOrder::Big)[0] == first[0]);
    lemma_words_round_trip(s, p + 4, ws, order);
    let got = words_at(s, p + 4, 6, order);
    let all = words_at(s, p + 4, ws.len(), order);
    assert forall|i: int| 0 <= i < 6 implies got[i] == ws.take(6)[i] by {
        assert(got[i] == all[i]);
    }
    if v.magic.is_wide() {
        assert(all[6] == u32_at(s, p + 28, order));
    }
}

/// Decoding yields a header where its fields and its commands are read
/// from the buffer.
proof fn lemma_mach_from_parts(v: MachHeaderView, s: Seq<u8>, p: int, n: int)
    requires
        mach_wf(v),
        0 <= p,
        p + mach_head_len(v.magic) + n <= s.len(),
        n == commands_len(v.commands),
        u32_at(s, p, ByteOrder::Big) == v.magic.spec_code(),
        words_at(s, p + 4, 6, v.magic.order()) =~= mach_words(v).take(6),
        v.magic.is_wide() ==> u32_at(s, p + 28, v.magic.order()) == mach_words(v)[6],
        commands_decoded(
            s,
            p + mach_head_len(v.magic),
            v.magic.order(),
            v.commands.len(),
            v.commands.len() as u32,
            n as u32,
        ) == Ok::<(Seq<LoadCommandView>, int), DecodeError>(
            (v.commands, p + mach_head_len(v.magic) + n),
        ),
    ensures
        mach_decoded(s, p, None) == Ok::<(MachHeaderView, int), DecodeError>(
            (v, p + mach_head_len(v.magic) + n),
        ),
        mach_decoded(s, p, Some(v.magic.order())) == mach_decoded(s, p, None),
{
    reveal(mach_decoded);
    let order = v.magic.order();
    let ws = words_at(s, p + 4, 6, order);
    let want = mach_words(v).take(6);
    assert(ws[0] == want[0]);
    assert(ws[1] == want[1]);
    assert(ws[2] == want[2]);
    assert(ws[3] == want[3]);
    assert(ws[4] == want[4]);
    assert(ws[5] == want[5]);
}

/// A well-formed header is read back from its own bytes, wherever they
/// lie in a buffer and whatever follows them, with no hint and with the
/// hint of its own byte order.
pub proof fn lemma_mach_round_trip(v: MachHeaderView, s: Seq<u8>, p: int)
    requires
        mach_wf(v),
        holds_at(s, p, mach_bytes(v)),
    ensures
        mach_encode_error(v) is None,
        mach_decoded(s, p, None) == Ok::<(MachHeaderView, int), DecodeError>(
            (v, p + mach_bytes(v).len()),
        ),
        mach_decoded(s, p, Some(v.magic.order())) == mach_decoded(s, p, None),
        mach_bytes(v).len() == mach_head_len(v.magic) + commands_len(v.commands),
{
    reveal(mach_encode_error);
    let order = v.magic.order();
    let head = mach_head_len(v.magic);
    lemma_commands_bytes_len(v.commands, order);
    lemma_mach_fields(v, s, p);
    lemma_commands_round_trip(
        v.commands,
        s,
        p + head,
        order,
        v.commands.len() as u32,
        commands_len(v.commands) as u32,
    );
    lemma_mach_from_parts(v, s, p, commands_len(v.commands) as int);
}

/// The commands that were decoded from a table are as many as were asked
/// for, end where the sum of their lengths says, and are well-formed where
/// their texts fit.
pub proof fn lemma_commands_decoded_wf(
    s: Seq<u8>,
    start: int,
    order: ByteOrder,
    k: nat,
    declared: u32,
    total: u32,
)
    requires
        commands_decoded(s, start, order, k, declared, total) is Ok,
        forall|i: int|
            0 <= i < commands_decoded(s, start, order, k, declared, total)->Ok_0.0.len()
                ==> command_names_fit(
                #[trigger] commands_decoded(s, start, order, k, declared, total)->Ok_0.0[i],
            ),
    ensures
        commands_decoded(s, start, order, k, declared, total)->Ok_0.0.len() == k,
        commands_decoded(s, start, order, k, declared, total)->Ok_0.1 == start + commands_len(
            commands_decoded(s, start, order, k, declared, total)->Ok_0.0,
        ),
        forall|i: int|
            0 <= i < k ==> command_wf(
                #[trigger] commands_decoded(s, start, order, k, declared, total)->Ok_0.0[i],
            ),
    decreases k,
{
    if k > 0 {
        let all = commands_decoded(s, start, order, k, declared, total)->Ok_0.0;
        let prev = commands_decoded(s, start, order, (k - 1) as nat, declared, total);
        let front = prev->Ok_0.0;
        let p = prev->Ok_0.1;
        let c = command_decoded(s, p, order)->Ok_0.0;
        assert(all == front.push(c));
        assert forall|i: int| 0 <= i < front.len() implies command_names_fit(
            #[trigger] front[i],
        ) by {
            assert(all[i] == front[i]);
        }
        lemma_commands_decoded_wf(s, start, order, (k - 1) as nat, declared, total);
        assert(all[k - 1] == c);
        assert(command_names_fit(all[k - 1]));
        lemma_command_decoded_wf(s, p, order);
        assert(all.drop_last() =~= front);
        assert forall|i: int| 0 <= i < k implies command_wf(#[trigger] all[i]) by {
            if i < k - 1 {
                assert(all[i] == front[i]);
            }
        }
    }
}

/// What a header that was decoded is made of: its magic number and its
/// codes are resolved from the fields in the buffer, and its commands are
/// the declared number of commands of the table behind it, which take the
/// declared total size.
proof fn lemma_mach_decoded_parts(s: Seq<u8>, p: int, hint: Option<ByteOrder>)
    requires
        mach_decoded(s, p, hint) is Ok,
    ensures
        ({
            let v = mach_decoded(s, p, hint)->Ok_0.0;
            let end = mach_decoded(s, p, hint)->Ok_0.1;
            let ws = words_at(s, p + 4, 6, v.magic.order());
            let start = p + mach_head_len(v.magic);
            &&& v.magic == MagicKind::of_code(u32_at(s, p, ByteOrder::Big))
            &&& v.magic.is_thin()
            &&& v.cpu_type == CpuType::of_code(ws[0])
            &&& v.cpu_subtype == CpuSubtype::of_code(ws[1])
            &&& v.file_type == FileType::of_code(ws[2])
            &&& v.reserved is Some <==> v.magic.is_wide()
            &&& commands_decoded(s, start, v.magic.order(), ws[3] as nat, ws[3], ws[4]) == Ok::<
                (Seq<LoadCommandView>, int),
                DecodeError,
            >((v.commands, end))
            &&& end - start == ws[4]
        }),
{
    reveal(mach_decoded);
}

/// A header that was decoded is well-formed where the texts of its
/// commands fit their fields.
pub proof fn lemma_mach_decoded_wf(s: Seq<u8>, p: int, hint: Option<ByteOrder>)
    requires
        mach_decoded(s, p, hint) is Ok,
        mach_names_fit(mach_decoded(s, p, hint)->Ok_0.0),
    ensures
        mach_wf(mach_decoded(s, p, hint)->Ok_0.0),
{
    let v = mach_decoded(s, p, hint)->Ok_0.0;
    let order = v.magic.order();
    let ws = words_at(s, p + 4, 6, order);
    lemma_mach_decoded_parts(s, p, hint);
    lemma_resolved_canonical(ws[0]);
    lemma_resolved_canonical(ws[1]);
    lemma_resolved_canonical(ws[2]);
    lemma_commands_decoded_wf(s, p + mach_head_len(v.magic), order, ws[3] as nat, ws[3], ws[4]);
}

/// Writing the commands that were decoded from a table gives the bytes of
/// the table, where they are written as the encoder writes them; and the
/// commands are well-formed.
pub proof fn lemma_commands_kept(
    s: Seq<u8>,
    start: int,
    order: ByteOrder,
    k: nat,
    declared: u32,
    total: u32,
)
    requires
        0 <= start <= s.len(),
        commands_decoded(s, start, order, k, declared, total) is Ok,
        commands_canonical(s, start, order, k, declared, total),
    ensures
        ({
            let commands = commands_decoded(s, start, order, k, declared, total)->Ok_0.0;
            let end = commands_decoded(s, start, order, k, declared, total)->Ok_0.1;
            &&& commands.len() == k
            &&& start <= end <= s.len()
            &&& end == start + commands_len(commands)
            &&& commands_bytes(commands, order) == s.subrange(start, end)
            &&& forall|i: int| 0 <= i < k ==> command_wf(#[trigger] commands[i])
        }),
    decreases k,
{
    let all = commands_decoded(s, start, order, k, declared, total)->Ok_0.0;
    if k == 0 {
        assert(commands_bytes(all, order) =~= s.subrange(start, start));
    } else {
        let prev = commands_decoded(s, start, order, (k - 1) as nat, declared, total);
        let front = prev->Ok_0.0;
        let p = prev->Ok_0.1;
        let c = command_decoded(s, p, order)->Ok_0.0;
        let q = command_decoded(s, p, order)->Ok_0.1;
        lemma_commands_kept(s, start, order, (k - 1) as nat, declared, total);
        lemma_command_kept(s, p, order);
        lemma_decoded_bounds(s, p, order);
        assert(all == front.push(c));
        assert(all.drop_last() =~= front);
        lemma_subrange_join(s, start, p, q);
        assert forall|i: int| 0 <= i < k implies command_wf(#[trigger] all[i]) by {
            if i < k - 1 {
                assert(all[i] == front[i]);
            }
        }
    }
}

/// The fields of a header that was decoded are written back to the bytes
/// that they were read from.
proof fn lemma_mach_head_kept(s: Seq<u8>, p: int, hint: Option<ByteOrder>)
    requires
        mach_decoded(s, p, hint) is Ok,
        commands_len(mach_decoded(s, p, hint)->Ok_0.0.commands) == words_at(
            s,
            p + 4,
            6,
            mach_decoded(s, p, hint)->Ok_0.0.magic.order(),
        )[4],
        mach_decoded(s, p, hint)->Ok_0.0.commands.len() == words_at(
            s,
            p + 4,
            6,
            mach_decoded(s, p, hint)->Ok_0.0.magic.order(),
        )[3],
    ensures
        ({
            let v = mach_decoded(s, p, hint)->Ok_0.0;
            &&& 0 <= p
            &&& p + mach_head_len(v.magic) <= s.len()
            &&& words_bytes(seq![v.magic.spec_code()], ByteOrder::Big) + words_bytes(
                mach_words(v),
                v.magic.order(),
            ) == s.subrange(p, p + mach_head_len(v.magic))
        }),
{
    reveal(mach_decoded);
    let v = mach_decoded(s, p, hint)->Ok_0.0;
    let order = v.magic.order();
    let ws = words_at(s, p + 4, 6, order);
    lemma_resolved_canonical(u32_at(s, p, ByteOrder::Big));
    lemma_resolved_canonical(ws[0]);
    lemma_resolved_canonical(ws[1]);
    lemma_resolved_canonical(ws[2]);
    lemma_words_kept(s, p, 1, ByteOrder::Big);
    assert(seq![v.magic.spec_code()] =~= words_at(s, p, 1, ByteOrder::Big));
    if v.magic.is_wide() {
        let all = words_at(s, p + 4, 7, order);
        assert(mach_words(v) =~= all) by {
            assert(all[0] == ws[0]);
            assert(all[1] == ws[1]);
            assert(all[2] == ws[2]);
            assert(all[3] == ws[3]);
            assert(all[4] == ws[4]);
            assert(all[5] == ws[5]);
            assert(all[6] == u32_at(s, p + 28, order));
        }
        lemma_words_kept(s, p + 4, 7, order);
        lemma_subrange_join(s, p, p + 4, p + 32);
    } else {
        assert(mach_words(v) =~= ws);
        lemma_words_kept(s, p + 4, 6, order);
        lemma_subrange_join(s, p, p + 4, p + 28);
    }
}

/// Round trip on bytes: a header that was decoded from bytes that are
/// written as the encoder writes them is well-formed, and writing it
/// gives exactly the bytes that it was decoded from.
pub proof fn law_mach_bytes_kept(s: Seq<u8>, p: int, hint: Option<ByteOrder>)
    requires
        mach_decoded(s, p, hint) is Ok,
        mach_canonical(s, p),
    ensures
        mach_wf(mach_decoded(s, p, hint)->Ok_0.0),
        mach_encoded(mach_decoded(s, p, hint)->Ok_0.0) == Ok::<Seq<u8>, EncodeError>(
            s.subrange(p, mach_decoded(s, p, hint)->Ok_0.1),
        ),
{
    let v = mach_decoded(s, p, hint)->Ok_0.0;
    let end = mach_decoded(s, p, hint)->Ok_0.1;
    let order = v.magic.order();
    let ws = words_at(s, p + 4, 6, order);
    let start = p + mach_head_len(v.magic);
    lemma_mach_decoded_parts(s, p, hint);
    lemma_mach_decoded_bounds(s, p, hint);
    lemma_commands_kept(s, start, order, ws[3] as nat, ws[3], ws[4]);
    lemma_mach_head_kept(s, p, hint);
    lemma_resolved_canonical(ws[0]);
    lemma_resolved_canonical(ws[1]);
    lemma_resolved_canonical(ws[2]);
    lemma_subrange_join(s, p, start, end);
    assert(holds_at(mach_bytes(v), 0, mach_bytes(v)));
    lemma_mach_round_trip(v, mach_bytes(v), 0);
    reveal(mach_bytes);
}

/// A header that was decoded lies within the buffer, and ends behind its
/// start.
pub proof fn lemma_mach_span(s: Seq<u8>, p: int)
    requires
        mach_decoded(s, p, None) is Ok,
        mach_canonical(s, p),
    ensures
        0 <= p <= mach_decoded(s, p, None)->Ok_0.1 <= s.len(),
{
    let v = mach_decoded(s, p, None)->Ok_0.0;
    let order = v.magic.order();
    let ws = words_at(s, p + 4, 6, order);
    lemma_mach_decoded_parts(s, p, None);
    lemma_mach_decoded_bounds(s, p, None);
    lemma_commands_kept(s, p + mach_head_len(v.magic), order, ws[3] as nat, ws[3], ws[4]);
}

/// The header that was decoded at a position lies within the buffer.
proof fn lemma_mach_decoded_bounds(s: Seq<u8>, p: int, hint: Option<ByteOrder>)
    requires
        mach_decoded(s, p, hint) is Ok,
    ensures
        0 <= p,
        p + mach_head_len(mach_decoded(s, p, hint)->Ok_0.0.magic) <= s.len(),
{
    reveal(mach_decoded);
}

/// Round trip of what was decoded: a header that was decoded, and whose
/// texts fit their fields, can be written, and decoding what was written
/// gives the header back.
pub proof fn law_mach_redecode(s: Seq<u8>, p: int, hint: Option<ByteOrder>)
    requires
        mach_decoded(s, p, hint) is Ok,
        mach_names_fit(mach_decoded(s, p, hint)->Ok_0.0),
    ensures
        mach_encoded(mach_decoded(s, p, hint)->Ok_0.0) is Ok,
        mach_decoded(mach_encoded(mach_decoded(s, p, hint)->Ok_0.0)->Ok_0, 0, None) is Ok,
        mach_decoded(mach_encoded(mach_decoded(s, p, hint)->Ok_0.0)->Ok_0, 0, None)->Ok_0.0
            == mach_decoded(s, p, hint)->Ok_0.0,
{
    lemma_mach_decoded_wf(s, p, hint);
    law_mach_decode_encode(mach_decoded(s, p, hint)->Ok_0.0);
}

/// Round trip: a well-formed header can be written, and decoding what was
/// written gives the header back.
pub proof fn law_mach_decode_encode(v: MachHeaderView)
    requires
        mach_wf(v),
    ensures
        mach_encoded(v) == Ok::<Seq<u8>, EncodeError>(mach_bytes(v)),
        mach_decoded(mach_bytes(v), 0, None) == Ok::<(MachHeaderView, int), DecodeError>(
            (v, mach_bytes(v).len() as int),
        ),
{
    let s = mach_bytes(v);
    assert(holds_at(s, 0, s));
    lemma_mach_round_trip(v, s, 0);
}

/// Round trip on bytes: the bytes that a well-formed header is written to
/// are decoded to a header that is written to the same bytes.
pub proof fn law_mach_encode_decode(v: MachHeaderView, s: Seq<u8>)
    requires
        mach_wf(v),
        s == mach_bytes(v),
    ensures
        mach_decoded(s, 0, None) is Ok,
        mach_encoded(mach_decoded(s, 0, None)->Ok_0.0) == Ok::<Seq<u8>, EncodeError>(s),
{
    law_mach_decode_encode(v);
}

/// Computed fields: in the bytes of any header that can be written, the
/// field for the number of commands holds the number of the commands of
/// the value, and the field for their total size holds the sum of the
/// lengths that the commands are written with.
pub proof fn law_computed_counts(v: MachHeaderView)
    requires
        mach_encode_error(v) is None,
    ensures
        u32_at(mach_bytes(v), 16, v.magic.order()) == v.commands.len(),
        u32_at(mach_bytes(v), 20, v.magic.order()) == commands_len(v.commands),
{
    let order = v.magic.order();
    let s = mach_bytes(v);
    assert(holds_at(s, 0, s));
    lemma_mach_fields(v, s, 0);
    let got = words_at(s, 4, 6, order);
    let want = mach_words(v).take(6);
    assert(got[3] == want[3]);
    assert(got[4] == want[4]);
    reveal(mach_encode_error);
}

} // verus!
