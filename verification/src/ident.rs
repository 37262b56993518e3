//! The 128-bit identifier that a load command may carry.

use vstd::prelude::*;

verus! {

/// `uuid::Uuid`, a 128-bit identifier.  Nothing is known of a value but
/// the sixteen bytes that it holds.
#[verifier::external_type_specification]
#[verifier::external_body]
pub struct ExUuid(uuid::Uuid);

/// The sixteen bytes that an identifier holds, in the order in which they
/// are stored.
pub uninterp spec fn uuid_octets(id: uuid::Uuid) -> Seq<u8>;

/// `uuid::Uuid::from_bytes` wraps the sixteen bytes it is given, unchanged
/// and in the same order.
pub assume_specification[ uuid::Uuid::from_bytes ](bytes: uuid::Bytes) -> (id: uuid::Uuid)
    ensures
        uuid_octets(id) == bytes@,
;

/// `uuid::Uuid::as_bytes` hands out the sixteen bytes that the identifier
/// holds.
pub assume_specification[ uuid::Uuid::as_bytes ](id: &uuid::Uuid) -> (bytes: &uuid::Bytes)
    ensures
        bytes@ == uuid_octets(*id),
;

/// A copy of an identifier holds the same sixteen bytes (the type is `Copy`,
/// and its `Clone` is derived).
pub assume_specification[ <uuid::Uuid as Clone>::clone ](id: &uuid::Uuid) -> (copy: uuid::Uuid)
    ensures
        uuid_octets(copy) == uuid_octets(*id),
;

/// Builds an identifier from the sixteen bytes at `pos`.
pub(crate) fn read_uuid(bytes: &[u8], pos: usize) -> (id: uuid::Uuid)
    requires
        pos + 16 <= bytes.len(),
    ensures
        uuid_octets(id) == bytes@.subrange(pos as int, pos + 16),
{
    let mut raw: [u8; 16] = [0u8; 16];
    let mut i: usize = 0;
    while i < 16
        invariant
            i <= 16,
            pos + 16 <= bytes.len(),
            forall|j: int| 0 <= j < i ==> raw@[j] == bytes@[pos + j],
        decreases 16 - i,
    {
        raw[i] = bytes[pos + i];
        i += 1;
    }
    let id = uuid::Uuid::from_bytes(raw);
    assert(uuid_octets(id) =~= bytes@.subrange(pos as int, pos + 16));
    id
}

/// Appends the sixteen bytes of `id` to `out`.
pub(crate) fn put_uuid(out: &mut Vec<u8>, id: &uuid::Uuid)
    ensures
        final(out)@ == old(out)@ + uuid_octets(*id),
        uuid_octets(*id).len() == 16,
{
    let raw = id.as_bytes();
    let mut i: usize = 0;
    while i < 16
        invariant
            i <= 16,
            raw@ == uuid_octets(*id),
            out@ == old(out)@ + raw@.subrange(0, i as int),
        decreases 16 - i,
    {
        out.push(raw[i]);
        i += 1;
        assert(out@ =~= old(out)@ + raw@.subrange(0, i as int));
    }
    assert(raw@.subrange(0, 16) =~= raw@);
}

} // verus!
