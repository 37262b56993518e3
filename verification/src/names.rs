//! Texts in fields of fixed width, padded with NUL bytes.

use vstd::prelude::*;
use vstd::utf8::*;
use vstd::slice::slice_subrange;
use crate::errors::{EncodeError, NameField};

verus! {

/// The text that `String::from_utf8_lossy` makes of bytes that are not valid
/// UTF-8.
pub uninterp spec fn utf8_lossy(bytes: Seq<u8>) -> Seq<char>;

/// The text that a run of bytes stands for: the characters that it encodes
/// where it is valid UTF-8, and otherwise what the lossy conversion of the
/// standard library makes of it.
pub open spec fn text_of(bytes: Seq<u8>) -> Seq<char> {
    if valid_utf8(bytes) {
        decode_utf8(bytes)
    } else {
        utf8_lossy(bytes)
    }
}

/// `String::from_utf8_lossy` yields the text that valid UTF-8 encodes; of
/// other input only that the result depends on the bytes alone.
#[verifier::external_body]
fn lossy_text(bytes: &[u8]) -> (text: String)
    ensures
        valid_utf8(bytes@) ==> text@ == decode_utf8(bytes@),
        !valid_utf8(bytes@) ==> text@ == utf8_lossy(bytes@),
{
    String::from_utf8_lossy(bytes).into_owned()
}

/// The position of the first NUL byte of `b` at or after `i`, or the length
/// of `b` where there is none.
pub open spec fn nul_from(b: Seq<u8>, i: int) -> int
    decreases b.len() - i,
{
    if i < 0 || i >= b.len() || b[i] == 0 {
        i
    } else {
        nul_from(b, i + 1)
    }
}

/// The bytes of `b` before its first NUL byte; all of `b` where it has
/// none.
pub open spec fn before_nul(b: Seq<u8>) -> Seq<u8> {
    b.subrange(0, nul_from(b, 0))
}

/// `b` padded with NUL bytes to exactly `width` bytes; where `b` is longer,
/// its first `width` bytes.  No field is written from bytes that are
/// longer than the field: the encoder refuses them before.
pub open spec fn fitted(b: Seq<u8>, width: nat) -> Seq<u8> {
    Seq::new(
        width,
        |i: int|
            if i < b.len() {
                b[i]
            } else {
                0u8
            },
    )
}

/// The text held by the field of `width` bytes at position `p`.
pub open spec fn name_at(s: Seq<u8>, p: int, width: int) -> Seq<char>
    recommends
        0 <= p,
        0 <= width,
        p + width <= s.len(),
{
    text_of(before_nul(s.subrange(p, p + width)))
}

/// The field of `width` bytes that holds `text`, for a text that takes no
/// more than `width` bytes.
pub open spec fn name_bytes(text: Seq<char>, width: nat) -> Seq<u8> {
    fitted(encode_utf8(text), width)
}

/// `text` can be stored in a field of `width` bytes and read back: its
/// encoding fits and holds no NUL byte.
pub open spec fn name_fits(text: Seq<char>, width: nat) -> bool {
    &&& encode_utf8(text).len() <= width
    &&& forall|i: int| 0 <= i < encode_utf8(text).len() ==> encode_utf8(text)[i] != 0
}

/// Where the bytes of `b` before `i` hold no NUL, the first NUL of `b` is
/// the first at or after `i`.
pub proof fn lemma_nul_from_skips(b: Seq<u8>, i: int)
    requires
        0 <= i <= b.len(),
        forall|j: int| 0 <= j < i ==> b[j] != 0,
    ensures
        nul_from(b, 0) == nul_from(b, i),
    decreases i,
{
    if i > 0 {
        lemma_nul_from_skips(b, i - 1);
    }
}

/// The first NUL lies within the bytes, and no byte before it is NUL.
pub proof fn lemma_nul_from_bounds(b: Seq<u8>, i: int)
    requires
        0 <= i <= b.len(),
    ensures
        i <= nul_from(b, i) <= b.len(),
        forall|j: int| i <= j < nul_from(b, i) ==> b[j] != 0,
        nul_from(b, i) < b.len() ==> b[nul_from(b, i)] == 0,
    decreases b.len() - i,
{
    if i < b.len() && b[i] != 0 {
        lemma_nul_from_bounds(b, i + 1);
    }
}

/// A text that fits its field is read back from the bytes of the field.
pub proof fn lemma_name_round_trip(s: Seq<u8>, p: int, text: Seq<char>, width: nat)
    requires
        name_fits(text, width),
        crate::wire::holds_at(s, p, name_bytes(text, width)),
    ensures
        name_at(s, p, width as int) == text,
{
    let enc = encode_utf8(text);
    let field = s.subrange(p, p + width);
    assert(field =~= name_bytes(text, width)) by {
        assert forall|i: int| 0 <= i < width implies field[i] == name_bytes(text, width)[i] by {
            assert(s[p + i] == name_bytes(text, width)[i]);
        }
    }
    lemma_nul_from_skips(field, enc.len() as int);
    assert(nul_from(field, enc.len() as int) == enc.len());
    assert(before_nul(field) =~= enc);
    encode_utf8_valid_utf8(text);
    encode_utf8_decode_utf8(text);
}

/// The field of `width` bytes at position `p` is written as the encoder
/// writes a text: its bytes before the first NUL byte are valid UTF-8,
/// and every byte behind them is NUL.
pub open spec fn field_canonical(s: Seq<u8>, p: int, width: nat) -> bool {
    let field = s.subrange(p, p + width);
    &&& valid_utf8(before_nul(field))
    &&& forall|i: int| nul_from(field, 0) <= i < width ==> #[trigger] field[i] == 0
}

/// Writing the text that is read from a field gives the bytes of the
/// field, where the field is written as the encoder writes it.
pub proof fn lemma_field_kept(s: Seq<u8>, p: int, width: nat)
    requires
        0 <= p,
        p + width <= s.len(),
        field_canonical(s, p, width),
    ensures
        name_fits(name_at(s, p, width as int), width),
        name_bytes(name_at(s, p, width as int), width) == s.subrange(p, p + width),
{
    let field = s.subrange(p, p + width);
    let n = nul_from(field, 0);
    lemma_nul_from_bounds(field, 0);
    assert forall|i: int| 0 <= i < n implies #[trigger] s[p + i] != 0 by {
        assert(field[i] == s[p + i]);
    }
    assert forall|i: int| n <= i < width implies #[trigger] s[p + i] == 0 by {
        assert(field[i] == s[p + i]);
    }
    assert(s.subrange(p, p + n) =~= before_nul(field));
    law_padded_field(s, p, width, n);
}

/// The text of a field fits the field where the bytes before the first
/// NUL byte of the field are valid UTF-8.
pub proof fn law_valid_field_fits(s: Seq<u8>, p: int, width: nat)
    requires
        0 <= p,
        p + width <= s.len(),
        valid_utf8(before_nul(s.subrange(p, p + width))),
    ensures
        name_fits(name_at(s, p, width as int), width),
{
    let field = s.subrange(p, p + width);
    let front = before_nul(field);
    lemma_nul_from_bounds(field, 0);
    decode_utf8_encode_utf8(front);
    assert forall|i: int| 0 <= i < front.len() implies front[i] != 0 by {
        assert(front[i] == field[i]);
    }
}

/// A field without a NUL byte is significant as a whole: where every
/// byte of a field is an ASCII character other than NUL, the text of the
/// field has as many characters as the field has bytes, each the
/// character of its byte, and none of them NUL.
pub proof fn law_full_field(s: Seq<u8>, p: int, width: nat)
    requires
        0 <= p,
        p + width <= s.len(),
        forall|i: int| 0 <= i < width ==> 0 < #[trigger] s[p + i] < 0x80,
    ensures
        name_at(s, p, width as int).len() == width,
        forall|i: int|
            0 <= i < width ==> #[trigger] name_at(s, p, width as int)[i] == s[p + i] as char
                && name_at(s, p, width as int)[i] != '\0',
{
    let field = s.subrange(p, p + width);
    let text = Seq::new(width, |i: int| s[p + i] as char);
    assert forall|i: int| 0 <= i < field.len() implies field[i] != 0 by {
        assert(field[i] == s[p + i]);
    }
    lemma_nul_from_skips(field, width as int);
    assert(before_nul(field) =~= field);
    assert(is_ascii_chars(text)) by {
        assert forall|i: int| 0 <= i < text.len() implies '\0' <= #[trigger] text[i]
            <= '\u{7f}' by {
            assert(0 < s[p + i] < 0x80);
        }
    }
    is_ascii_chars_encode_utf8(text);
    assert(encode_utf8(text) =~= field) by {
        assert forall|i: int| 0 <= i < width implies encode_utf8(text)[i] == field[i] by {
            assert(text[i] as u8 == encode_utf8(text)[i]);
            assert(0 < s[p + i] < 0x80);
        }
    }
    encode_utf8_valid_utf8(text);
    encode_utf8_decode_utf8(text);
    assert(name_at(s, p, width as int) == text);
    assert forall|i: int| 0 <= i < width implies #[trigger] name_at(s, p, width as int)[i] == s[p
        + i] as char && name_at(s, p, width as int)[i] != '\0' by {
        assert(0 < s[p + i] < 0x80);
    }
}

/// A field that is padded is cut at its first NUL byte, and written back
/// as it was: where a field holds valid UTF-8 without a NUL byte in its
/// first `n` bytes and NUL bytes in the rest, its text is what the first
/// `n` bytes encode, and the field that holds this text is the field
/// itself.
pub proof fn law_padded_field(s: Seq<u8>, p: int, width: nat, n: int)
    requires
        0 <= p,
        p + width <= s.len(),
        0 <= n <= width,
        forall|i: int| 0 <= i < n ==> #[trigger] s[p + i] != 0,
        forall|i: int| n <= i < width ==> #[trigger] s[p + i] == 0,
        valid_utf8(s.subrange(p, p + n)),
    ensures
        name_at(s, p, width as int) == decode_utf8(s.subrange(p, p + n)),
        name_fits(name_at(s, p, width as int), width),
        name_bytes(name_at(s, p, width as int), width) == s.subrange(p, p + width),
{
    let field = s.subrange(p, p + width);
    let front = s.subrange(p, p + n);
    assert forall|i: int| 0 <= i < n implies field[i] != 0 by {
        assert(field[i] == s[p + i]);
    }
    lemma_nul_from_skips(field, n);
    if n < width {
        assert(field[n] == s[p + n]);
    }
    assert(nul_from(field, n) == n);
    assert(before_nul(field) =~= front);
    decode_utf8_encode_utf8(front);
    let text = name_at(s, p, width as int);
    assert(encode_utf8(text) == front);
    assert forall|i: int| 0 <= i < encode_utf8(text).len() implies encode_utf8(text)[i] != 0 by {
        assert(front[i] == s[p + i]);
    }
    assert(name_bytes(text, width) =~= field) by {
        assert forall|i: int| 0 <= i < width implies name_bytes(text, width)[i] == field[i] by {
            assert(field[i] == s[p + i]);
            if i < n {
                assert(front[i] == s[p + i]);
            }
        }
    }
}

/// The text before the first NUL byte of `data`, or of all of `data` where
/// it holds no NUL byte.
pub fn map_cstring(data: &[u8]) -> (text: String)
    ensures
        text@ == text_of(before_nul(data@)),
{
    let mut end: usize = 0;
    while end < data.len() && data[end] != 0
        invariant
            end <= data.len(),
            forall|j: int| 0 <= j < end ==> data@[j] != 0,
        decreases data.len() - end,
    {
        end += 1;
    }
    proof {
        lemma_nul_from_skips(data@, end as int);
    }
    lossy_text(slice_subrange(data, 0, end))
}

/// The field of `width` bytes that holds `name`.  The callers see to it
/// that the name takes no more than `width` bytes.
pub(crate) fn fit_name(name: &String, width: usize) -> (field: Vec<u8>)
    ensures
        field@ == name_bytes(name@, width as nat),
{
    let raw = name.as_str().as_bytes();
    let mut field: Vec<u8> = Vec::new();
    let mut i: usize = 0;
    while i < width
        invariant
            i <= width,
            raw@ == encode_utf8(name@),
            field@.len() == i,
            forall|j: int| 0 <= j < i ==> field@[j] == name_bytes(name@, width as nat)[j],
        decreases width - i,
    {
        if i < raw.len() {
            field.push(raw[i]);
        } else {
            field.push(0u8);
        }
        i += 1;
    }
    assert(field@ =~= name_bytes(name@, width as nat));
    field
}

/// The field of sixteen bytes that holds the name of a segment: the bytes
/// of the name, padded with NUL bytes to sixteen.  A name that takes more
/// than sixteen bytes is not cut: it is an error.
pub fn map_cstring_bytes(name: &String) -> (r: Result<Vec<u8>, EncodeError>)
    ensures
        match r {
            Ok(field) => encode_utf8(name@).len() <= 16 && field@ == name_bytes(name@, 16),
            Err(e) => encode_utf8(name@).len() > 16 && e == EncodeError::NameTooLong(
                NameField::SegmentName,
                16,
            ),
        },
{
    if name.as_str().as_bytes().len() > 16 {
        return Err(EncodeError::NameTooLong(NameField::SegmentName, 16));
    }
    Ok(fit_name(name, 16))
}

} // verus!
