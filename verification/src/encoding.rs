use vstd::prelude::*;
use vstd::utf8::{encode_scalar, encode_utf8};

verus! {

/// The standard (padded) Base64 text of a byte sequence.
pub uninterp spec fn base64_standard(bytes: Seq<u8>) -> Seq<char>;

/// The length of padded Base64 text for `n` bytes: four characters for each
/// started group of three bytes.
pub open spec fn base64_len(n: nat) -> nat {
    ((n + 2) / 3 * 4) as nat
}

/// `base64::encode` (the standard engine, with padding), given the bytes of
/// a text. Claimed of it: the result is the standard Base64 text of those
/// bytes, four characters per started group of three bytes. It panics when
/// that length overflows `usize`, which `requires` leaves out.
#[verifier::external_body]
#[allow(deprecated)]
fn base64_encode(bytes: &[u8]) -> (r: String)
    requires
        bytes@.len() / 3 * 4 + 4 <= usize::MAX,
    ensures
        r@ == base64_standard(bytes@),
        r@.len() == base64_len(bytes@.len()),
{
    base64::encode(bytes)
}

/// A character takes at most four bytes in UTF-8.
proof fn lemma_encode_utf8_len(s: Seq<char>)
    ensures
        encode_utf8(s).len() <= 4 * s.len(),
    decreases s.len(),
{
    if s.len() > 0 {
        lemma_encode_utf8_len(s.drop_first());
        assert(encode_scalar(s[0] as u32).len() <= 4);
    }
}

/// The Base64 text of the UTF-8 bytes of `text`.
pub(crate) fn base64_of_text(text: &str) -> (r: String)
    requires
        text@.len() <= usize::MAX / 8,
    ensures
        r@ == base64_standard(encode_utf8(text@)),
        r@.len() == base64_len(encode_utf8(text@).len()),
{
    proof {
        lemma_encode_utf8_len(text@);
    }
    let bytes = text.as_bytes();
    base64_encode(bytes)
}

} // verus!
