use vstd::prelude::*;
use base64::Engine;
use rand::RngCore;
use rand::seq::SliceRandom;

verus! {

/// The error of the base64 crate's decoder. Nothing is known of its inside.
#[verifier::external_type_specification]
#[verifier::external_body]
pub struct ExDecodeError(base64::DecodeError);

/// What the base64 crate's standard engine decodes a text to: the bytes, or
/// nothing where the engine reports an error.
pub uninterp spec fn base64_decoded(text: Seq<char>) -> Option<Seq<u8>>;

/// What the base64 crate's standard engine encodes bytes to.
pub uninterp spec fn base64_encoded(bytes: Seq<u8>) -> Seq<char>;

/// The digest that the crypto crate's `bcrypt` computes from a cost, a salt
/// and a password.
pub uninterp spec fn bcrypt_digest(cost: u32, salt: Seq<u8>, password: Seq<u8>) -> Seq<u8>;

/// `base64::prelude::BASE64_STANDARD.decode`: decodes a text with the
/// standard alphabet and canonical padding. The contract only names the
/// outcome: the same text always decodes to the same bytes, or always fails.
#[verifier::external_body]
pub(crate) fn base64_decode(text: &str) -> (r: Result<Vec<u8>, base64::DecodeError>)
    ensures
        match r {
            Ok(bytes) => base64_decoded(text@) == Some(bytes@),
            Err(_) => base64_decoded(text@) is None,
        },
{
    base64::prelude::BASE64_STANDARD.decode(text)
}

/// `base64::prelude::BASE64_STANDARD.encode`: encodes bytes with the standard
/// alphabet and padding. The contract names the text and claims that the
/// engine decodes it to the same bytes again. The engine stops the program
/// where the length of the text cannot be held in a `usize`; such inputs are
/// left out.
#[verifier::external_body]
pub(crate) fn base64_encode(bytes: &[u8]) -> (r: String)
    requires
        (bytes@.len() / 3) * 4 + 4 <= usize::MAX,
    ensures
        r@ == base64_encoded(bytes@),
        base64_decoded(r@) == Some(bytes@),
{
    base64::prelude::BASE64_STANDARD.encode(bytes)
}

/// `crypto::bcrypt::bcrypt`: fills twenty-four bytes with the digest of the
/// password under the salt and the cost. The function stops the program on a
/// cost of thirty-two or more, on an empty password and on one of more than
/// seventy-two bytes; such inputs are left out.
#[verifier::external_body]
pub(crate) fn bcrypt(cost: u32, salt: &[u8; 16], password: &[u8]) -> (out: [u8; 24])
    requires
        cost < 32,
        0 < password@.len() <= 72,
    ensures
        out@ == bcrypt_digest(cost, salt@, password@),
{
    let mut out = [0u8; 24];
    crypto::bcrypt::bcrypt(cost, salt, password, &mut out);
    out
}

/// `rand::rng().fill_bytes`: bytes from the thread's generator, which is
/// seeded by the operating system. Nothing is claimed of the bytes.
#[verifier::external_body]
pub(crate) fn random_bytes<const N: usize>() -> (out: [u8; N]) {
    let mut out = [0u8; N];
    rand::rng().fill_bytes(&mut out);
    out
}

/// `SliceRandom::shuffle` with `rand::rng()`: reorders the vector in place by
/// swapping its elements. Whatever the order, the elements are the same, each
/// as often as before.
#[verifier::external_body]
pub(crate) fn shuffle(order: &mut Vec<usize>)
    ensures
        final(order)@.to_multiset() == old(order)@.to_multiset(),
{
    order.shuffle(&mut rand::rng());
}

} // verus!
