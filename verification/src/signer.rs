//! The signer: a keyed digest over the bytes of a query text, and its
//! lowercase hexadecimal form. The digest itself is ring's, the encoding
//! data_encoding's.

use crate::error::Error;
use vstd::prelude::*;
use vstd::string::StringSliceAdditionalSpecFns;
use vstd::string::StrSliceExecFns;

verus! {

/// The most bytes that a key or a signed text may hold: beyond it the bit
/// length of what is hashed no longer fits the 64 bits that SHA-256 counts
/// it in.
pub const HMAC_MAX_INPUT: u64 = 0x1fff_ffff_ffff_ffbf;

/// The number of bytes of an HMAC-SHA256 tag.
pub const TAG_LEN: usize = 32;

/// The HMAC-SHA256 tag of `data` under `key`, as RFC 2104 defines it and
/// ring computes it.
pub uninterp spec fn hmac_sha256(key: Seq<u8>, data: Seq<u8>) -> Seq<u8>;

/// `ring::hmac::sign`, with a key that `ring::hmac::Key::new` makes from
/// `key` for `HMAC_SHA256`: the tag is a function of the key bytes and the
/// data, named `hmac_sha256`, and is 32 bytes long. Both calls panic on
/// input whose bit length overflows 64 bits, which `requires` leaves out.
#[verifier::external_body]
pub(crate) fn hmac_sign(key: &[u8], data: &[u8]) -> (tag: Vec<u8>)
    requires
        key@.len() <= HMAC_MAX_INPUT,
        data@.len() <= HMAC_MAX_INPUT,
    ensures
        tag@ == hmac_sha256(key@, data@),
        tag@.len() == TAG_LEN,
{
    let key = ring::hmac::Key::new(ring::hmac::HMAC_SHA256, key);
    ring::hmac::sign(&key, data).as_ref().to_vec()
}

/// The lowercase hexadecimal digit of `v`, which is below 16.
pub open spec fn hex_digit(v: int) -> char {
    if v < 10 {
        ('0' as u8 + v) as u8 as char
    } else {
        ('a' as u8 + v - 10) as u8 as char
    }
}

/// The lowercase hexadecimal form of `bytes`: two digits for each byte, the
/// high half first.
pub open spec fn hex_lower(bytes: Seq<u8>) -> Seq<char> {
    Seq::new(
        2 * bytes.len(),
        |i: int|
            if i % 2 == 0 {
                hex_digit(bytes[i / 2] as int / 16)
            } else {
                hex_digit(bytes[i / 2] as int % 16)
            },
    )
}

/// `data_encoding::HEXLOWER.encode`: each byte becomes its two lowercase
/// hexadecimal digits. The call panics on input longer than `usize::MAX /
/// 512`, which `requires` leaves out.
#[verifier::external_body]
pub(crate) fn hex_encode(bytes: &[u8]) -> (digits: String)
    requires
        bytes@.len() <= usize::MAX / 512,
    ensures
        digits@ == hex_lower(bytes@),
{
    data_encoding::HEXLOWER.encode(bytes)
}

/// The secret that every digest of a run is keyed with.
pub struct SigningKey {
    secret: Vec<u8>,
}

impl View for SigningKey {
    type V = Seq<u8>;

    closed spec fn view(&self) -> Seq<u8> {
        self.secret@
    }
}

impl SigningKey {
    #[verifier::type_invariant]
    spec fn fits(self) -> bool {
        self.secret@.len() <= HMAC_MAX_INPUT
    }

    /// The key whose bytes are those of `secret`; `InputTooLong` where
    /// there are more of them than the digest accepts.
    pub fn new(secret: &str) -> (r: Result<SigningKey, Error>)
        ensures
            match r {
                Ok(key) => key@ == secret.spec_bytes() && secret.spec_bytes().len()
                    <= HMAC_MAX_INPUT,
                Err(e) => e == Error::InputTooLong && secret.spec_bytes().len() > HMAC_MAX_INPUT,
            },
    {
        let bytes = secret.as_bytes_vec();
        if bytes.len() as u64 > HMAC_MAX_INPUT {
            return Err(Error::InputTooLong);
        }
        Ok(SigningKey { secret: bytes })
    }

    /// The tag of `text` under this key.
    pub fn sign(&self, text: &str) -> (tag: Vec<u8>)
        requires
            text.spec_bytes().len() <= HMAC_MAX_INPUT,
        ensures
            tag@ == hmac_sha256(self@, text.spec_bytes()),
            tag@.len() == TAG_LEN,
    {
        proof {
            use_type_invariant(self);
        }
        hmac_sign(self.secret.as_slice(), text.as_bytes())
    }
}

/// The digest of `text` under `key` as it stands in the signature map: the
/// lowercase hexadecimal form of the tag.
pub open spec fn digest(key: Seq<u8>, text: Seq<char>) -> Seq<char> {
    hex_lower(hmac_sha256(key, vstd::utf8::encode_utf8(text)))
}

/// The same key and the same text give the same digest.
pub proof fn lemma_digest_deterministic(
    key_a: Seq<u8>,
    text_a: Seq<char>,
    key_b: Seq<u8>,
    text_b: Seq<char>,
)
    requires
        key_a == key_b,
        text_a == text_b,
    ensures
        digest(key_a, text_a) == digest(key_b, text_b),
{
}

/// The digest of `text` under `key`, in lowercase hexadecimal.
pub fn hex_digest(key: &SigningKey, text: &str) -> (digits: String)
    requires
        text.spec_bytes().len() <= HMAC_MAX_INPUT,
    ensures
        digits@ == digest(key@, text@),
        digits@.len() == 2 * TAG_LEN,
{
    let tag = key.sign(text);
    hex_encode(tag.as_slice())
}

} // verus!
