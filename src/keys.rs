//! Device keys as plain bytes: public keys and detached signatures.
use vstd::prelude::*;

use crate::bytes::to_vec;

verus! {

/// The text that `bs58` gives for `b` in the Bitcoin alphabet.
pub uninterp spec fn bs58_of(b: Seq<u8>) -> Seq<char>;

/// Relies on `bs58::encode(..).with_alphabet(BITCOIN).into_string()`: the
/// base-58 text of the bytes, a function of the bytes alone.
#[verifier::external_body]
fn bs58_encode(b: &[u8]) -> (r: String)
    ensures
        r@ == bs58_of(b@),
{
    bs58::encode(b).with_alphabet(bs58::Alphabet::BITCOIN).into_string()
}

/// The value of a hex digit, if `c` is one.
pub open spec fn hex_val(c: char) -> Option<int> {
    if '0' <= c <= '9' {
        Some(c as int - '0' as int)
    } else if 'a' <= c <= 'f' {
        Some(c as int - 'a' as int + 10)
    } else if 'A' <= c <= 'F' {
        Some(c as int - 'A' as int + 10)
    } else {
        None
    }
}

/// The bytes that a hex string stands for: two digits a byte, high digit
/// first; none for an odd length or a character that is not a hex digit.
pub open spec fn hex_decoded(s: Seq<char>) -> Option<Seq<u8>> {
    if s.len() % 2 == 0 && forall|i: int| 0 <= i < s.len() ==> (#[trigger] hex_val(s[i])) is Some {
        Some(
            Seq::new(
                (s.len() / 2) as nat,
                |i: int| (16 * hex_val(s[2 * i])->0 + hex_val(s[2 * i + 1])->0) as u8,
            ),
        )
    } else {
        None
    }
}

/// Relies on `hex::decode`: `Err` for an odd length or a byte that is not a
/// hex digit, else each pair of digits read as one byte, high digit first.
#[verifier::external_body]
fn hex_decode(s: &str) -> (r: Option<Vec<u8>>)
    ensures
        r is Some == hex_decoded(s@) is Some,
        r is Some ==> hex_decoded(s@) == Some(r->0@),
{
    hex::decode(s).ok()
}

/// An ed25519 public key.
#[derive(Clone, Debug, PartialEq, Eq, PartialOrd, Ord, Hash)]
pub struct PublicKey {
    pub bytes: Vec<u8>,
}

/// The number of bytes of a public key.
pub const PUBLIC_KEY_BYTES: usize = 32;

/// The number of bytes of a signature.
pub const SIGNATURE_BYTES: usize = 64;

impl PublicKey {
    /// A public key from its bytes, if there are as many as a key has.
    pub fn from_slice(bs: &[u8]) -> (r: Option<PublicKey>)
        ensures
            r is Some == (bs@.len() == PUBLIC_KEY_BYTES),
            r matches Some(k) ==> k.bytes@ == bs@,
    {
        if bs.len() != PUBLIC_KEY_BYTES {
            return None;
        }
        Some(PublicKey { bytes: to_vec(bs) })
    }

    /// The key's text form: its bytes in base 58.
    pub fn to_string(&self) -> (r: String)
        ensures
            r@ == bs58_of(self.bytes@),
    {
        bs58_encode(self.bytes.as_slice())
    }
}

/// A detached signature.
#[derive(Clone, Debug, PartialEq, Eq, PartialOrd, Ord)]
pub struct Signature {
    pub bytes: Vec<u8>,
}

/// Why a hex string is not a signature.
#[derive(Clone, Debug, PartialEq, Eq)]
pub enum SignatureError {
    /// Cannot decode signature hex string.
    InvalidHex,
    /// The signature has this many bytes instead of 64.
    WrongLength(usize),
}

impl Signature {
    /// Reads a signature from its hex form.
    pub fn from_hex_string(s: &str) -> (r: Result<Signature, SignatureError>)
        ensures
            hex_decoded(s@) is None ==> r == Err::<Signature, SignatureError>(SignatureError::InvalidHex),
            hex_decoded(s@) matches Some(b) ==> (if b.len() == SIGNATURE_BYTES {
                r matches Ok(sig) && sig.bytes@ == b
            } else {
                r == Err::<Signature, SignatureError>(SignatureError::WrongLength(b.len() as usize))
            }),
    {
        let bytes = match hex_decode(s) {
            Some(b) => b,
            None => return Err(SignatureError::InvalidHex),
        };
        if bytes.len() == SIGNATURE_BYTES {
            Ok(Signature { bytes })
        } else {
            Err(SignatureError::WrongLength(bytes.len()))
        }
    }
}

/// A secret key given as bytes had the wrong length.
#[derive(Clone, Copy, Debug, PartialEq, Eq)]
pub enum IntoSecretKeyError {
    InvalidSliceLength,
}

impl IntoSecretKeyError {
    /// The error's message.
    pub fn to_string(&self) -> (r: String)
        ensures
            r@ == "Invalid slice length"@,
    {
        "Invalid slice length".to_owned()
    }
}

} // verus!
