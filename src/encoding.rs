use vstd::prelude::*;
use crate::error::Error;

verus! {

/// `c` is one of `0-9`, `a-f`, `A-F`.
pub open spec fn is_hex_digit(c: char) -> bool {
    ('0' <= c && c <= '9') || ('a' <= c && c <= 'f') || ('A' <= c && c <= 'F')
}

/// `s` is a whole number of hex-encoded bytes.
pub open spec fn hex_decodable(s: Seq<char>) -> bool {
    s.len() % 2 == 0 && forall|i: int| 0 <= i < s.len() ==> is_hex_digit(#[trigger] s[i])
}

/// What `char::is_alphanumeric` says of a character (Unicode's Alphabetic or Numeric property).
pub uninterp spec fn alphanumeric(c: char) -> bool;

/// The bytes that a base58 string (Bitcoin alphabet) decodes to, or `None`
/// where it is not valid base58.
pub uninterp spec fn base58_decoded(s: Seq<char>) -> Option<Seq<u8>>;

/// Relies on `hex::decode`, which accepts an even number of hex digits and
/// nothing else: an odd length is `OddLength`, any other character (every
/// byte of a non-ASCII one included) is `InvalidHexCharacter`.
#[verifier::external_body]
pub(crate) fn hex_decodes(s: &str) -> (r: bool)
    ensures
        r == hex_decodable(s@),
{
    hex::decode(s).is_ok()
}

/// Relies on `char::is_alphanumeric`.
#[verifier::external_body]
pub(crate) fn is_alphanumeric(c: char) -> (r: bool)
    ensures
        r == alphanumeric(c),
{
    c.is_alphanumeric()
}

/// Relies on `bs58::decode(..).into_vec()` with the default (Bitcoin)
/// alphabet: the decoded bytes, or `None` where the input is not base58.
#[verifier::external_body]
pub(crate) fn base58_decode(s: &str) -> (r: Option<Vec<u8>>)
    ensures
        match r {
            Some(v) => base58_decoded(s@) == Some(v@),
            None => base58_decoded(s@) is None,
        },
{
    bs58::decode(s).into_vec().ok()
}

/// A blob id is base58 text that decodes to exactly 32 bytes.
pub open spec fn blob_id_of(s: Seq<char>) -> Option<Seq<u8>> {
    match base58_decoded(s) {
        Some(b) => if b.len() == 32 { Some(b) } else { None },
        None => None,
    }
}

/// Decodes a base58 blob id into its 32 bytes. Text that is not base58, or
/// that decodes to another length, is `InvalidInput`.
pub fn parse_blob_id_base58(s: &str) -> (r: Result<[u8; 32], Error>)
    ensures
        match blob_id_of(s@) {
            Some(b) => r matches Ok(id) && id@ == b,
            None => r == Err::<[u8; 32], Error>(Error::InvalidInput),
        },
{
    let bytes = match base58_decode(s) {
        Some(v) => v,
        None => {
            return Err(Error::InvalidInput);
        },
    };
    if bytes.len() != 32 {
        return Err(Error::InvalidInput);
    }
    let mut id: [u8; 32] = [0u8; 32];
    let mut i: usize = 0;
    while i < 32
        invariant
            0 <= i <= 32,
            bytes@.len() == 32,
            forall|j: int| 0 <= j < i ==> id@[j] == bytes@[j],
        decreases 32 - i,
    {
        id.set(i, bytes[i]);
        i = i + 1;
    }
    assert(id@ =~= bytes@);
    Ok(id)
}

} // verus!
