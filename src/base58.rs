//! Base58 text encoding (Bitcoin alphabet), used only to display keys,
//! addresses and hashes to people.

use vstd::prelude::*;
use rust_base58::{FromBase58, ToBase58};

verus! {

/// The Base58 text of `data`.
pub uninterp spec fn base58_of(data: Seq<u8>) -> Seq<char>;

/// The bytes that the Base58 text `text` stands for.
pub uninterp spec fn base58_value_of(text: Seq<u8>) -> Seq<u8>;

/// Whether `c` is a character of the Bitcoin Base58 alphabet
/// `1-9`, `A-H`, `J-N`, `P-Z`, `a-k`, `m-z`.
pub open spec fn is_base58_digit(c: u8) -> bool {
    ||| 49 <= c <= 57
    ||| 65 <= c <= 72
    ||| 74 <= c <= 78
    ||| 80 <= c <= 90
    ||| 97 <= c <= 107
    ||| 109 <= c <= 122
}

/// Why a text is not Base58.
#[derive(Clone, Copy, PartialEq, Eq, Debug)]
pub enum Base58Error {
    /// The byte at the index is not in the alphabet.
    InvalidBase58Byte(u8, usize),
}

/// Relies on `rust_base58::ToBase58::to_base58` for byte slices.
#[verifier::external_body]
fn to_base58(data: &[u8]) -> (r: String)
    ensures
        r@ == base58_of(data@),
{
    data.to_base58()
}

/// Relies on `rust_base58::FromBase58::from_base58` for byte slices: it scans
/// from the last byte to the first and fails on the first byte (from the end)
/// outside the alphabet.
#[verifier::external_body]
fn from_base58(text: &[u8]) -> (r: Result<Vec<u8>, (u8, usize)>)
    ensures
        match r {
            Ok(v) => (forall|i: int| 0 <= i < text@.len() ==> is_base58_digit(#[trigger] text@[i]))
                && v@ == base58_value_of(text@),
            Err((b, i)) => i < text@.len() && b == text@[i as int] && !is_base58_digit(b) && (forall|
                j: int,
            |
                i < j < text@.len() ==> is_base58_digit(#[trigger] text@[j])),
        },
{
    match text.from_base58() {
        Ok(v) => Ok(v),
        Err(rust_base58::base58::FromBase58Error::InvalidBase58Byte(b, i)) => Err((b, i)),
    }
}

/// Encodes bytes as Base58 text.
pub fn encode(input: &[u8]) -> (r: String)
    ensures
        r@ == base58_of(input@),
{
    to_base58(input)
}

/// Decodes Base58 text; fails exactly when a byte is outside the alphabet,
/// naming the last such byte and its index.
pub fn decode(input: &[u8]) -> (r: Result<Vec<u8>, Base58Error>)
    ensures
        (forall|i: int| 0 <= i < input@.len() ==> is_base58_digit(#[trigger] input@[i])) <==> r is Ok,
        match r {
            Ok(v) => v@ == base58_value_of(input@),
            Err(Base58Error::InvalidBase58Byte(b, i)) => i < input@.len() && b == input@[i as int]
                && !is_base58_digit(b) && (forall|j: int|
                i < j < input@.len() ==> is_base58_digit(#[trigger] input@[j])),
        },
{
    match from_base58(input) {
        Ok(v) => Ok(v),
        Err((b, i)) => Err(Base58Error::InvalidBase58Byte(b, i)),
    }
}

} // verus!
