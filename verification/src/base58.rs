//! Addresses as text.

use crate::pubkey::{key_of, law_address_is_its_bytes, Pubkey};
use std::str::FromStr;
use vstd::prelude::*;
use vstd::string::{StringExecFns, StrSliceExecFns};
use vstd::utf8::is_ascii_chars;

verus! {

/// The 32 bytes that a base58 text stands for, where it stands for 32 bytes.
pub uninterp spec fn base58_decoded(text: Seq<char>) -> Option<Seq<u8>>;

/// The base58 text of 32 bytes.
pub uninterp spec fn base58_encoded(bytes: Seq<u8>) -> Seq<char>;

/// Calls `solana_sdk::pubkey::Pubkey::from_str`. Trusted to depend on nothing
/// but the text, to give 32 bytes where it gives any, and to read a text only
/// as the bytes that are written as that text.
#[verifier::external_body]
fn decode(text: &str) -> (out: Option<Vec<u8>>)
    ensures
        match out {
            Some(bytes) => {
                &&& base58_decoded(text@) == Some(bytes@)
                &&& bytes@.len() == 32
                &&& base58_encoded(bytes@) == text@
            },
            None => base58_decoded(text@) is None,
        },
{
    match solana_sdk::pubkey::Pubkey::from_str(text) {
        Ok(key) => Some(key.to_bytes().to_vec()),
        Err(_) => None,
    }
}

/// Calls `to_string` on a `solana_sdk::pubkey::Pubkey` of the given bytes.
/// Trusted to depend on nothing but the bytes, to give 32 to 44 characters of
/// the base58 alphabet, all of them ASCII, and to write bytes as a text that is
/// read as those bytes.
#[verifier::external_body]
fn encode(bytes: &[u8]) -> (out: String)
    requires
        bytes@.len() == 32,
    ensures
        out@ == base58_encoded(bytes@),
        is_ascii_chars(out@),
        32 <= out@.len() <= 44,
        base58_decoded(out@) == Some(bytes@),
{
    solana_sdk::pubkey::Pubkey::try_from(bytes).unwrap().to_string()
}

/// The address that a text stands for.
pub open spec fn address_of(text: Seq<char>) -> Option<Pubkey> {
    match base58_decoded(text) {
        Some(bytes) => Some(key_of(bytes)),
        None => None,
    }
}

/// Reads an address; writing it again gives the same text.
pub fn parse_pubkey(text: &str) -> (out: Option<Pubkey>)
    ensures
        out == address_of(text@),
        out matches Some(key) ==> base58_encoded(key.bytes()) == text@,
{
    match decode(text) {
        Some(bytes) => Some(Pubkey::from_bytes(bytes.as_slice())),
        None => None,
    }
}

/// Writes an address; reading it again gives the same address.
pub fn pubkey_text(key: &Pubkey) -> (out: String)
    ensures
        out@ == base58_encoded(key.bytes()),
        is_ascii_chars(out@),
        32 <= out@.len() <= 44,
        address_of(out@) == Some(*key),
{
    let bytes: Vec<u8> = key.to_bytes();
    proof {
        law_address_is_its_bytes(*key, *key);
    }
    encode(bytes.as_slice())
}

/// A text shortened to its first five and last four characters, if it has
/// more than twelve.
pub open spec fn shortened(text: Seq<char>) -> Seq<char> {
    if text.len() > 12 {
        text.take(5) + "\u{2026}"@ + text.skip(text.len() - 4)
    } else {
        text
    }
}

/// Shortens an ASCII text.
pub fn shorten(text: &str) -> (out: String)
    requires
        is_ascii_chars(text@),
    ensures
        out@ == shortened(text@),
{
    let len: usize = text.unicode_len();
    if len > 12 {
        let head: String = text.substring_char(0, 5).to_string();
        let tail: &str = text.substring_char(len - 4, len);
        head.concat("\u{2026}").concat(tail)
    } else {
        text.to_string()
    }
}

/// The short form of an address: ten characters, as no address is written in
/// twelve or fewer.
pub fn fmt_pk(pk: &Pubkey) -> (out: String)
    ensures
        out@ == shortened(base58_encoded(pk.bytes())),
        out@.len() == 10,
{
    let text: String = pubkey_text(pk);
    proof {
        reveal_strlit("\u{2026}");
    }
    shorten(text.as_str())
}

/// A text that is shortened keeps its first five and its last four characters
/// and has one between them; a text of twelve characters or fewer stays as it
/// is.
pub proof fn law_shortened_keeps_both_ends(text: Seq<char>)
    ensures
        text.len() <= 12 ==> shortened(text) == text,
        text.len() > 12 ==> {
            &&& shortened(text).len() == 10
            &&& shortened(text)[5] == '\u{2026}'
            &&& forall|i: int| 0 <= i < 5 ==> #[trigger] shortened(text)[i] == text[i]
            &&& forall|i: int|
                6 <= i < 10 ==> #[trigger] shortened(text)[i] == text[text.len() - 10 + i]
        },
{
    reveal_strlit("\u{2026}");
}

} // verus!
