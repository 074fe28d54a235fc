//! Anchor discriminators: the first eight bytes of the hash of a name.

use sha2::{Digest, Sha256};
use vstd::prelude::*;
use vstd::string::{StringExecFns, StringSliceAdditionalSpecFns};
use vstd::utf8::encode_utf8;

verus! {

/// The SHA-256 digest of a message.
pub uninterp spec fn sha256(message: Seq<u8>) -> Seq<u8>;

/// Calls `sha2::Sha256`: a new hasher, one update with the message, and the
/// finished digest. Trusted to be the 32-byte SHA-256 digest of the message,
/// which depends on nothing but the message.
#[verifier::external_body]
fn sha256_digest(message: &[u8]) -> (out: Vec<u8>)
    ensures
        out@ == sha256(message@),
        out@.len() == 32,
{
    let mut hasher = Sha256::new();
    hasher.update(message);
    hasher.finalize().to_vec()
}

/// The discriminator of a name in a namespace.
pub open spec fn discriminator(namespace: Seq<char>, name: Seq<char>) -> Seq<u8> {
    sha256(encode_utf8(namespace + name)).take(8)
}

/// The first eight bytes of a digest.
pub fn first_eight(digest: &[u8]) -> (out: [u8; 8])
    requires
        digest@.len() >= 8,
    ensures
        out@ == digest@.take(8),
{
    let out: [u8; 8] = [
        digest[0],
        digest[1],
        digest[2],
        digest[3],
        digest[4],
        digest[5],
        digest[6],
        digest[7],
    ];
    assert(out@ =~= digest@.take(8));
    out
}

fn disc(namespace: &str, name: &str) -> (out: [u8; 8])
    ensures
        out@ == discriminator(namespace@, name@),
{
    let text: String = namespace.to_string().concat(name);
    let digest: Vec<u8> = sha256_digest(text.as_str().as_bytes());
    first_eight(digest.as_slice())
}

/// The discriminator that starts every account of the named type.
pub fn anchor_disc(account_type: &str) -> (out: [u8; 8])
    ensures
        out@ == discriminator("account:"@, account_type@),
{
    disc("account:", account_type)
}

/// The discriminator that starts the data of the named instruction.
pub fn anchor_ix_disc(name: &str) -> (out: [u8; 8])
    ensures
        out@ == discriminator("global:"@, name@),
{
    disc("global:", name)
}

/// Accounts and instructions of the same name have discriminators of their own
/// namespaces: the first eight bytes of the digest of the namespace followed by
/// the name.
pub proof fn law_discriminator_hashes_namespace_and_name(
    name: &str,
    account: [u8; 8],
    instruction: [u8; 8],
)
    requires
        call_ensures(anchor_disc, (name,), account),
        call_ensures(anchor_ix_disc, (name,), instruction),
    ensures
        account@ == sha256(encode_utf8("account:"@ + name@)).take(8),
        instruction@ == sha256(encode_utf8("global:"@ + name@)).take(8),
{
}

} // verus!
