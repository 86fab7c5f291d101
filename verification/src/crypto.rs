//! Sealed blobs, as the stores keep them.

use vstd::prelude::*;

verus! {

/// Bytes of the nonce of a sealed blob.
pub const NONCE_BYTES: usize = 12;

/// Sealing or opening failed, as the cipher words it.
#[derive(Debug)]
pub struct CryptoError {
    pub detail: String,
}

/// A sealed payload together with what opens it.
#[derive(Debug)]
pub struct EncryptedBlob {
    /// Which generation of the master key sealed it.
    pub key_version: i16,
    /// The nonce it was sealed under.
    pub nonce: [u8; 12],
    pub ciphertext: Vec<u8>,
}

/// The nonce that a stored column holds: its bytes, if there are
/// [`NONCE_BYTES`] of them.
pub fn nonce_of(column: &Vec<u8>) -> (r: Option<[u8; 12]>)
    ensures
        match r {
            Some(n) => column@.len() == NONCE_BYTES && n@ == column@,
            None => column@.len() != NONCE_BYTES,
        },
{
    if column.len() != NONCE_BYTES {
        return None;
    }
    let n: [u8; 12] = [
        column[0],
        column[1],
        column[2],
        column[3],
        column[4],
        column[5],
        column[6],
        column[7],
        column[8],
        column[9],
        column[10],
        column[11],
    ];
    proof {
        assert(n@ =~= column@);
    }
    Some(n)
}

} // verus!
