//! The script classifier: decides whether an output's locking script is
//! pay-to-public-key or pay-to-public-key-hash by matching the two canonical
//! byte templates, and derives an address (the 20-byte public-key hash) from
//! a pay-to-public-key-hash script.
//!
//! Classification is total: every byte sequence, including the empty and the
//! malformed ones, gets a definite kind; anything outside the two templates
//! is `Other`.

use vstd::prelude::*;

verus! {

/// The closed set of script shapes the scanner distinguishes.
#[derive(Clone, Copy, Debug, PartialEq, Eq, Structural)]
pub enum ScriptKind {
    PayToPubKey,
    PayToPubKeyHash,
    Other,
}

/// An address derived from a script: the 20-byte hash of the public key
/// that a pay-to-public-key-hash script pays to.
#[derive(Debug)]
pub struct Address {
    pub hash: Vec<u8>,
}

/// The canonical pay-to-public-key template: a push of a 33- or 65-byte
/// public key followed by OP_CHECKSIG (0xac).
pub open spec fn is_p2pk_spec(s: Seq<u8>) -> bool {
    ||| (s.len() == 35 && s[0] == 33 && s[34] == 0xac)
    ||| (s.len() == 67 && s[0] == 65 && s[66] == 0xac)
}

/// The canonical pay-to-public-key-hash template: OP_DUP OP_HASH160, a push
/// of a 20-byte hash, OP_EQUALVERIFY OP_CHECKSIG.
pub open spec fn is_p2pkh_spec(s: Seq<u8>) -> bool {
    s.len() == 25 && s[0] == 0x76 && s[1] == 0xa9 && s[2] == 0x14 && s[23] == 0x88 && s[24]
        == 0xac
}

/// The kind of any script whatsoever.  The two templates have different
/// lengths, so the order of the tests does not matter.
pub open spec fn classify_spec(s: Seq<u8>) -> ScriptKind {
    if is_p2pkh_spec(s) {
        ScriptKind::PayToPubKeyHash
    } else if is_p2pk_spec(s) {
        ScriptKind::PayToPubKey
    } else {
        ScriptKind::Other
    }
}

/// The address derivable from a script: the pushed hash of a
/// pay-to-public-key-hash script; no other shape (a bare public key
/// included) yields one.
pub open spec fn derive_address_spec(s: Seq<u8>) -> Option<Seq<u8>> {
    if is_p2pkh_spec(s) {
        Some(s.subrange(3, 23))
    } else {
        None
    }
}

/// Classify a script.  Total over every byte sequence.
pub fn classify(script: &Vec<u8>) -> (kind: ScriptKind)
    ensures
        kind == classify_spec(script@),
{
    if script.len() == 25 && script[0] == 0x76 && script[1] == 0xa9 && script[2] == 0x14
        && script[23] == 0x88 && script[24] == 0xac {
        ScriptKind::PayToPubKeyHash
    } else if script.len() == 35 && script[0] == 33 && script[34] == 0xac {
        ScriptKind::PayToPubKey
    } else if script.len() == 67 && script[0] == 65 && script[66] == 0xac {
        ScriptKind::PayToPubKey
    } else {
        ScriptKind::Other
    }
}

/// Derive the address of a pay-to-public-key-hash script.
pub fn derive_address(script: &Vec<u8>) -> (r: Option<Address>)
    ensures
        match derive_address_spec(script@) {
            Some(h) => r matches Some(a) && a.hash@ == h,
            None => r is None,
        },
{
    if script.len() == 25 && script[0] == 0x76 && script[1] == 0xa9 && script[2] == 0x14
        && script[23] == 0x88 && script[24] == 0xac {
        let mut hash: Vec<u8> = Vec::new();
        let mut i: usize = 3;
        while i < 23
            invariant
                3 <= i <= 23,
                script@.len() == 25,
                hash@ == script@.subrange(3, i as int),
            decreases 23 - i,
        {
            hash.push(script[i]);
            assert(script@.subrange(3, i as int + 1) =~= script@.subrange(3, i as int).push(
                script@[i as int],
            ));
            i = i + 1;
        }
        Some(Address { hash })
    } else {
        None
    }
}

} // verus!
