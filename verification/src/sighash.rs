//! The sighash extractor and decoder.
//!
//! The extractor parses the first operation of a spending script; when that
//! operation is a data push of at least one byte (the signature), its last
//! byte is the purported signature-hash flag.  The decoder maps the flag to
//! a mode under the standard legacy encoding: ALL, NONE or SINGLE, each
//! optionally combined with the ANYONECANPAY bit; every other byte value is
//! illegal.

use vstd::prelude::*;

verus! {

/// A legal signature-hash mode: which parts of the spending transaction the
/// signature commits to (SIGHASH_ALL, SIGHASH_NONE or SIGHASH_SINGLE, each
/// with or without SIGHASH_ANYONECANPAY).
#[derive(Clone, Copy, Debug, PartialEq, Eq, Structural)]
pub enum SighashMode {
    All,
    NoOutputs,
    SingleOutput,
    AllAnyoneCanPay,
    NoOutputsAnyoneCanPay,
    SingleOutputAnyoneCanPay,
}

/// Error for a flag byte outside the standard encoding; carries the byte.
#[derive(Debug)]
pub struct IllegalSighashError {
    pub flag: u8,
}

/// The operand of the first operation of a script, when that operation is a
/// data push: a direct push opcode 0x01..=0x4b pushes that many following
/// bytes (0x00 pushes none), and OP_PUSHDATA1/2/4 (0x4c..=0x4e) read a 1-,
/// 2- or 4-byte little-endian length first.  An empty script, a
/// non-push first opcode, or a push running past the end of the script
/// yields nothing.
pub open spec fn first_push(s: Seq<u8>) -> Option<Seq<u8>> {
    if s.len() == 0 {
        None
    } else {
        let op = s[0] as int;
        if op <= 0x4b {
            if s.len() >= 1 + op {
                Some(s.subrange(1, 1 + op))
            } else {
                None
            }
        } else if op == 0x4c {
            if s.len() >= 2 && s.len() >= 2 + s[1] as int {
                Some(s.subrange(2, 2 + s[1] as int))
            } else {
                None
            }
        } else if op == 0x4d {
            if s.len() >= 3 && s.len() >= 3 + push2_len(s) {
                Some(s.subrange(3, 3 + push2_len(s)))
            } else {
                None
            }
        } else if op == 0x4e {
            if s.len() >= 5 && s.len() >= 5 + push4_len(s) {
                Some(s.subrange(5, 5 + push4_len(s)))
            } else {
                None
            }
        } else {
            None
        }
    }
}

/// The little-endian operand length of an OP_PUSHDATA2 script.
pub open spec fn push2_len(s: Seq<u8>) -> int
    recommends
        s.len() >= 3,
{
    s[1] as int + 256 * (s[2] as int)
}

/// The little-endian operand length of an OP_PUSHDATA4 script.
pub open spec fn push4_len(s: Seq<u8>) -> int
    recommends
        s.len() >= 5,
{
    s[1] as int + 256 * (s[2] as int) + 65536 * (s[3] as int) + 16777216 * (s[4] as int)
}

/// The purported sighash flag of a spending script: the last byte of its
/// first operation, when that operation is a push of at least one byte.
pub open spec fn extract_sighash_spec(s: Seq<u8>) -> Option<u8> {
    match first_push(s) {
        Some(p) => if p.len() >= 1 {
            Some(p.last())
        } else {
            None
        },
        None => None,
    }
}

/// Read the purported sighash flag out of a spending script.
pub fn extract_sighash_byte(script: &Vec<u8>) -> (r: Option<u8>)
    ensures
        r == extract_sighash_spec(script@),
{
    if script.len() == 0 {
        return None;
    }
    let op = script[0];
    if op >= 1 && op <= 0x4b {
        let n = op as usize;
        if script.len() >= n + 1 {
            Some(script[n])
        } else {
            None
        }
    } else if op == 0x4c {
        if script.len() < 2 {
            return None;
        }
        let n = script[1] as usize;
        if n >= 1 && script.len() - 2 >= n {
            Some(script[n + 1])
        } else {
            None
        }
    } else if op == 0x4d {
        if script.len() < 3 {
            return None;
        }
        let n = script[1] as usize + 256 * (script[2] as usize);
        if n >= 1 && script.len() - 3 >= n {
            Some(script[n + 2])
        } else {
            None
        }
    } else if op == 0x4e {
        if script.len() < 5 {
            return None;
        }
        let n = script[1] as usize + 256 * (script[2] as usize) + 65536 * (script[3] as usize)
            + 16777216 * (script[4] as usize);
        if n >= 1 && script.len() - 5 >= n {
            Some(script[n + 4])
        } else {
            None
        }
    } else {
        None
    }
}

/// The mode a flag byte stands for under the standard encoding, if any.
pub open spec fn decode_sighash_spec(b: u8) -> Option<SighashMode> {
    if b == 0x01 {
        Some(SighashMode::All)
    } else if b == 0x02 {
        Some(SighashMode::NoOutputs)
    } else if b == 0x03 {
        Some(SighashMode::SingleOutput)
    } else if b == 0x81 {
        Some(SighashMode::AllAnyoneCanPay)
    } else if b == 0x82 {
        Some(SighashMode::NoOutputsAnyoneCanPay)
    } else if b == 0x83 {
        Some(SighashMode::SingleOutputAnyoneCanPay)
    } else {
        None
    }
}

/// Decode a flag byte.  Succeeds on exactly the six standard values
/// 0x01, 0x02, 0x03, 0x81, 0x82, 0x83; every other byte is illegal and
/// comes back in the error.
pub fn decode_sighash(b: u8) -> (r: Result<SighashMode, IllegalSighashError>)
    ensures
        match decode_sighash_spec(b) {
            Some(m) => r matches Result::Ok(got) && got == m,
            None => r matches Result::Err(e) && e.flag == b,
        },
{
    if b == 0x01 {
        Ok(SighashMode::All)
    } else if b == 0x02 {
        Ok(SighashMode::NoOutputs)
    } else if b == 0x03 {
        Ok(SighashMode::SingleOutput)
    } else if b == 0x81 {
        Ok(SighashMode::AllAnyoneCanPay)
    } else if b == 0x82 {
        Ok(SighashMode::NoOutputsAnyoneCanPay)
    } else if b == 0x83 {
        Ok(SighashMode::SingleOutputAnyoneCanPay)
    } else {
        Err(IllegalSighashError { flag: b })
    }
}

/// Whether a mode is what the scanner looks for: SIGHASH_SINGLE, with or
/// without ANYONECANPAY.
pub open spec fn mode_matches_spec(m: SighashMode) -> bool {
    m == SighashMode::SingleOutput || m == SighashMode::SingleOutputAnyoneCanPay
}

/// Whether a mode is reported as a finding.
pub fn mode_matches(m: SighashMode) -> (r: bool)
    ensures
        r == mode_matches_spec(m),
{
    match m {
        SighashMode::SingleOutput => true,
        SighashMode::SingleOutputAnyoneCanPay => true,
        _ => false,
    }
}

/// Extraction is determined by the first operation alone: a push of one or
/// more bytes yields exactly its last byte, and an absent or empty first
/// push yields nothing.
pub proof fn lemma_extract_first_push(s: Seq<u8>)
    ensures
        match first_push(s) {
            Some(p) => {
                &&& p.len() >= 1 ==> extract_sighash_spec(s) == Some(p.last())
                &&& p.len() == 0 ==> extract_sighash_spec(s) is None
            },
            None => extract_sighash_spec(s) is None,
        },
{
}

/// A script that begins with a direct push opcode n (1..=0x4b) followed by
/// at least n bytes has its sighash flag at position n: the last byte of
/// the pushed operand.
pub proof fn lemma_extract_direct_push(s: Seq<u8>)
    requires
        s.len() >= 1,
        1 <= s[0] <= 0x4b,
        s.len() >= s[0] + 1,
    ensures
        extract_sighash_spec(s) == Some(s[s[0] as int]),
{
    let p = s.subrange(1, 1 + s[0] as int);
    assert(p.last() == s[s[0] as int]);
}

/// A script whose first byte is not a push opcode, and the empty script,
/// yield no sighash flag.
pub proof fn lemma_extract_non_push(s: Seq<u8>)
    requires
        s.len() == 0 || s[0] > 0x4e,
    ensures
        extract_sighash_spec(s) is None,
{
}

} // verus!
