//! Classification of script public keys.

use vstd::prelude::*;

verus! {

/// A script public key pays to Taproot exactly when it is 34 bytes long and
/// starts with OP_1 (0x51) followed by a 32-byte push (0x20).
pub open spec fn spec_is_p2tr(s: Seq<u8>) -> bool {
    &&& s.len() == 34
    &&& s[0] == 0x51u8
    &&& s[1] == 0x20u8
}

/// Decide whether a script public key is a pay-to-Taproot (P2TR) output
/// script. Any byte sequence of another shape, however malformed, simply
/// yields `false`.
pub fn is_p2tr(spk: &Vec<u8>) -> (r: bool)
    ensures
        r == spec_is_p2tr(spk@),
{
    if spk.len() != 34 {
        return false;
    }
    spk[0] == 0x51 && spk[1] == 0x20
}

} // verus!
