//! What the `bitcoin` crate tells of a script: its assembly text, its hex
//! text, and whether it pays to a Taproot output.
//!
//! The three functions at the end of this file call into `bitcoin`; their
//! contracts are taken on trust from that crate's source and are not proved.

use vstd::prelude::*;

verus! {

/// The assembly text that `bitcoin` prints for the script `script`, as the
/// bytes of that text. Nothing is said here about its content: it is what
/// `bitcoin::Script::to_asm_string` returns.
pub uninterp spec fn script_asm(script: Seq<u8>) -> Seq<u8>;

/// The ASCII code of the lower-case hex digit for `nibble` (below 16).
pub open spec fn hex_digit(nibble: int) -> u8 {
    if nibble < 10 {
        (48 + nibble) as u8
    } else {
        (87 + nibble) as u8
    }
}

/// Lower-case hex text of `bytes`: two digits for each byte, the high half
/// first.
pub open spec fn hex_lower(bytes: Seq<u8>) -> Seq<u8> {
    Seq::new(
        2 * bytes.len(),
        |i: int|
            if i % 2 == 0 {
                hex_digit(bytes[i / 2] as int / 16)
            } else {
                hex_digit(bytes[i / 2] as int % 16)
            },
    )
}

/// A pay-to-Taproot output script: `OP_1`, a push of 32 bytes, and those 32
/// bytes.
pub open spec fn is_p2tr_script(script: Seq<u8>) -> bool {
    &&& script.len() == 34
    &&& script[0] == 0x51
    &&& script[1] == 0x20
}

/// Calls `bitcoin::Script::to_asm_string` on `script` and hands back the
/// bytes of the text. Trusted: the result is the one that `script_asm` names.
#[verifier::external_body]
pub(crate) fn disassemble(script: &[u8]) -> (text: Vec<u8>)
    ensures
        text@ == script_asm(script@),
{
    bitcoin::Script::from_bytes(script).to_asm_string().into_bytes()
}

/// Calls `bitcoin::Script::to_hex_string` on `script` and hands back the
/// bytes of the text. Trusted: the text is the lower-case hex of the bytes,
/// two digits each.
#[verifier::external_body]
pub(crate) fn hex_text(script: &[u8]) -> (text: Vec<u8>)
    ensures
        text@ == hex_lower(script@),
{
    bitcoin::Script::from_bytes(script).to_hex_string().into_bytes()
}

/// Calls `bitcoin::Script::is_p2tr` on `script`. Trusted: it holds exactly of
/// the scripts of 34 bytes that start with `OP_1` and a push of 32 bytes.
#[verifier::external_body]
pub(crate) fn is_p2tr(script: &[u8]) -> (yes: bool)
    ensures
        yes == is_p2tr_script(script@),
{
    bitcoin::Script::from_bytes(script).is_p2tr()
}

} // verus!
