//! The witness matcher: does the witness of one input show a use of
//! `OP_CAT`?
//!
//! Three tests of rising precision are offered. The byte scan looks for the
//! opcode's byte anywhere in the witness. The tapscript test reads the
//! element before the last as a script and looks for the opcode's name in its
//! assembly text. The third adds that the output being spent pays to Taproot.
//! None of them fails on a short or empty witness: too few elements is "no".

use vstd::prelude::*;
use crate::bytes::{contains_byte, contains_slice, contains_subseq};
use crate::script::{disassemble, is_p2tr, is_p2tr_script, script_asm};

verus! {

/// The byte of `OP_CAT`.
pub const OP_CAT: u8 = 0x7e;

/// The name of `OP_CAT` in assembly text: the bytes of `OP_CAT`.
pub open spec fn op_cat_name() -> Seq<u8> {
    seq![0x4fu8, 0x50u8, 0x5fu8, 0x43u8, 0x41u8, 0x54u8]
}

/// A witness stack as a sequence of byte strings.
pub open spec fn stack_view(witness: Seq<Vec<u8>>) -> Seq<Seq<u8>> {
    Seq::new(witness.len(), |i: int| witness[i]@)
}

/// Some element of the stack holds `byte`. False of the empty stack.
pub open spec fn stack_has_byte(stack: Seq<Seq<u8>>, byte: u8) -> bool {
    exists|i: int| 0 <= i < stack.len() && (#[trigger] stack[i]).contains(byte)
}

/// The element that is read as the tapscript: the one before the last, in a
/// stack of more than two elements. The last element, be it the control block
/// or an annex, is never read as a script.
pub open spec fn tapscript_of(stack: Seq<Seq<u8>>) -> Option<Seq<u8>> {
    if stack.len() > 2 {
        Some(stack[stack.len() - 2])
    } else {
        None
    }
}

/// The assembly text `text` names `OP_CAT`.
pub open spec fn names_cat(text: Seq<u8>) -> bool {
    contains_subseq(text, op_cat_name())
}

/// The stack has a tapscript whose assembly text names `OP_CAT`.
pub open spec fn stack_includes_cat(stack: Seq<Seq<u8>>) -> bool {
    match tapscript_of(stack) {
        Some(script) => names_cat(script_asm(script)),
        None => false,
    }
}

/// The output script found for a spent output pays to Taproot. `None` stands
/// for an output that the spent transaction does not have.
pub open spec fn prevout_pays_taproot(prevout: Option<Seq<u8>>) -> bool {
    match prevout {
        Some(script) => is_p2tr_script(script),
        None => false,
    }
}

/// An output script that was looked up, as plain values.
pub open spec fn prevout_view(prevout: Option<Vec<u8>>) -> Option<Seq<u8>> {
    match prevout {
        Some(script) => Some(script@),
        None => None,
    }
}

/// The byte scan: the witness is not empty and one of its elements holds the
/// byte of `OP_CAT`, at any place.
pub fn witness_has_opcode_byte(witness: &Vec<Vec<u8>>) -> (found: bool)
    ensures
        found == stack_has_byte(stack_view(witness@), OP_CAT),
{
    let mut i: usize = 0;
    while i < witness.len()
        invariant
            i <= witness.len(),
            forall|k: int| 0 <= k < i ==> !(#[trigger] stack_view(witness@)[k]).contains(OP_CAT),
        decreases witness.len() - i,
    {
        if contains_byte(witness[i].as_slice(), OP_CAT) {
            assert(stack_view(witness@)[i as int].contains(OP_CAT));
            return true;
        }
        i += 1;
    }
    false
}

/// The element of the witness that is read as the tapscript, if the witness
/// is long enough to have one.
pub fn tapscript(witness: &Vec<Vec<u8>>) -> (script: Option<&Vec<u8>>)
    ensures
        match script {
            Some(s) => tapscript_of(stack_view(witness@)) == Some(s@),
            None => tapscript_of(stack_view(witness@)) is None,
        },
{
    if witness.len() > 2 {
        Some(&witness[witness.len() - 2])
    } else {
        None
    }
}

/// Tells whether an assembly text names `OP_CAT`.
pub fn text_names_cat(text: &[u8]) -> (named: bool)
    ensures
        named == names_cat(text@),
{
    let name: [u8; 6] = [0x4f, 0x50, 0x5f, 0x43, 0x41, 0x54];
    assert(name@ =~= op_cat_name());
    contains_slice(text, name.as_slice())
}

/// The tapscript test: the witness has more than two elements and the
/// assembly text of the one before the last names `OP_CAT`. What counts is
/// the text, not the bytes: a byte `0x7e` that the text prints as pushed data
/// is no match.
pub fn witness_includes_cat(witness: &Vec<Vec<u8>>) -> (found: bool)
    ensures
        found == stack_includes_cat(stack_view(witness@)),
{
    match tapscript(witness) {
        Some(script) => {
            let text = disassemble(script.as_slice());
            text_names_cat(text.as_slice())
        },
        None => false,
    }
}

/// The last step of the strictest test: the output that the input spends pays
/// to Taproot. `prevout` is the output's script, or `None` where the spent
/// transaction has no output of that number.
pub fn prevout_is_taproot(prevout: &Option<Vec<u8>>) -> (yes: bool)
    ensures
        yes == prevout_pays_taproot(prevout_view(*prevout)),
{
    match prevout {
        Some(script) => is_p2tr(script.as_slice()),
        None => false,
    }
}

} // verus!
