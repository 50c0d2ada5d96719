//! How the index lies in a key-value store: the keys, and the encoding of the
//! checkpoint.
//!
//! The checkpoint lies under the key `CHECKPOINT`, as one CBOR unsigned
//! integer. The entry of a height lies under the decimal text of the height.
//! CBOR is written and read by `ciborium`, behind the two private functions
//! at the end of this file; their contracts are taken on trust.

use vstd::prelude::*;
use crate::error::IndexError;

verus! {

/// An I/O error of std, carried through unread.
#[verifier::external_type_specification]
#[verifier::external_body]
pub struct ExIoError(std::io::Error);

/// The error of `ciborium`'s writer, carried through unread.
#[verifier::external_type_specification]
#[verifier::external_body]
#[verifier::reject_recursive_types(T)]
pub struct ExCborWriteError<T>(ciborium::ser::Error<T>);

/// The error of `ciborium`'s reader, carried through unread.
#[verifier::external_type_specification]
#[verifier::external_body]
#[verifier::reject_recursive_types(T)]
pub struct ExCborReadError<T>(ciborium::de::Error<T>);

/// The key of the checkpoint: the bytes of `CHECKPOINT`.
pub open spec fn checkpoint_key_bytes() -> Seq<u8> {
    seq![0x43u8, 0x48u8, 0x45u8, 0x43u8, 0x4bu8, 0x50u8, 0x4fu8, 0x49u8, 0x4eu8, 0x54u8]
}

/// The decimal text of `n`, without leading zeros, as ASCII bytes.
pub open spec fn decimal(n: nat) -> Seq<u8>
    decreases n,
{
    if n < 10 {
        seq![(48 + n) as u8]
    } else {
        decimal(n / 10).push((48 + n % 10) as u8)
    }
}

/// The number that a run of decimal digits stands for.
pub open spec fn decimal_value(digits: Seq<u8>) -> nat
    decreases digits.len(),
{
    if digits.len() == 0 {
        0
    } else {
        (decimal_value(digits.drop_last()) * 10 + (digits.last() - 48)) as nat
    }
}

/// `value` in `width` bytes, the most significant first.
pub open spec fn big_endian(value: nat, width: nat) -> Seq<u8>
    decreases width,
{
    if width == 0 {
        Seq::empty()
    } else {
        big_endian(value / 256, (width - 1) as nat).push((value % 256) as u8)
    }
}

/// The CBOR encoding of the unsigned integer `value`, in its shortest form:
/// the value itself below 24, else a byte that tells the width and the value
/// in 1, 2, 4 or 8 bytes, the most significant first.
pub open spec fn cbor_uint(value: u64) -> Seq<u8> {
    if value < 24 {
        seq![value as u8]
    } else if value < 0x100 {
        seq![0x18u8] + big_endian(value as nat, 1)
    } else if value < 0x1_0000 {
        seq![0x19u8] + big_endian(value as nat, 2)
    } else if value < 0x1_0000_0000 {
        seq![0x1au8] + big_endian(value as nat, 4)
    } else {
        seq![0x1bu8] + big_endian(value as nat, 8)
    }
}

/// What `ciborium` reads from `bytes` when asked for a `u64`: the number, or
/// `None` where it reports an error. It accepts more than the shortest form;
/// what exactly is left to `ciborium::from_reader`.
pub uninterp spec fn cbor_u64(bytes: Seq<u8>) -> Option<u64>;

/// The decimal text of a number is made of digits, at least one.
pub proof fn lemma_decimal_digits(n: nat)
    ensures
        decimal(n).len() >= 1,
        forall|i: int| 0 <= i < decimal(n).len() ==> 48 <= #[trigger] decimal(n)[i] <= 57,
    decreases n,
{
    if n >= 10 {
        lemma_decimal_digits(n / 10);
    }
}

/// The decimal text of a number stands for that number.
pub proof fn lemma_decimal_value(n: nat)
    ensures
        decimal_value(decimal(n)) == n,
    decreases n,
{
    if n < 10 {
        let text = decimal(n);
        assert(text.drop_last() =~= Seq::<u8>::empty());
        assert(decimal_value(text.drop_last()) == 0);
    } else {
        lemma_decimal_value(n / 10);
        let text = decimal(n);
        assert(text.drop_last() =~= decimal(n / 10));
    }
}

/// Two heights have two keys.
pub proof fn lemma_height_keys_differ(a: u64, b: u64)
    requires
        a != b,
    ensures
        decimal(a as nat) != decimal(b as nat),
{
    lemma_decimal_value(a as nat);
    lemma_decimal_value(b as nat);
}

/// No height has the key of the checkpoint.
pub proof fn lemma_height_key_is_not_checkpoint_key(height: u64)
    ensures
        decimal(height as nat) != checkpoint_key_bytes(),
{
    lemma_decimal_digits(height as nat);
    assert(checkpoint_key_bytes()[0] == 0x43);
}

/// The key under which the checkpoint lies.
pub fn checkpoint_key() -> (key: Vec<u8>)
    ensures
        key@ == checkpoint_key_bytes(),
{
    let key: Vec<u8> = vec![0x43, 0x48, 0x45, 0x43, 0x4b, 0x50, 0x4f, 0x49, 0x4e, 0x54];
    assert(key@ =~= checkpoint_key_bytes());
    key
}

/// The key under which the entry of `height` lies: its decimal text.
pub fn height_key(height: u64) -> (key: Vec<u8>)
    ensures
        key@ == decimal(height as nat),
{
    let mut reversed: Vec<u8> = Vec::new();
    let mut rest: u64 = height;
    while rest >= 10
        invariant
            decimal(height as nat) == decimal(rest as nat) + reversed@.reverse(),
        decreases rest,
    {
        let digit: u8 = 48 + (rest % 10) as u8;
        proof {
            let grown = reversed@.push(digit);
            assert(grown.reverse() =~= seq![digit] + reversed@.reverse());
            assert(decimal(rest as nat) == decimal(rest as nat / 10).push(digit));
            assert(decimal(rest as nat / 10).push(digit) + reversed@.reverse() =~= decimal(
                rest as nat / 10,
            ) + grown.reverse());
        }
        reversed.push(digit);
        rest = rest / 10;
    }
    let digit: u8 = 48 + rest as u8;
    proof {
        let grown = reversed@.push(digit);
        assert(grown.reverse() =~= seq![digit] + reversed@.reverse());
        assert(decimal(rest as nat) =~= seq![digit]);
    }
    reversed.push(digit);
    let mut key: Vec<u8> = Vec::new();
    let mut i: usize = reversed.len();
    while i > 0
        invariant
            i <= reversed.len(),
            key.len() == reversed.len() - i,
            forall|k: int| 0 <= k < key.len() ==> key@[k] == reversed@[reversed.len() - 1 - k],
        decreases i,
    {
        i -= 1;
        key.push(reversed[i]);
    }
    assert(key@ =~= reversed@.reverse());
    key
}

/// The bytes under which the checkpoint `height` is kept: its CBOR encoding.
/// Every height has one: writing a number into memory does not fail.
pub fn encode_checkpoint(height: u64) -> (res: Result<Vec<u8>, IndexError>)
    ensures
        res matches Ok(bytes) && bytes@ == cbor_uint(height),
{
    match write_cbor_u64(height) {
        Ok(bytes) => Ok(bytes),
        Err(_) => Err(IndexError::Store),
    }
}

/// The checkpoint that `bytes` hold: the number that the decoder reads, or
/// `Store` where it reads none. What `encode_checkpoint` wrote is read back
/// as the same height.
pub fn decode_checkpoint(bytes: &[u8]) -> (res: Result<u64, IndexError>)
    ensures
        res == match cbor_u64(bytes@) {
            Some(height) => Ok::<u64, IndexError>(height),
            None => Err(IndexError::Store),
        },
        forall|height: u64| #[trigger] cbor_uint(height) == bytes@ ==> res == Ok::<u64, IndexError>(height),
{
    match read_cbor_u64(bytes) {
        Ok(height) => Ok(height),
        Err(_) => Err(IndexError::Store),
    }
}

/// The checkpoint to start from, given what the store holds under the
/// checkpoint's key: `start_height` where it holds nothing, else the decoded
/// value. Where it holds what `encode_checkpoint` wrote for a height, that
/// height is read back, whatever `start_height` is.
pub fn retrieve_check_point(stored: Option<&[u8]>, start_height: u64) -> (res: Result<
    u64,
    IndexError,
>)
    ensures
        res == match stored {
            None => Ok::<u64, IndexError>(start_height),
            Some(bytes) => match cbor_u64(bytes@) {
                Some(height) => Ok::<u64, IndexError>(height),
                None => Err(IndexError::Store),
            },
        },
        match stored {
            Some(bytes) => forall|height: u64| #[trigger]
                cbor_uint(height) == bytes@ ==> res == Ok::<u64, IndexError>(height),
            None => true,
        },
{
    match stored {
        None => Ok(start_height),
        Some(bytes) => decode_checkpoint(bytes),
    }
}

/// Calls `ciborium::into_writer` on `value`, writing into a fresh vector.
/// Trusted: it succeeds, since the encoder fails only where its writer does
/// and a vector takes every write; and the bytes are the shortest CBOR form of
/// the unsigned integer.
#[verifier::external_body]
fn write_cbor_u64(value: u64) -> (res: Result<Vec<u8>, ciborium::ser::Error<std::io::Error>>)
    ensures
        res is Ok,
        res matches Ok(bytes) ==> bytes@ == cbor_uint(value),
{
    let mut bytes: Vec<u8> = Vec::new();
    ciborium::into_writer(&value, &mut bytes)?;
    Ok(bytes)
}

/// Calls `ciborium::from_reader` for a `u64` on `bytes`. Trusted: the outcome
/// is the one that `cbor_u64` names, and the shortest form of a number is read
/// as that number.
#[verifier::external_body]
fn read_cbor_u64(bytes: &[u8]) -> (res: Result<u64, ciborium::de::Error<std::io::Error>>)
    ensures
        res matches Ok(value) ==> cbor_u64(bytes@) == Some(value),
        res is Err ==> cbor_u64(bytes@) is None,
        res matches Ok(read) ==> (forall|value: u64| #[trigger] cbor_uint(value) == bytes@ ==> read == value),
        res is Err ==> (forall|value: u64| #[trigger] cbor_uint(value) != bytes@),
{
    ciborium::from_reader(bytes)
}

} // verus!
