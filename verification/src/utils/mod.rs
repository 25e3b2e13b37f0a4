//! Helpers to move names between strings and fixed-size byte fields.
use vstd::prelude::*;
use vstd::string::StringSliceAdditionalSpecFns;
use vstd::utf8::valid_utf8;

use crate::Error;

pub mod builder;
pub mod parser;
pub mod roundtrip;

verus! {

/// `bytes` cut or zero padded to exactly `n` bytes.
pub open spec fn padded(bytes: Seq<u8>, n: nat) -> Seq<u8> {
    Seq::new(n, |i: int| if i < bytes.len() { bytes[i] } else { 0u8 })
}

/// Calls `core::str::from_utf8`, which succeeds exactly when `bytes` is valid
/// UTF-8 and then gives the string slice made of those very bytes.
#[verifier::external_body]
fn str_from_utf8(bytes: &[u8]) -> (res: Option<&str>)
    ensures
        res is Some <==> valid_utf8(bytes@),
        res matches Some(s) ==> s.spec_bytes() == bytes@,
{
    core::str::from_utf8(bytes).ok()
}

/// Copy the UTF-8 bytes of `s` into an array of `N` bytes: the first
/// `min(len, N)` bytes are those of `s`, the rest are zero.
pub fn str_to_array<const N: usize>(s: &str) -> (arr: [u8; N])
    ensures
        arr@ == padded(s.spec_bytes(), N as nat),
{
    let bytes = s.as_bytes();
    let copy_len: usize = if bytes.len() < N {
        bytes.len()
    } else {
        N
    };
    let mut arr = [0u8; N];
    let mut i: usize = 0;
    while i < copy_len
        invariant
            i <= copy_len,
            copy_len <= N,
            copy_len <= bytes@.len(),
            copy_len == N || copy_len == bytes@.len(),
            bytes@ == s.spec_bytes(),
            arr@.len() == N,
            forall|j: int| 0 <= j < i ==> arr@[j] == bytes@[j],
            forall|j: int| i <= j < N ==> arr@[j] == 0u8,
        decreases copy_len - i,
    {
        arr[i] = bytes[i];
        i = i + 1;
    }
    assert(arr@ =~= padded(s.spec_bytes(), N as nat));
    arr
}

/// Convert a byte slice to a string: the string whose UTF-8 encoding is
/// `arr`, or [`Error::UnknownCharacter`] when `arr` is not valid UTF-8.
pub fn slice_to_str(arr: &[u8]) -> (res: Result<&str, Error>)
    ensures
        res is Ok <==> valid_utf8(arr@),
        res matches Ok(s) ==> s.spec_bytes() == arr@,
        res is Err ==> res == Err::<&str, Error>(Error::UnknownCharacter),
{
    match str_from_utf8(arr) {
        Some(s) => Ok(s),
        None => Err(Error::UnknownCharacter),
    }
}

} // verus!
