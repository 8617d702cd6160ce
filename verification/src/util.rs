use vstd::prelude::*;
use crate::error::PasspromptError;

verus! {

/// Copies a byte vector into an array of exactly `LEN` bytes.
///
/// Succeeds exactly when the vector has `LEN` elements; the array then holds
/// the same bytes in the same order. Any other length is reported together
/// with the length that was expected.
pub fn byte_vec_to_array<const LEN: usize>(s: Vec<u8>) -> (r: Result<[u8; LEN], PasspromptError>)
    ensures
        s@.len() == LEN ==> r is Ok && r->Ok_0@ == s@,
        s@.len() != LEN ==> r == Err::<[u8; LEN], PasspromptError>(
            (PasspromptError::IllegalByteArrayLength { expected: LEN, actual: s.len() }),
        ),
{
    if s.len() != LEN {
        return Err(PasspromptError::IllegalByteArrayLength { expected: LEN, actual: s.len() });
    }
    let mut bytes_array: [u8; LEN] = [0; LEN];
    let mut i: usize = 0;
    while i < LEN
        invariant
            s@.len() == LEN,
            i <= LEN,
            forall|j: int| 0 <= j < i ==> bytes_array@[j] == s@[j],
        decreases LEN - i,
    {
        bytes_array[i] = s[i];
        i += 1;
    }
    assert(bytes_array@ =~= s@);
    Ok(bytes_array)
}

} // verus!
