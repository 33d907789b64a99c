//! Taking fixed-size records out of byte slices.

use crate::read::error::TransmuteError;
use vstd::prelude::*;

verus! {

/// `safe_transmute::transmute_one_pedantic` at the type `[u8; N]`: the slice
/// as an array when it holds exactly `N` bytes, and otherwise the guard's
/// report of the two sizes. A byte array can start at any address and has no
/// byte order, so nothing else can fail and the bytes come back as they are.
#[verifier::external_body]
pub(crate) fn transmute_exact<const N: usize>(bytes: &[u8]) -> (r: Result<[u8; N], TransmuteError>)
    ensures
        r is Ok <==> bytes@.len() == N,
        r matches Ok(array) ==> array@ == bytes@,
        r matches Err(e) ==> e == (TransmuteError::Guard { required: N, actual: bytes@.len() as usize }),
{
    match safe_transmute::transmute_one_pedantic::<[u8; N]>(bytes) {
        Ok(array) => Ok(array),
        Err(safe_transmute::Error::Guard(g)) => Err(
            TransmuteError::Guard { required: g.required, actual: g.actual },
        ),
        Err(safe_transmute::Error::Unaligned(_)) => Err(TransmuteError::Unaligned),
        Err(_) => Err(TransmuteError::Incompatible),
    }
}

/// `safe_transmute::transmute_one` at the type `[u8; N]`: the first `N` bytes
/// of the slice as an array when it holds at least `N` bytes, and otherwise
/// the guard's report of the two sizes.
#[verifier::external_body]
pub(crate) fn transmute_prefix<const N: usize>(bytes: &[u8]) -> (r: Result<[u8; N], TransmuteError>)
    ensures
        r is Ok <==> bytes@.len() >= N,
        r matches Ok(array) ==> array@ == bytes@.take(N as int),
        r matches Err(e) ==> e == (TransmuteError::Guard { required: N, actual: bytes@.len() as usize }),
{
    match safe_transmute::transmute_one::<[u8; N]>(bytes) {
        Ok(array) => Ok(array),
        Err(safe_transmute::Error::Guard(g)) => Err(
            TransmuteError::Guard { required: g.required, actual: g.actual },
        ),
        Err(safe_transmute::Error::Unaligned(_)) => Err(TransmuteError::Unaligned),
        Err(_) => Err(TransmuteError::Incompatible),
    }
}

} // verus!
