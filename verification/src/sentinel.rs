//! Reserved "null" values of the integer types that index the storage.

use pi_null::Null;
use vstd::prelude::*;

verus! {

/// `<u32 as pi_null::Null>::null`: the reserved value is the largest `u32`.
#[verifier::external_body]
pub(crate) fn null_u32() -> (r: u32)
    ensures
        r == u32::MAX,
{
    u32::null()
}

/// `<i32 as pi_null::Null>::null`: the reserved value is the smallest `i32`.
#[verifier::external_body]
pub(crate) fn null_i32() -> (r: i32)
    ensures
        r == i32::MIN,
{
    i32::null()
}

} // verus!
