use vstd::prelude::*;

verus! {

/// A 32-byte account key, held as two 128-bit halves so that keys compare
/// as plain values. `hi` holds the first 16 bytes, `lo` the last 16.
#[derive(Clone, Copy, Debug, PartialEq, Eq, Structural)]
pub struct AccountKey {
    pub hi: u128,
    pub lo: u128,
}

impl AccountKey {
    /// The key whose first 16 bytes read `hi` and last 16 read `lo`, big-endian.
    pub fn new(hi: u128, lo: u128) -> (r: AccountKey)
        ensures
            r.hi == hi && r.lo == lo,
    {
        AccountKey { hi, lo }
    }
}

} // verus!
