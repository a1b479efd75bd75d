//! The `(n, t)` threshold parameters of a protocol instance.

use vstd::prelude::*;

use crate::Error;
use crate::FrostResult;

verus! {

/// The parameters of a protocol run: `n` participants, of which any `t`
/// can produce a signature.
#[derive(Clone, Copy, PartialEq, Eq, Structural, Debug)]
pub struct ThresholdParameters {
    /// The total number of participants.
    pub n: u32,
    /// The signing threshold.
    pub t: u32,
}

impl ThresholdParameters {
    /// Whether the pair is consistent: at least one signer is required, and
    /// no more than the whole group.
    pub open spec fn is_valid(self) -> bool {
        1 <= self.t <= self.n
    }

    /// Builds a parameter set, rejecting `t == 0`, `n == 0` and `t > n`.
    pub fn new(n: u32, t: u32) -> (r: FrostResult<ThresholdParameters>)
        ensures
            r matches Ok(p) ==> p.n == n && p.t == t && p.is_valid(),
            r is Ok <==> 1 <= t <= n,
            r matches Err(e) ==> e is InvalidParameters,
    {
        if t == 0 || n == 0 || t > n {
            Err(Error::InvalidParameters)
        } else {
            Ok(ThresholdParameters { n, t })
        }
    }
}

} // verus!
