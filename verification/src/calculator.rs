//! The calculator's deployment surface.
//!
//! The calculator holds no state of its own: pricing is a pure function of
//! the arguments each call decodes and passes in, so deployment has nothing
//! to initialize.  The host-facing dispatch around this type lives outside
//! the verified library.

use vstd::prelude::*;

verus! {

/// The contract shell around the pricing functions, generic over whatever
/// host handle the runtime supplies.
pub struct SigmoidCalculator<SDK> {
    pub sdk: SDK,
}

impl<SDK> SigmoidCalculator<SDK> {
    /// Deployment hook: stateless, so nothing happens here.
    pub fn deploy(&self) {
    }
}

} // verus!
