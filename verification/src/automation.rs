//! The automation core, as far as the coordination core deals with it.

use vstd::prelude::*;
use crate::bootstrap::InitError;

verus! {

/// The mathematical value of a [`PowerAutomationCore`].
pub struct CoreModel {
    pub address: Seq<char>,
}

/// A core can be built where it has an address.
pub open spec fn core_buildable(address: Seq<char>) -> bool {
    address.len() > 0
}

/// The automation core, as far as the coordination core deals with it: a
/// place that can be addressed.
#[derive(Debug)]
pub struct PowerAutomationCore {
    address: String,
}

impl View for PowerAutomationCore {
    type V = CoreModel;

    closed spec fn view(&self) -> CoreModel {
        CoreModel { address: self.address@ }
    }
}

impl PowerAutomationCore {
    /// A core always has an address.
    #[verifier::type_invariant]
    spec fn addressable(self) -> bool {
        core_buildable(self.address@)
    }

    /// Builds the core at `address`. Fails where the address is empty.
    pub fn new(address: &str) -> (built: Result<Self, InitError>)
        ensures
            match built {
                Ok(core) => core_buildable(address@) && core@ == (CoreModel { address: address@ }),
                Err(e) => !core_buildable(address@) && e == InitError::AutomationCoreFailed,
            },
    {
        if address.is_empty() {
            Err(InitError::AutomationCoreFailed)
        } else {
            Ok(PowerAutomationCore { address: address.to_owned() })
        }
    }

    /// Where the core can be addressed. Never empty.
    pub fn address(&self) -> (address: &String)
        ensures
            address@ == self@.address,
            address@.len() > 0,
    {
        proof {
            use_type_invariant(self);
        }
        &self.address
    }

    /// Whether the core can be addressed. A core that was built always can.
    pub fn is_ready(&self) -> (ready: bool)
        ensures
            ready == core_buildable(self@.address),
            ready,
    {
        proof {
            use_type_invariant(self);
        }
        !self.address.as_str().is_empty()
    }
}

} // verus!
