//! The EVM base fee per gas, set by a privileged origin, with a default.

use vstd::prelude::*;

verus! {

/// A 256-bit unsigned integer, as four 64-bit words, least significant first.
#[derive(Clone, Copy, Debug, PartialEq, Eq, Structural)]
pub struct U256 {
    pub w0: u64,
    pub w1: u64,
    pub w2: u64,
    pub w3: u64,
}

/// Events of the base-fee setting.
#[derive(Clone, Copy, Debug, PartialEq, Eq, Structural)]
pub enum BaseFeeEvent {
    BaseFeePerGasUpdated { fee: U256 },
}

/// Why setting the base fee was refused.
#[derive(Clone, Copy, Debug, PartialEq, Eq, Structural)]
pub enum BaseFeeError {
    /// The call's origin may not set the base fee.
    BadOrigin,
}

/// The base-fee setting: the stored fee, if any, and the default that stands in for it.
pub struct BaseFeePallet {
    pub stored: Option<U256>,
    pub default_base_fee: U256,
}

impl BaseFeePallet {
    /// No fee stored yet.
    pub fn new(default_base_fee: U256) -> (p: Self)
        ensures
            p.stored is None,
            p.default_base_fee == default_base_fee,
    {
        BaseFeePallet { stored: None, default_base_fee }
    }

    /// The base fee in force: the stored one, else the default.
    pub open spec fn spec_fee(&self) -> U256 {
        match self.stored {
            Some(f) => f,
            None => self.default_base_fee,
        }
    }

    /// The base fee per gas in force.
    pub fn base_fee_per_gas(&self) -> (f: U256)
        ensures
            f == self.spec_fee(),
    {
        match self.stored {
            Some(f) => f,
            None => self.default_base_fee,
        }
    }

    /// The base fee in force (the runtime's fee getter).
    pub fn get(&self) -> (f: U256)
        ensures
            f == self.spec_fee(),
    {
        self.base_fee_per_gas()
    }

    /// Stores `fee` as the base fee when the origin may update it, and reports it.
    pub fn set_base_fee_per_gas(&mut self, may_update: bool, fee: U256, events: &mut Vec<BaseFeeEvent>) -> (r: Result<
        (),
        BaseFeeError,
    >)
        ensures
            !may_update ==> r == Err::<(), BaseFeeError>(BaseFeeError::BadOrigin) && *final(self) == *old(self)
                && final(events)@ == old(events)@,
            may_update ==> r is Ok && final(self).stored == Some(fee) && final(self).default_base_fee == old(
                self,
            ).default_base_fee && final(events)@ == old(events)@.push(BaseFeeEvent::BaseFeePerGasUpdated { fee }),
    {
        if !may_update {
            return Err(BaseFeeError::BadOrigin);
        }
        self.stored = Some(fee);
        events.push(BaseFeeEvent::BaseFeePerGasUpdated { fee });
        Ok(())
    }
}

} // verus!
