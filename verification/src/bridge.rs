//! The bridge collector: authorities approve the collection of funds burned on
//! the previous chain, each burn at most once.

use vstd::prelude::*;

use crate::keymap::KeyMap;
use crate::types::{AccountId, Balance, KeyEq};

verus! {

/// Who dispatched a call.
#[derive(Clone, Copy, Debug, PartialEq, Eq, Structural)]
pub enum Origin {
    Root,
    Signed(AccountId),
    Unsigned,
}

/// Identifier of a burn on the previous chain.
#[derive(Clone, Copy, Debug, PartialEq, Eq, Structural)]
pub struct Cc2BurnId(pub u64);

impl KeyEq for Cc2BurnId {
    fn key_eq(&self, other: &Self) -> (b: bool) {
        self.0 == other.0
    }
}

/// A collected burn.
#[derive(Clone, Copy, Debug, PartialEq, Eq, Structural)]
pub struct CollectionInfo {
    pub amount: Balance,
    pub collector: AccountId,
    pub block_number: u64,
}

/// Events of the bridge.
#[derive(Clone, Copy, Debug, PartialEq, Eq, Structural)]
pub enum BridgeEvent {
    FundsCollected(Cc2BurnId, AccountId, Balance),
}

/// Why a call of the bridge was refused.
#[derive(Clone, Copy, Debug, PartialEq, Eq, Structural)]
pub enum BridgeError {
    AlreadyCollected,
    InvalidCollectionAmount,
    NotAnAuthority,
    AlreadyAuthority,
    InsufficientAuthority,
    /// The call's origin may not make it.
    BadOrigin,
}

/// New currency to issue into an account.
#[derive(Clone, Copy, Debug, PartialEq, Eq, Structural)]
pub struct Issuance {
    pub to: AccountId,
    pub amount: Balance,
}

/// The bridge's state.
pub struct BridgePallet {
    pub collections: KeyMap<Cc2BurnId, CollectionInfo>,
    pub authorities: KeyMap<AccountId, ()>,
}

impl BridgePallet {
    pub open spec fn wf(&self) -> bool {
        self.collections.wf() && self.authorities.wf()
    }

    /// A bridge with no collection and no authority.
    pub fn new() -> (b: Self)
        ensures
            b.wf(),
            b.collections@ == Map::<Cc2BurnId, CollectionInfo>::empty(),
            b.authorities@ == Map::<AccountId, ()>::empty(),
    {
        BridgePallet { collections: KeyMap::new(), authorities: KeyMap::new() }
    }

    /// The collection of burn `burn_id`, if collected.
    pub fn collections(&self, burn_id: Cc2BurnId) -> (r: Option<CollectionInfo>)
        requires
            self.wf(),
        ensures
            r == self.collections@.get(burn_id),
    {
        match self.collections.get(&burn_id) {
            Some(c) => Some(*c),
            None => None,
        }
    }

    /// `Some(())` when `who` is an authority.
    pub fn authorities(&self, who: AccountId) -> (r: Option<()>)
        requires
            self.wf(),
        ensures
            r == self.authorities@.get(who),
    {
        match self.authorities.get(&who) {
            Some(_) => Some(()),
            None => None,
        }
    }

    /// Records the collection of burn `burn_id` by `collector` at block
    /// `block_number`, for a signed origin; a burn is collected once and a collection
    /// is never empty. Returns the issuance of `amount` into the collector's account.
    pub fn approve_collection_cc2(
        &mut self,
        origin: Origin,
        burn_id: Cc2BurnId,
        collector: AccountId,
        amount: Balance,
        block_number: u64,
        events: &mut Vec<BridgeEvent>,
    ) -> (r: Result<Issuance, BridgeError>)
        requires
            old(self).wf(),
        ensures
            final(self).wf(),
            !(origin is Signed) ==> r == Err::<Issuance, BridgeError>(BridgeError::BadOrigin),
            origin is Signed && old(self).collections@.contains_key(burn_id) ==> r == Err::<Issuance, BridgeError>(
                BridgeError::AlreadyCollected,
            ),
            origin is Signed && !old(self).collections@.contains_key(burn_id) && amount == 0 ==> r == Err::<
                Issuance,
                BridgeError,
            >(BridgeError::InvalidCollectionAmount),
            r is Err ==> final(self).collections@ == old(self).collections@ && final(events)@ == old(events)@,
            r is Ok <==> origin is Signed && !old(self).collections@.contains_key(burn_id) && amount != 0,
            r is Ok ==> {
                &&& r == Ok::<Issuance, BridgeError>(Issuance { to: collector, amount })
                &&& final(self).collections@ == old(self).collections@.insert(
                    burn_id,
                    CollectionInfo { amount, collector, block_number },
                )
                &&& final(events)@ == old(events)@.push(BridgeEvent::FundsCollected(burn_id, collector, amount))
            },
            final(self).authorities == old(self).authorities,
    {
        match origin {
            Origin::Signed(_) => {},
            _ => {
                return Err(BridgeError::BadOrigin);
            },
        }
        if self.collections.contains_key(&burn_id) {
            return Err(BridgeError::AlreadyCollected);
        }
        if amount == 0 {
            return Err(BridgeError::InvalidCollectionAmount);
        }
        self.collections.insert(burn_id, CollectionInfo { amount, collector, block_number });
        events.push(BridgeEvent::FundsCollected(burn_id, collector, amount));
        Ok(Issuance { to: collector, amount })
    }

    /// An authority approves the collection of burn `burn_id` by `collector`; see
    /// [`Self::approve_collection_cc2`].
    pub fn approve_collection(
        &mut self,
        origin: Origin,
        burn_id: Cc2BurnId,
        collector: AccountId,
        amount: Balance,
        block_number: u64,
        events: &mut Vec<BridgeEvent>,
    ) -> (r: Result<Issuance, BridgeError>)
        requires
            old(self).wf(),
        ensures
            final(self).wf(),
            !(origin is Signed) ==> r == Err::<Issuance, BridgeError>(BridgeError::BadOrigin),
            origin matches Origin::Signed(who) && !old(self).authorities@.contains_key(who) ==> r == Err::<
                Issuance,
                BridgeError,
            >(BridgeError::InsufficientAuthority),
            origin matches Origin::Signed(who) && old(self).authorities@.contains_key(who)
                && old(self).collections@.contains_key(burn_id) ==> r == Err::<Issuance, BridgeError>(
                BridgeError::AlreadyCollected,
            ),
            origin matches Origin::Signed(who) && old(self).authorities@.contains_key(who)
                && !old(self).collections@.contains_key(burn_id) && amount == 0 ==> r == Err::<
                Issuance,
                BridgeError,
            >(BridgeError::InvalidCollectionAmount),
            r is Err ==> final(self).collections@ == old(self).collections@ && final(events)@ == old(events)@,
            r is Ok <==> (origin matches Origin::Signed(who) && old(self).authorities@.contains_key(who)
                && !old(self).collections@.contains_key(burn_id) && amount != 0),
            r is Ok ==> {
                &&& r == Ok::<Issuance, BridgeError>(Issuance { to: collector, amount })
                &&& final(self).collections@ == old(self).collections@.insert(
                    burn_id,
                    CollectionInfo { amount, collector, block_number },
                )
                &&& final(events)@ == old(events)@.push(BridgeEvent::FundsCollected(burn_id, collector, amount))
            },
            final(self).authorities == old(self).authorities,
    {
        let who = match origin {
            Origin::Signed(w) => w,
            _ => {
                return Err(BridgeError::BadOrigin);
            },
        };
        if !self.authorities.contains_key(&who) {
            return Err(BridgeError::InsufficientAuthority);
        }
        self.approve_collection_cc2(origin, burn_id, collector, amount, block_number, events)
    }

    /// Root makes `who` an authority; refused when it already is.
    pub fn add_authority(&mut self, origin: Origin, who: AccountId) -> (r: Result<(), BridgeError>)
        requires
            old(self).wf(),
        ensures
            final(self).wf(),
            !(origin is Root) ==> r == Err::<(), BridgeError>(BridgeError::BadOrigin),
            origin is Root && old(self).authorities@.contains_key(who) ==> r == Err::<(), BridgeError>(
                BridgeError::AlreadyAuthority,
            ),
            r is Ok <==> origin is Root && !old(self).authorities@.contains_key(who),
            final(self).authorities@ == if r is Ok {
                old(self).authorities@.insert(who, ())
            } else {
                old(self).authorities@
            },
            final(self).collections == old(self).collections,
    {
        match origin {
            Origin::Root => {},
            _ => {
                return Err(BridgeError::BadOrigin);
            },
        }
        if self.authorities.contains_key(&who) {
            return Err(BridgeError::AlreadyAuthority);
        }
        self.authorities.insert(who, ());
        Ok(())
    }

    /// Root removes the authority `who`; refused when it is none.
    pub fn remove_authority(&mut self, origin: Origin, who: AccountId) -> (r: Result<(), BridgeError>)
        requires
            old(self).wf(),
        ensures
            final(self).wf(),
            !(origin is Root) ==> r == Err::<(), BridgeError>(BridgeError::BadOrigin),
            origin is Root && !old(self).authorities@.contains_key(who) ==> r == Err::<(), BridgeError>(
                BridgeError::NotAnAuthority,
            ),
            r is Ok <==> origin is Root && old(self).authorities@.contains_key(who),
            final(self).authorities@ == if r is Ok {
                old(self).authorities@.remove(who)
            } else {
                old(self).authorities@
            },
            final(self).collections == old(self).collections,
    {
        match origin {
            Origin::Root => {},
            _ => {
                return Err(BridgeError::BadOrigin);
            },
        }
        if !self.authorities.contains_key(&who) {
            return Err(BridgeError::NotAnAuthority);
        }
        let _ = self.authorities.remove(&who);
        Ok(())
    }
}

} // verus!
