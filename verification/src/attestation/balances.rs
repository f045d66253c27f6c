//! What a stash can bond: its free balance above the existential deposit and the
//! bond already locked.

use vstd::prelude::*;

use crate::types::Balance;

verus! {

/// The identifier of the bond lock, the bytes `b0ndl0ck` read as a big-endian word.
pub const BOND_LOCK_ID: u64 = 0x6230_6e64_6c30_636b;

/// A balance lock of an account.
#[derive(Clone, Copy, Debug, PartialEq, Eq, Structural)]
pub struct BalanceLock {
    /// The lock's identifier, its eight bytes read as a big-endian word.
    pub id: u64,
    pub amount: Balance,
}

/// The sum of the amounts of the bond locks among `locks`.
pub open spec fn bond_locked(locks: Seq<BalanceLock>) -> nat
    decreases locks.len(),
{
    if locks.len() == 0 {
        0
    } else {
        bond_locked(locks.drop_last()) + if locks.last().id == BOND_LOCK_ID {
            locks.last().amount as nat
        } else {
            0
        }
    }
}

/// The balance locked for the bond: the sum of the bond locks, saturated at the
/// balance type's maximum.
pub fn get_locked_balance(locks: &Vec<BalanceLock>) -> (r: Balance)
    ensures
        r as nat == if bond_locked(locks@) <= u128::MAX {
            bond_locked(locks@)
        } else {
            u128::MAX as nat
        },
{
    let mut locked: Balance = 0;
    let mut i: usize = 0;
    while i < locks.len()
        invariant
            i <= locks@.len(),
            locked as nat == if bond_locked(locks@.take(i as int)) <= u128::MAX {
                bond_locked(locks@.take(i as int))
            } else {
                u128::MAX as nat
            },
        decreases locks@.len() - i,
    {
        proof {
            assert(locks@.take(i as int + 1).drop_last() =~= locks@.take(i as int));
        }
        if locks[i].id == BOND_LOCK_ID {
            locked = locked.saturating_add(locks[i].amount);
        }
        i = i + 1;
    }
    proof {
        assert(locks@.take(locks@.len() as int) =~= locks@);
    }
    locked
}

/// What an account can still bond: its free balance less the existential deposit
/// `minimum` and the `locked` bond, or nothing when those exceed it.
pub fn get_free_balance(free: Balance, minimum: Balance, locked: Balance) -> (r: Balance)
    ensures
        r == if free >= minimum + locked {
            (free - minimum - locked) as Balance
        } else {
            0
        },
{
    free.saturating_sub(minimum).saturating_sub(locked)
}

} // verus!
