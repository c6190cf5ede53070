//! Storage-cost accounting and small host-value helpers. The registry
//! charges every state-growing call for the bytes it adds and refunds the
//! rest of the attached deposit; shrinking calls refund the reclaimed cost.
use vstd::prelude::*;
use crate::Error;
use crate::metadata::AccountId;
use crate::nft_core::approvals_view;

verus! {

/// Cost of one byte of storage, in the host's smallest currency unit.
pub const STORAGE_PRICE_PER_BYTE: u128 = 10_000_000_000_000_000_000;

/// A payment the host must send back: `amount` to `account_id`.
#[derive(Debug, Clone, PartialEq, Eq)]
pub struct Refund {
    pub account_id: AccountId,
    pub amount: u128,
}

/// Storage bytes booked for one approval entry: the account name, a length
/// prefix, and the approval id.
pub open spec fn spec_bytes_for_account(a: Seq<char>) -> nat {
    a.len() + 4 + 8
}

/// Storage bytes booked for a whole approval map.
pub open spec fn spec_approvals_storage(s: Seq<(Seq<char>, u64)>) -> nat
    decreases s.len(),
{
    if s.len() == 0 {
        0
    } else {
        spec_approvals_storage(s.drop_last()) + spec_bytes_for_account(s.last().0)
    }
}

/// A prefix never books more storage than the whole map.
pub proof fn lemma_approvals_storage_take_le(s: Seq<(Seq<char>, u64)>, i: int)
    requires
        0 <= i <= s.len(),
    ensures
        spec_approvals_storage(s.take(i)) <= spec_approvals_storage(s),
    decreases s.len() - i,
{
    if i < s.len() {
        assert(s.take(i + 1).drop_last() =~= s.take(i));
        assert(s.take(i + 1).last() == s[i]);
        lemma_approvals_storage_take_le(s, i + 1);
    } else {
        assert(s.take(i) =~= s);
    }
}

/// Storage bytes booked for one approval entry.
///
/// The account name must leave room for the fixed 12-byte overhead; every
/// account the host admits does.
pub fn bytes_for_approved_account_id(account_id: &AccountId) -> (r: u64)
    requires
        account_id@.len() + 12 <= u64::MAX,
    ensures
        r == spec_bytes_for_account(account_id@),
{
    account_id.as_str().unicode_len() as u64 + 4 + 8
}

/// The refund owed to `account_id` for the storage of all entries of an
/// approval map, at [`STORAGE_PRICE_PER_BYTE`].
pub fn refund_approved_account_ids(
    account_id: AccountId,
    approved_account_ids: &Vec<(AccountId, u64)>,
) -> (r: Refund)
    requires
        spec_approvals_storage(approvals_view(approved_account_ids@)) <= u64::MAX,
    ensures
        r.account_id == account_id,
        r.amount == spec_approvals_storage(approvals_view(approved_account_ids@))
            * STORAGE_PRICE_PER_BYTE,
{
    let ghost all = approvals_view(approved_account_ids@);
    let mut storage_released: u64 = 0;
    let n = approved_account_ids.len();
    for i in 0..n
        invariant
            n == approved_account_ids@.len(),
            all == approvals_view(approved_account_ids@),
            storage_released == spec_approvals_storage(all.take(i as int)),
            spec_approvals_storage(all) <= u64::MAX,
    {
        proof {
            lemma_approvals_storage_take_le(all, i as int + 1);
            assert(all.take(i as int + 1).drop_last() =~= all.take(i as int));
            assert(all.take(i as int + 1).last() == all[i as int]);
        }
        storage_released = storage_released + bytes_for_approved_account_id(
            &approved_account_ids[i].0,
        );
    }
    proof {
        assert(all.take(n as int) =~= all);
    }
    Refund { account_id, amount: storage_released as u128 * STORAGE_PRICE_PER_BYTE }
}

/// Settles the storage bill of a state-growing call: the attached deposit
/// must cover `storage_used` bytes, and whatever exceeds the bill by more
/// than one unit goes back to the caller.
pub fn refund_deposit(
    storage_used: u64,
    attached_deposit: u128,
    predecessor_account_id: &AccountId,
) -> (r: Result<Option<Refund>, Error>)
    ensures
        ({
            let required = storage_used * STORAGE_PRICE_PER_BYTE;
            match r {
                Ok(refund) => {
                    &&& required <= attached_deposit
                    &&& match refund {
                        Some(f) => f.account_id@ == predecessor_account_id@ && f.amount
                            == attached_deposit - required && attached_deposit - required > 1,
                        None => attached_deposit - required <= 1,
                    }
                },
                Err(e) => e == Error::InsufficientDeposit && required > attached_deposit,
            }
        }),
{
    let required_cost = storage_used as u128 * STORAGE_PRICE_PER_BYTE;
    if required_cost > attached_deposit {
        return Err(Error::InsufficientDeposit);
    }
    let refund = attached_deposit - required_cost;
    if refund > 1 {
        Ok(Some(Refund { account_id: predecessor_account_id.clone(), amount: refund }))
    } else {
        Ok(None)
    }
}

/// Whether at least one smallest currency unit is attached; mutating calls
/// demand it as an anti-spam guard.
pub fn assert_at_least_one_yocto(attached_deposit: u128) -> (r: bool)
    ensures
        r == (attached_deposit >= 1),
{
    attached_deposit >= 1
}

/// Whether exactly one smallest currency unit is attached; transfers demand
/// it so that a confused wallet cannot lose more.
pub fn assert_one_yocto(attached_deposit: u128) -> (r: bool)
    ensures
        r == (attached_deposit == 1),
{
    attached_deposit == 1
}

/// The number read from the first four bytes of an entropy word, in
/// little-endian order.
pub open spec fn spec_u128_from_bytes(b: Seq<u8>) -> int {
    b[0] + b[1] * 0x100 + b[2] * 0x10000 + b[3] * 0x1000000
}

/// Reads a number from the first bytes of a host entropy word.
pub fn as_u128(arr: &[u8]) -> (r: u128)
    requires
        arr@.len() >= 4,
    ensures
        r == spec_u128_from_bytes(arr@),
        r < 0x100000000,
{
    (arr[0] as u128) + (arr[1] as u128) * 0x100 + (arr[2] as u128) * 0x10000 + (arr[3] as u128)
        * 0x1000000
}

/// Draws the per-call random word from the host's entropy seed. The host
/// hands the seed in; the draw itself is deterministic in it, so mint
/// outcomes can be replayed.
pub fn random_u128(random_seed: &[u8]) -> (r: u128)
    requires
        random_seed@.len() >= 16,
    ensures
        r == spec_u128_from_bytes(random_seed@),
        r < 0x100000000,
{
    as_u128(random_seed)
}

} // verus!
