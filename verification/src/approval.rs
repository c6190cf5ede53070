//! Delegated transfer rights: granting, revoking and querying per-token
//! approvals. Every grant carries an approval id from a per-token counter
//! that only ever grows, so an id that was revoked or superseded can never
//! be replayed.
use vstd::prelude::*;
use crate::assoc::{has_key, val_of};
use crate::metadata::{AccountId, TokenId};
use crate::nft_core::TokenInfo;
use crate::utils::{Refund, STORAGE_PRICE_PER_BYTE};
use crate::{Contract, Error};

verus! {

/// What a party granted an approval implements: notified that it may now
/// transfer the token, with the approval id it must quote. The host
/// delivers the [`ApprovalReceiverCall`] this module hands back.
pub trait NonFungibleTokenApprovalReceiver {
    /// Responds to the grant of an approval on `token_id`.
    fn nft_on_approve(
        &mut self,
        token_id: TokenId,
        owner_id: AccountId,
        approval_id: u64,
        msg: String,
    );
}

/// The notification of the newly approved account that the host is asked
/// to deliver when the approval carried a message.
#[derive(Debug, Clone, PartialEq, Eq)]
pub struct ApprovalReceiverCall {
    /// The account to notify.
    pub account_id: AccountId,
    pub token_id: TokenId,
    pub owner_id: AccountId,
    pub approval_id: u64,
    pub msg: String,
}

/// How an approval request ends: it needs an anti-spam deposit, an existing
/// token, the owner as caller, and a deposit covering the storage of a new
/// entry — re-approving an existing account stores nothing new.
pub open spec fn spec_approve_outcome(
    c: Contract,
    token_id: TokenId,
    account: Seq<char>,
    caller: Seq<char>,
    deposit: u128,
) -> Result<(), Error> {
    if deposit < 1 {
        Err(Error::InsufficientDeposit)
    } else if !c.nft().has_token(token_id) {
        Err(Error::NotFound)
    } else if c.nft().token_at(token_id).owner_id != caller {
        Err(Error::Unauthorized)
    } else if spec_approve_cost(c.nft().token_at(token_id), account) > deposit {
        Err(Error::InsufficientDeposit)
    } else {
        Ok(())
    }
}

/// The storage bill of approving `account`: one new entry's bytes, or
/// nothing when the account is already approved.
pub open spec fn spec_approve_cost(t: TokenInfo, account: Seq<char>) -> int {
    if has_key(t.approvals, account) {
        0
    } else {
        crate::utils::spec_bytes_for_account(account) * STORAGE_PRICE_PER_BYTE
    }
}

impl Contract {
    /// Approves `account_id` to transfer `token_id`. Only the token's owner
    /// may, with a deposit covering the storage of the new entry; the
    /// approval id handed out strictly exceeds every id this token granted
    /// before, even when the same account is re-approved. Returns the
    /// overpayment refund and, when a message was attached, the
    /// notification to deliver.
    pub fn nft_approve(
        &mut self,
        token_id: TokenId,
        account_id: AccountId,
        msg: Option<String>,
        predecessor_account_id: &AccountId,
        attached_deposit: u128,
    ) -> (r: Result<(Option<Refund>, Option<ApprovalReceiverCall>), Error>)
        requires
            old(self).wf(),
            account_id@.len() + 12 <= u64::MAX,
            old(self).nft().has_token(token_id) ==> old(self).nft().token_at(
                token_id,
            ).next_approval_id < u64::MAX,
        ensures
            r is Ok <==> spec_approve_outcome(
                *old(self),
                token_id,
                account_id@,
                predecessor_account_id@,
                attached_deposit,
            ) is Ok,
            match r {
                Ok((refund, receiver_call)) => {
                    let oldinfo = old(self).nft().token_at(token_id);
                    let newinfo = final(self).nft().token_at(token_id);
                    let granted = oldinfo.next_approval_id;
                    &&& final(self).wf()
                    &&& final(self).nft().has_token(token_id)
                    &&& newinfo.next_approval_id == granted + 1
                    &&& crate::assoc::as_map(newinfo.approvals) == crate::assoc::as_map(
                        oldinfo.approvals,
                    ).insert(account_id@, granted)
                    &&& newinfo.owner_id == oldinfo.owner_id
                    // repeated approvals strictly increase the stored id
                    &&& has_key(oldinfo.approvals, account_id@) ==> granted > val_of(
                        oldinfo.approvals,
                        account_id@,
                    )
                    &&& final(self).nft().token_map() == old(self).nft().token_map().insert(
                        token_id,
                        newinfo,
                    )
                    &&& final(self).token_type_by_id == old(self).token_type_by_id
                    &&& final(self).token_type_by_title == old(self).token_type_by_title
                    &&& final(self).token_type_assets_by_id == old(self).token_type_assets_by_id
                    &&& match refund {
                        Some(f) => f.account_id@ == predecessor_account_id@ && f.amount
                            == attached_deposit - spec_approve_cost(oldinfo, account_id@)
                            && attached_deposit - spec_approve_cost(oldinfo, account_id@) > 1,
                        None => attached_deposit - spec_approve_cost(oldinfo, account_id@) <= 1,
                    }
                    &&& match (msg, receiver_call) {
                        (Some(m), Some(call)) => {
                            &&& call.account_id == account_id
                            &&& call.token_id == token_id
                            &&& call.owner_id@ == oldinfo.owner_id
                            &&& call.approval_id == granted
                            &&& call.msg == m
                        },
                        (None, None) => true,
                        _ => false,
                    }
                },
                Err(e) => {
                    &&& *final(self) == *old(self)
                    &&& Err::<(), Error>(e) == spec_approve_outcome(
                        *old(self),
                        token_id,
                        account_id@,
                        predecessor_account_id@,
                        attached_deposit,
                    )
                },
            },
    {
        let ghost pre = *old(self);
        if !crate::utils::assert_at_least_one_yocto(attached_deposit) {
            return Err(Error::InsufficientDeposit);
        }
        let nft = self.tokens_mut();
        let i = match nft.find_token_index(&token_id) {
            Some(i) => i,
            None => {
                return Err(Error::NotFound);
            },
        };
        proof {
            assert(pre.nft().token_pairs()[i as int].0 == token_id);
            assert(pre.nft().has_token(token_id));
            crate::assoc::lemma_idx_of_unique(pre.nft().token_pairs(), i as int);
            assert(pre.nft().tokens@[i as int]@ == pre.nft().token_at(token_id));
        }
        let ghost oldinfo = pre.nft().token_at(token_id);
        if !crate::metadata::account_eq(predecessor_account_id, &nft.tokens[i].owner_id) {
            return Err(Error::Unauthorized);
        }
        // a fresh entry must be paid for; replacing an entry stores nothing
        let found = crate::nft_core::find_approval(&nft.tokens[i].approved_account_ids, &account_id);
        let storage_used: u64 = match found {
            Some(_) => 0,
            None => crate::utils::bytes_for_approved_account_id(&account_id),
        };
        proof {
            match found {
                Some(p) => {
                    assert(oldinfo.approvals[p as int].0 == account_id@);
                    assert(has_key(oldinfo.approvals, account_id@));
                },
                None => {
                    assert(!has_key(oldinfo.approvals, account_id@));
                },
            }
            assert(storage_used as int * STORAGE_PRICE_PER_BYTE as int == spec_approve_cost(
                oldinfo,
                account_id@,
            ));
        }
        let required_cost = storage_used as u128 * STORAGE_PRICE_PER_BYTE;
        if required_cost > attached_deposit {
            return Err(Error::InsufficientDeposit);
        }
        let owner_id = nft.tokens[i].owner_id.clone();
        let (approval_id, _newly) = nft.approve_record(i, &account_id);
        proof {
            if has_key(oldinfo.approvals, account_id@) {
                let j = crate::assoc::idx_of(oldinfo.approvals, account_id@);
                assert(oldinfo.approvals[j].1 < oldinfo.next_approval_id);
            }
        }
        let refund_amount = attached_deposit - required_cost;
        let refund = if refund_amount > 1 {
            Some(Refund { account_id: predecessor_account_id.clone(), amount: refund_amount })
        } else {
            None
        };
        let receiver_call = match msg {
            Some(m) => Some(
                ApprovalReceiverCall {
                    account_id: account_id.clone(),
                    token_id,
                    owner_id,
                    approval_id,
                    msg: m,
                },
            ),
            None => None,
        };
        proof {
            crate::lemma_cross_ok_same_domain(final(self).type_pairs(), pre.nft(), final(self).nft());
        }
        Ok((refund, receiver_call))
    }

    /// Revokes `account_id`'s approval on `token_id`. Only the token's
    /// owner may, with exactly one currency unit attached; revoking an
    /// account that was never approved is a harmless no-op. On removal the
    /// owner is refunded the entry's storage.
    pub fn nft_revoke(
        &mut self,
        token_id: TokenId,
        account_id: AccountId,
        predecessor_account_id: &AccountId,
        attached_deposit: u128,
    ) -> (r: Result<Option<Refund>, Error>)
        requires
            old(self).wf(),
            account_id@.len() + 12 <= u64::MAX,
        ensures
            match r {
                Ok(refund) => {
                    let oldinfo = old(self).nft().token_at(token_id);
                    let newinfo = final(self).nft().token_at(token_id);
                    &&& attached_deposit == 1
                    &&& old(self).nft().has_token(token_id)
                    &&& oldinfo.owner_id == predecessor_account_id@
                    &&& final(self).wf()
                    &&& crate::assoc::as_map(newinfo.approvals) == crate::assoc::as_map(
                        oldinfo.approvals,
                    ).remove(account_id@)
                    &&& newinfo.next_approval_id == oldinfo.next_approval_id
                    &&& newinfo.owner_id == oldinfo.owner_id
                    &&& final(self).nft().token_map() == old(self).nft().token_map().insert(
                        token_id,
                        newinfo,
                    )
                    &&& final(self).token_type_by_id == old(self).token_type_by_id
                    &&& final(self).token_type_by_title == old(self).token_type_by_title
                    &&& final(self).token_type_assets_by_id == old(self).token_type_assets_by_id
                    &&& match refund {
                        Some(f) => has_key(oldinfo.approvals, account_id@) && f.account_id@
                            == predecessor_account_id@ && f.amount
                            == crate::utils::spec_bytes_for_account(account_id@)
                            * STORAGE_PRICE_PER_BYTE,
                        None => !has_key(oldinfo.approvals, account_id@),
                    }
                },
                Err(e) => {
                    &&& *final(self) == *old(self)
                    &&& if attached_deposit != 1 {
                        e == Error::InsufficientDeposit
                    } else if !old(self).nft().has_token(token_id) {
                        e == Error::NotFound
                    } else {
                        e == Error::Unauthorized && old(self).nft().token_at(token_id).owner_id
                            != predecessor_account_id@
                    }
                },
            },
            r is Err <==> (attached_deposit != 1 || !old(self).nft().has_token(token_id) || old(
                self,
            ).nft().token_at(token_id).owner_id != predecessor_account_id@),
    {
        let ghost pre = *old(self);
        if !crate::utils::assert_one_yocto(attached_deposit) {
            return Err(Error::InsufficientDeposit);
        }
        let nft = self.tokens_mut();
        let i = match nft.find_token_index(&token_id) {
            Some(i) => i,
            None => {
                return Err(Error::NotFound);
            },
        };
        proof {
            crate::assoc::lemma_idx_of_unique(pre.nft().token_pairs(), i as int);
            assert(pre.nft().tokens@[i as int]@ == pre.nft().token_at(token_id));
        }
        if !crate::metadata::account_eq(predecessor_account_id, &nft.tokens[i].owner_id) {
            return Err(Error::Unauthorized);
        }
        let removed = nft.revoke_record(i, &account_id);
        let refund = if removed {
            Some(
                Refund {
                    account_id: predecessor_account_id.clone(),
                    amount: crate::utils::bytes_for_approved_account_id(&account_id) as u128
                        * STORAGE_PRICE_PER_BYTE,
                },
            )
        } else {
            None
        };
        proof {
            crate::lemma_cross_ok_same_domain(final(self).type_pairs(), pre.nft(), final(self).nft());
        }
        Ok(refund)
    }

    /// Revokes every approval on `token_id`. Only the token's owner may,
    /// with exactly one currency unit attached; the owner is refunded the
    /// storage of every removed entry.
    pub fn nft_revoke_all(
        &mut self,
        token_id: TokenId,
        predecessor_account_id: &AccountId,
        attached_deposit: u128,
    ) -> (r: Result<Refund, Error>)
        requires
            old(self).wf(),
            old(self).nft().has_token(token_id) ==> crate::utils::spec_approvals_storage(
                old(self).nft().token_at(token_id).approvals,
            ) <= u64::MAX,
        ensures
            match r {
                Ok(refund) => {
                    let oldinfo = old(self).nft().token_at(token_id);
                    let newinfo = final(self).nft().token_at(token_id);
                    &&& attached_deposit == 1
                    &&& old(self).nft().has_token(token_id)
                    &&& oldinfo.owner_id == predecessor_account_id@
                    &&& final(self).wf()
                    &&& newinfo.approvals.len() == 0
                    &&& newinfo.next_approval_id == oldinfo.next_approval_id
                    &&& newinfo.owner_id == oldinfo.owner_id
                    &&& final(self).nft().token_map() == old(self).nft().token_map().insert(
                        token_id,
                        newinfo,
                    )
                    &&& final(self).token_type_by_id == old(self).token_type_by_id
                    &&& final(self).token_type_by_title == old(self).token_type_by_title
                    &&& final(self).token_type_assets_by_id == old(self).token_type_assets_by_id
                    &&& refund.account_id@ == predecessor_account_id@
                    &&& refund.amount == crate::utils::spec_approvals_storage(oldinfo.approvals)
                        * STORAGE_PRICE_PER_BYTE
                },
                Err(e) => {
                    &&& *final(self) == *old(self)
                    &&& if attached_deposit != 1 {
                        e == Error::InsufficientDeposit
                    } else if !old(self).nft().has_token(token_id) {
                        e == Error::NotFound
                    } else {
                        e == Error::Unauthorized && old(self).nft().token_at(token_id).owner_id
                            != predecessor_account_id@
                    }
                },
            },
            r is Err <==> (attached_deposit != 1 || !old(self).nft().has_token(token_id) || old(
                self,
            ).nft().token_at(token_id).owner_id != predecessor_account_id@),
    {
        let ghost pre = *old(self);
        if !crate::utils::assert_one_yocto(attached_deposit) {
            return Err(Error::InsufficientDeposit);
        }
        let nft = self.tokens_mut();
        let i = match nft.find_token_index(&token_id) {
            Some(i) => i,
            None => {
                return Err(Error::NotFound);
            },
        };
        proof {
            crate::assoc::lemma_idx_of_unique(pre.nft().token_pairs(), i as int);
            assert(pre.nft().tokens@[i as int]@ == pre.nft().token_at(token_id));
        }
        if !crate::metadata::account_eq(predecessor_account_id, &nft.tokens[i].owner_id) {
            return Err(Error::Unauthorized);
        }
        let refund = crate::utils::refund_approved_account_ids(
            predecessor_account_id.clone(),
            &nft.tokens[i].approved_account_ids,
        );
        let _ = nft.take_approvals(i);
        proof {
            crate::assoc::lemma_map_binding(final(self).nft().token_pairs(), token_id);
            assert forall|x: TokenId| final(self).nft().has_token(x) == pre.nft().has_token(x) by {
                crate::assoc::lemma_map_binding(final(self).nft().token_pairs(), x);
                crate::assoc::lemma_map_binding(pre.nft().token_pairs(), x);
            }
            crate::lemma_cross_ok_same_domain(final(self).type_pairs(), pre.nft(), final(self).nft());
        }
        Ok(refund)
    }

    /// Whether `approved_account_id` is approved to transfer `token_id`:
    /// `false` for a token that does not exist or an account that is not
    /// approved; a supplied `approval_id` must additionally match the
    /// recorded one exactly.
    pub fn nft_is_approved(
        &self,
        token_id: TokenId,
        approved_account_id: AccountId,
        approval_id: Option<u64>,
    ) -> (r: bool)
        requires
            self.wf(),
        ensures
            r == spec_is_approved(*self, token_id, approved_account_id@, approval_id),
    {
        let nft = self.tokens();
        let i = match nft.find_token_index(&token_id) {
            Some(i) => i,
            None => {
                return false;
            },
        };
        proof {
            crate::assoc::lemma_idx_of_unique(self.nft().token_pairs(), i as int);
            assert(self.nft().tokens@[i as int]@ == self.nft().token_at(token_id));
        }
        let p = match crate::nft_core::find_approval(
            &nft.tokens[i].approved_account_ids,
            &approved_account_id,
        ) {
            Some(p) => p,
            None => {
                return false;
            },
        };
        proof {
            crate::assoc::lemma_idx_of_unique(
                crate::nft_core::approvals_view(self.nft().tokens@[i as int].approved_account_ids@),
                p as int,
            );
        }
        match approval_id {
            Some(given) => nft.tokens[i].approved_account_ids[p].1 == given,
            None => true,
        }
    }
}

/// Whether an account holds a live approval on a token, optionally pinned
/// to an exact approval id.
pub open spec fn spec_is_approved(
    c: Contract,
    token_id: TokenId,
    account: Seq<char>,
    approval_id: Option<u64>,
) -> bool {
    &&& c.nft().has_token(token_id)
    &&& has_key(c.nft().token_at(token_id).approvals, account)
    &&& (approval_id matches Some(id) ==> val_of(c.nft().token_at(token_id).approvals, account)
        == id)
}

} // verus!
