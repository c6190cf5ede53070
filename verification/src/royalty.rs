//! The royalty engine: deterministic fractional-split payouts from a
//! series' royalty table and a sale balance, with integer-truncating
//! division — residue lost to rounding is retained by nobody.
use vstd::prelude::*;
use crate::metadata::{AccountId, TokenId};
use crate::{Contract, Error};

verus! {

/// A full share: royalty shares are basis points summing to at most this.
pub const COMPLETE_ROYALTY_BASIS_POINTS: u32 = 10_000;

/// An ephemeral payout computation result: account to amount, generated
/// fresh on each query, never stored.
#[derive(Debug, Clone, PartialEq, Eq)]
pub struct Payout {
    pub payout: Vec<(AccountId, u128)>,
}

/// The payout map, keyed by the view of the account.
pub open spec fn payout_view(s: Seq<(AccountId, u128)>) -> Seq<(Seq<char>, u128)> {
    s.map_values(|p: (AccountId, u128)| (p.0@, p.1))
}

/// One share: `basis_points / 10000` of the balance, rounded down.
pub open spec fn spec_royalty_amount(basis_points: u32, balance: u128) -> int {
    (basis_points * balance) / (COMPLETE_ROYALTY_BASIS_POINTS as int)
}

/// Converts a basis-point share of a balance into an amount, rounding
/// down.
pub fn royalty_to_payout(royalty_percentage: u32, amount_to_pay: u128) -> (r: u128)
    requires
        amount_to_pay <= u128::MAX / (u32::MAX as u128),
    ensures
        r == spec_royalty_amount(royalty_percentage, amount_to_pay),
{
    proof {
        assert(royalty_percentage as u128 * amount_to_pay <= u32::MAX as u128 * (u128::MAX / (
        u32::MAX as u128))) by (nonlinear_arith)
            requires
                amount_to_pay <= u128::MAX / (u32::MAX as u128),
                royalty_percentage as u128 <= u32::MAX as u128,
        ;
        assert(u32::MAX as u128 * (u128::MAX / (u32::MAX as u128)) <= u128::MAX) by (
        nonlinear_arith);
    }
    royalty_percentage as u128 * amount_to_pay / (COMPLETE_ROYALTY_BASIS_POINTS as u128)
}

/// The non-owner payout rows a royalty table yields, in table order: one
/// row per entry whose account is not the owner.
pub open spec fn spec_royalty_payouts(
    royalty: Seq<(Seq<char>, u32)>,
    owner: Seq<char>,
    balance: u128,
) -> Seq<(Seq<char>, u128)>
    decreases royalty.len(),
{
    if royalty.len() == 0 {
        Seq::empty()
    } else {
        let rest = spec_royalty_payouts(royalty.drop_last(), owner, balance);
        if royalty.last().0 == owner {
            rest
        } else {
            rest.push(
                (royalty.last().0, spec_royalty_amount(royalty.last().1, balance) as u128),
            )
        }
    }
}

/// The basis points granted to accounts other than the owner.
pub open spec fn spec_nonowner_total(royalty: Seq<(Seq<char>, u32)>, owner: Seq<char>) -> int
    decreases royalty.len(),
{
    if royalty.len() == 0 {
        0
    } else {
        spec_nonowner_total(royalty.drop_last(), owner) + if royalty.last().0 == owner {
            0
        } else {
            royalty.last().1 as int
        }
    }
}

/// What the whole payout of a sale looks like: every non-owner entry's
/// share, and the owner's remainder share appended when it is strictly
/// positive. When the table grants 10000 basis points or more to others,
/// the owner receives nothing.
pub open spec fn spec_full_payout(
    royalty: Seq<(Seq<char>, u32)>,
    owner: Seq<char>,
    balance: u128,
) -> Seq<(Seq<char>, u128)> {
    let base = spec_royalty_payouts(royalty, owner, balance);
    let total = spec_nonowner_total(royalty, owner);
    if total < COMPLETE_ROYALTY_BASIS_POINTS && spec_royalty_amount(
        (COMPLETE_ROYALTY_BASIS_POINTS - total) as u32,
        balance,
    ) > 0 {
        base.push(
            (
                owner,
                spec_royalty_amount((COMPLETE_ROYALTY_BASIS_POINTS - total) as u32, balance) as u128,
            ),
        )
    } else {
        base
    }
}

/// The non-owner totals of a prefix never exceed the whole table's.
proof fn lemma_nonowner_total_take(royalty: Seq<(Seq<char>, u32)>, owner: Seq<char>, i: int)
    requires
        0 <= i <= royalty.len(),
    ensures
        0 <= spec_nonowner_total(royalty.take(i), owner),
        spec_nonowner_total(royalty.take(i), owner) <= i * (u32::MAX as int),
    decreases i,
{
    if i > 0 {
        assert(royalty.take(i).drop_last() =~= royalty.take(i - 1));
        lemma_nonowner_total_take(royalty, owner, i - 1);
    }
}

/// Builds the payout rows of a royalty table: every non-owner entry's
/// share of the balance. Returns the rows and the basis points handed out.
fn build_royalty_rows(
    royalty: &Vec<(AccountId, u32)>,
    owner: &AccountId,
    balance: u128,
) -> (r: (Vec<(AccountId, u128)>, u128))
    requires
        balance <= u128::MAX / (u32::MAX as u128),
    ensures
        payout_view(r.0@) == spec_royalty_payouts(
            crate::nft_type::royalty_view(royalty@),
            owner@,
            balance,
        ),
        r.1 == spec_nonowner_total(crate::nft_type::royalty_view(royalty@), owner@),
{
    let ghost all = crate::nft_type::royalty_view(royalty@);
    let mut rows: Vec<(AccountId, u128)> = Vec::new();
    let mut total: u128 = 0;
    let n = royalty.len();
    for i in 0..n
        invariant
            n == royalty@.len(),
            all == crate::nft_type::royalty_view(royalty@),
            balance <= u128::MAX / (u32::MAX as u128),
            payout_view(rows@) == spec_royalty_payouts(all.take(i as int), owner@, balance),
            total == spec_nonowner_total(all.take(i as int), owner@),
            total <= i as u128 * (u32::MAX as u128),
    {
        proof {
            assert(all.take(i as int + 1).drop_last() =~= all.take(i as int));
            assert(all.take(i as int + 1).last() == all[i as int]);
            lemma_nonowner_total_take(all, owner@, i as int);
        }
        let key = royalty[i].0.clone();
        if !crate::metadata::account_eq(&key, owner) {
            let amount = royalty_to_payout(royalty[i].1, balance);
            let ghost rows_snap = rows@;
            rows.push((key, amount));
            total = total + royalty[i].1 as u128;
            proof {
                assert(payout_view(rows@) =~= payout_view(rows_snap).push(
                    (all[i as int].0, amount),
                ));
            }
        }
    }
    proof {
        assert(all.take(n as int) =~= all);
    }
    (rows, total)
}

impl Contract {
    /// Computes the payout split of selling `token_id` for `balance`:
    /// every royalty account except the current owner receives its
    /// basis-point share rounded down, and the owner receives the remainder
    /// share — inserted only when strictly positive. Rounding residue goes
    /// to nobody. Fails `TooManyRecipients` when the table exceeds the
    /// caller's stated budget, `NotFound` for an unknown token.
    pub fn nft_payout(&self, token_id: TokenId, balance: u128, max_len_payout: u32) -> (r: Result<
        Payout,
        Error,
    >)
        requires
            self.wf(),
            balance <= u128::MAX / (u32::MAX as u128),
        ensures
            r is Ok <==> (self.nft().has_token(token_id) && self.type_at(
                token_id.token_type_id,
            ).royalty.len() <= max_len_payout),
            match r {
                Ok(payout) => {
                    let owner = self.nft().token_at(token_id).owner_id;
                    let royalty = self.type_at(token_id.token_type_id).royalty;
                    payout_view(payout.payout@) == spec_full_payout(royalty, owner, balance)
                },
                Err(e) => {
                    if !self.nft().has_token(token_id) {
                        e == Error::NotFound
                    } else {
                        e == Error::TooManyRecipients
                    }
                },
            },
    {
        let nft = self.tokens();
        let i = match nft.find_token_index(&token_id) {
            Some(i) => i,
            None => {
                return Err(Error::NotFound);
            },
        };
        proof {
            assert(self.nft().token_pairs()[i as int].0 == token_id);
            assert(self.nft().has_token(token_id));
            crate::assoc::lemma_idx_of_unique(self.nft().token_pairs(), i as int);
            assert(self.nft().tokens@[i as int]@ == self.nft().token_at(token_id));
        }
        let owner_id = nft.tokens[i].owner_id.clone();
        let ti = match self.find_type_index(token_id.token_type_id) {
            Some(ti) => ti,
            None => {
                proof {
                    assert(false);
                }
                return Err(Error::NotFound);
            },
        };
        proof {
            crate::assoc::lemma_idx_of_unique(self.type_pairs(), ti as int);
        }
        let token_type = self.token_type_by_id[ti].1.duplicate_normalized();
        if token_type.royalty.len() as u64 > max_len_payout as u64 {
            return Err(Error::TooManyRecipients);
        }
        Ok(compute_full_payout(&token_type.royalty, &owner_id, balance))
    }
}

impl Contract {
    /// Transfers `token_id` to `receiver_id` and computes the payout split
    /// the market must honour, in one step. With `mint_args` supplied the
    /// transfer is replaced by a lazy mint: the token does not exist yet
    /// and is minted fresh to the receiver named there, and the seller for
    /// the payout is that receiver. The split uses the same computation as
    /// [`Self::nft_payout`], over the affected series' royalty table.
    /// Returns the payout (when a balance was given), the emitted events,
    /// and any refund.
    pub fn nft_transfer_payout(
        &mut self,
        receiver_id: AccountId,
        token_id: TokenId,
        approval_id: u64,
        memo: Option<String>,
        mint_args: Option<crate::nft_type::TypeMintArgs>,
        balance: Option<u128>,
        max_len_payout: Option<u32>,
        random_value: u128,
        predecessor_account_id: &AccountId,
        attached_deposit: u128,
    ) -> (r: Result<(Option<Payout>, Vec<crate::events::EventLog>, Option<crate::utils::Refund>), Error>)
        requires
            old(self).wf(),
            match balance {
                Some(b) => b <= u128::MAX / (u32::MAX as u128),
                None => true,
            },
        ensures
            match mint_args {
                Some(args) => r is Ok <==> (old(self).has_title(args.token_type_title@)
                    && !spec_payout_budget_exceeded(
                    old(self).type_at(old(self).title_at(args.token_type_title@)).royalty,
                    balance,
                    max_len_payout,
                ) && crate::nft_type::spec_mint_outcome(
                    *old(self),
                    args.token_type_title@,
                    predecessor_account_id@,
                    attached_deposit,
                ) is Ok),
                None => r is Ok <==> (old(self).nft().has_token(token_id)
                    && !spec_payout_budget_exceeded(
                    old(self).type_at(token_id.token_type_id).royalty,
                    balance,
                    max_len_payout,
                ) && attached_deposit == 1 && crate::nft_core::spec_transfer_outcome(
                    old(self).nft(),
                    predecessor_account_id@,
                    receiver_id@,
                    token_id,
                    Some(approval_id),
                ) is Ok),
            },
            match r {
                Ok((payout, events, refund)) => {
                    &&& final(self).wf()
                    &&& match mint_args {
                        Some(args) => {
                            let id = old(self).title_at(args.token_type_title@);
                            let oldinfo = old(self).type_at(id);
                            let minted_id = crate::metadata::TokenId {
                                token_type_id: id,
                                edition: (oldinfo.tokens.len() + 1) as u64,
                            };
                            &&& final(self).nft().has_token(minted_id)
                            &&& final(self).nft().token_at(minted_id).owner_id
                                == args.receiver_id@
                            &&& final(self).has_type(id)
                            &&& final(self).type_at(id).tokens.len() == oldinfo.tokens.len() + 1
                            &&& crate::nft_type::spec_pool_supply(final(self).assets_at(id))
                                == crate::nft_type::spec_pool_supply(old(self).assets_at(id)) - 1
                            &&& events@.len() == 2
                            &&& crate::events::is_mint_event(
                                events@[0],
                                args.receiver_id@,
                                minted_id,
                            )
                            &&& crate::events::is_transfer_event(
                                events@[1],
                                args.receiver_id@,
                                receiver_id@,
                                token_id,
                            )
                            &&& match (balance, payout) {
                                (Some(b), Some(p)) => payout_view(p.payout@) == spec_full_payout(
                                    oldinfo.royalty,
                                    args.receiver_id@,
                                    b,
                                ),
                                (None, None) => true,
                                _ => false,
                            }
                        },
                        None => {
                            let oldtoken = old(self).nft().token_at(token_id);
                            &&& final(self).nft().token_map() == old(
                                self,
                            ).nft().token_map().insert(
                                token_id,
                                (crate::nft_core::TokenInfo {
                                    owner_id: receiver_id@,
                                    approvals: Seq::empty(),
                                    ..oldtoken
                                }),
                            )
                            &&& events@.len() == 2
                            &&& crate::events::is_transfer_event(
                                events@[0],
                                oldtoken.owner_id,
                                receiver_id@,
                                token_id,
                            )
                            &&& crate::events::is_transfer_event(
                                events@[1],
                                oldtoken.owner_id,
                                receiver_id@,
                                token_id,
                            )
                            &&& refund is None
                            &&& match (balance, payout) {
                                (Some(b), Some(p)) => payout_view(p.payout@) == spec_full_payout(
                                    old(self).type_at(token_id.token_type_id).royalty,
                                    oldtoken.owner_id,
                                    b,
                                ),
                                (None, None) => true,
                                _ => false,
                            }
                        },
                    }
                },
                Err(_) => *final(self) == *old(self),
            },
    {
        let ghost pre = *old(self);
        // settle which series pays royalties, and check the fan-out budget
        // before any state changes
        let royalty_type_id: u64 = match &mint_args {
            Some(args) => {
                let j = match self.find_title_index(&args.token_type_title) {
                    Some(j) => j,
                    None => {
                        return Err(Error::NotFound);
                    },
                };
                proof {
                    assert(pre.title_pairs()[j as int].0 == mint_args->0.token_type_title@);
                    assert(pre.has_title(mint_args->0.token_type_title@));
                    crate::assoc::lemma_idx_of_unique(pre.title_pairs(), j as int);
                }
                self.token_type_by_title[j].1
            },
            None => {
                match self.tokens().find_token_index(&token_id) {
                    Some(i) => {
                        proof {
                            assert(pre.nft().token_pairs()[i as int].0 == token_id);
                            assert(pre.nft().has_token(token_id));
                        }
                    },
                    None => {
                        return Err(Error::NotFound);
                    },
                }
                token_id.token_type_id
            },
        };
        let ti = match self.find_type_index(royalty_type_id) {
            Some(ti) => ti,
            None => {
                proof {
                    assert(false);
                }
                return Err(Error::NotFound);
            },
        };
        proof {
            crate::assoc::lemma_idx_of_unique(pre.type_pairs(), ti as int);
        }
        let royalty = match &self.token_type_by_id[ti].1 {
            crate::nft_type::VersionedTokenType::Current(t) => crate::nft_type::clone_royalty(
                &t.royalty,
            ),
            crate::nft_type::VersionedTokenType::V1(v1) => crate::nft_type::clone_royalty(
                &v1.royalty,
            ),
        };
        if let (Some(_), Some(m)) = (&balance, &max_len_payout) {
            if royalty.len() as u64 > *m as u64 {
                return Err(Error::TooManyRecipients);
            }
        }
        // perform the lazy mint or the guarded transfer
        let mut events: Vec<crate::events::EventLog> = Vec::new();
        let seller_id: AccountId;
        let refund: Option<crate::utils::Refund>;
        match &mint_args {
            Some(args) => {
                let minted = self.nft_mint_type(
                    args.token_type_title.clone(),
                    args.receiver_id.clone(),
                    None,
                    random_value,
                    predecessor_account_id,
                    attached_deposit,
                );
                match minted {
                    Ok((_token, event, mint_refund)) => {
                        events.push(event);
                        seller_id = args.receiver_id.clone();
                        refund = mint_refund;
                    },
                    Err(e) => {
                        return Err(e);
                    },
                }
            },
            None => {
                let previous_owner = match self.tokens().find_token_index(&token_id) {
                    Some(i) => {
                        proof {
                            crate::assoc::lemma_idx_of_unique(pre.nft().token_pairs(), i as int);
                            assert(pre.nft().tokens@[i as int]@ == pre.nft().token_at(token_id));
                        }
                        self.tokens().tokens[i].owner_id.clone()
                    },
                    None => {
                        proof {
                            assert(false);
                        }
                        return Err(Error::NotFound);
                    },
                };
                let moved = self.nft_transfer(
                    receiver_id.clone(),
                    token_id,
                    Some(approval_id),
                    memo,
                    predecessor_account_id,
                    attached_deposit,
                );
                match moved {
                    Ok(event) => {
                        events.push(event);
                        seller_id = previous_owner;
                        refund = None;
                    },
                    Err(e) => {
                        return Err(e);
                    },
                }
            },
        }
        // the explicit transfer record every sale emits
        let mut token_ids: Vec<crate::metadata::TokenId> = Vec::new();
        token_ids.push(token_id);
        events.push(
            crate::events::EventLog::NftTransfer(
                crate::events::TransferData {
                    old_owner_id: seller_id.clone(),
                    new_owner_id: receiver_id,
                    token_ids,
                },
            ),
        );
        // the payout, by the same computation as the view method
        let payout: Option<Payout> = match balance {
            Some(b) => Some(compute_full_payout(&royalty, &seller_id, b)),
            None => None,
        };
        Ok((payout, events, refund))
    }
}

/// Whether the royalty fan-out exceeds the caller's stated budget: only
/// checked when a balance asks for a payout and a budget is given.
pub open spec fn spec_payout_budget_exceeded(
    royalty: Seq<(Seq<char>, u32)>,
    balance: Option<u128>,
    max_len_payout: Option<u32>,
) -> bool {
    balance is Some && max_len_payout is Some && royalty.len() > max_len_payout->0
}

/// Assembles the full payout of a sale: the non-owner rows, and the
/// owner's remainder share when strictly positive.
pub fn compute_full_payout(
    royalty: &Vec<(AccountId, u32)>,
    owner_id: &AccountId,
    balance: u128,
) -> (r: Payout)
    requires
        balance <= u128::MAX / (u32::MAX as u128),
    ensures
        payout_view(r.payout@) == spec_full_payout(
            crate::nft_type::royalty_view(royalty@),
            owner_id@,
            balance,
        ),
{
    let ghost all = crate::nft_type::royalty_view(royalty@);
    let (mut rows, total) = build_royalty_rows(royalty, owner_id, balance);
    if total < COMPLETE_ROYALTY_BASIS_POINTS as u128 {
        let owner_payout = royalty_to_payout(
            (COMPLETE_ROYALTY_BASIS_POINTS as u128 - total) as u32,
            balance,
        );
        if owner_payout > 0 {
            let ghost rows_snap = rows@;
            rows.push((owner_id.clone(), owner_payout));
            proof {
                assert(payout_view(rows@) =~= payout_view(rows_snap).push(
                    (owner_id@, owner_payout),
                ));
            }
        }
    }
    Payout { payout: rows }
}

} // verus!
