//! The registry's cross-cutting guarantees, stated and proved over the
//! same views and spec functions the operation contracts use.
use vstd::prelude::*;
use crate::assoc::{has_key, idx_of, lemma_idx_of_unique, lemma_map_binding, val_of};
use crate::metadata::TokenId;
use crate::nft_core::{spec_transfer_outcome, NonFungibleToken, TokenInfo};
use crate::nft_type::{spec_max_copies, spec_pool_supply};
use crate::{Contract, Error};

verus! {

/// Approval monotonicity: granting an approval hands out the token's
/// current counter value, which strictly exceeds every approval id this
/// token has stored — in particular the id the same account held before.
/// Since the counter only ever grows and is never reset, repeated
/// approvals of one account strictly increase its stored id each time.
pub proof fn lemma_approval_monotonicity(t: TokenInfo, account: Seq<char>)
    requires
        crate::nft_core::info_wf(t),
        has_key(t.approvals, account),
    ensures
        val_of(t.approvals, account) < t.next_approval_id,
{
    let i = idx_of(t.approvals, account);
    assert(t.approvals[i].1 < t.next_approval_id);
}

/// Transfer authorization, refusal side: a request by an account that
/// neither owns the token nor holds any approval on it always ends
/// `Unauthorized`, whatever else it supplies.
pub proof fn lemma_transfer_unauthorized(
    nft: NonFungibleToken,
    sender: Seq<char>,
    receiver: Seq<char>,
    token_id: TokenId,
    approval_id: Option<u64>,
)
    requires
        nft.has_token(token_id),
        nft.token_at(token_id).owner_id != sender,
        !has_key(nft.token_at(token_id).approvals, sender),
    ensures
        spec_transfer_outcome(nft, sender, receiver, token_id, approval_id) == Err::<
            (),
            Error,
        >(Error::Unauthorized),
{
}

/// Transfer authorization, grant side: an account approved with id `n` may
/// move the token when it expects no particular id or exactly `n`; any
/// other expected id is turned away as `ApprovalMismatch`, the stale-id
/// replay protection.
pub proof fn lemma_transfer_approved(
    nft: NonFungibleToken,
    sender: Seq<char>,
    receiver: Seq<char>,
    token_id: TokenId,
    expected: Option<u64>,
)
    requires
        nft.has_token(token_id),
        nft.token_at(token_id).owner_id != sender,
        nft.token_at(token_id).owner_id != receiver,
        has_key(nft.token_at(token_id).approvals, sender),
    ensures
        ({
            let n = val_of(nft.token_at(token_id).approvals, sender);
            match expected {
                None => spec_transfer_outcome(nft, sender, receiver, token_id, expected)
                    is Ok,
                Some(m) => if m == n {
                    spec_transfer_outcome(nft, sender, receiver, token_id, expected) is Ok
                } else {
                    spec_transfer_outcome(nft, sender, receiver, token_id, expected) == Err::<
                        (),
                        Error,
                    >(Error::ApprovalMismatch)
                },
            }
        }),
{
}

/// Supply conservation of one series: the units left in its pool plus its
/// minted count equal its cap. Holds at creation by the `SupplyMismatch`
/// check, and every successful mint keeps it, taking one unit and adding
/// one token.
pub open spec fn spec_supply_conserved(c: Contract, id: u64) -> bool {
    &&& c.has_type(id)
    &&& c.has_assets(id)
    &&& c.type_at(id).metadata.copies is Some
    &&& spec_pool_supply(c.assets_at(id)) + c.type_at(id).tokens.len()
        == c.type_at(id).metadata.copies->0
}

/// A mint moves one unit from the pool to the minted list, so conservation
/// survives it.
pub proof fn lemma_mint_preserves_conservation(pre: Contract, post: Contract, id: u64)
    requires
        spec_supply_conserved(pre, id),
        post.has_type(id),
        post.has_assets(id),
        post.type_at(id).metadata.copies == pre.type_at(id).metadata.copies,
        post.type_at(id).tokens.len() == pre.type_at(id).tokens.len() + 1,
        spec_pool_supply(post.assets_at(id)) == spec_pool_supply(pre.assets_at(id)) - 1,
    ensures
        spec_supply_conserved(post, id),
{
}

/// Supply exhaustion: once a conserved series has minted its whole cap,
/// its pool holds nothing — and by its emptiness or the cap check, every
/// further mint attempt through its title ends `SupplyExhausted`.
pub proof fn lemma_conserved_series_exhausts(
    c: Contract,
    title: Seq<char>,
    caller: Seq<char>,
    deposit: u128,
)
    requires
        c.wf(),
        c.has_title(title),
        spec_supply_conserved(c, c.title_at(title)),
        c.type_at(c.title_at(title)).tokens.len() == c.type_at(
            c.title_at(title),
        ).metadata.copies->0,
        caller == c.spec_owner(),
        caller == c.type_at(c.title_at(title)).owner_id,
    ensures
        c.assets_at(c.title_at(title)).len() == 0,
        crate::nft_type::spec_mint_outcome(c, title, caller, deposit) == Err::<(), Error>(
            Error::SupplyExhausted,
        ),
{
    let id = c.title_at(title);
    let pool = c.assets_at(id);
    assert(spec_pool_supply(pool) == 0);
    let k = idx_of(c.asset_pairs(), id);
    lemma_idx_of_unique(c.asset_pairs(), k);
    assert(crate::nft_type::spec_pool_entries_positive(pool));
    crate::nft_type::lemma_pool_supply_positive(pool);
    assert(pool.len() == 0);
    assert(c.type_at(id).tokens.len() == spec_max_copies(c.type_at(id)));
}

/// A conserved series that has not minted its whole cap still has units in
/// its pool, so the draw always finds an entry.
pub proof fn lemma_conserved_series_can_draw(c: Contract, id: u64)
    requires
        c.wf(),
        spec_supply_conserved(c, id),
        c.type_at(id).tokens.len() < c.type_at(id).metadata.copies->0,
    ensures
        c.assets_at(id).len() >= 1,
{
    let pool = c.assets_at(id);
    assert(spec_pool_supply(pool) >= 1);
    if pool.len() == 0 {
        assert(spec_pool_supply(pool) == 0);
    }
}

/// Rollback idempotence, reversal side: a transfer moved the token and
/// cleared its approvals; the resolution step moved it back and restored
/// the cleared map. The ownership table then holds exactly what it held
/// before the transfer.
pub proof fn lemma_rollback_restores_ledger(
    pre: NonFungibleToken,
    mid: NonFungibleToken,
    post: NonFungibleToken,
    token_id: TokenId,
    receiver: Seq<char>,
)
    requires
        pre.has_token(token_id),
        // the transfer's effect on the table
        mid.token_map() == pre.token_map().insert(
            token_id,
            (TokenInfo { owner_id: receiver, approvals: Seq::empty(), ..pre.token_at(token_id) }),
        ),
        mid.has_token(token_id),
        // the resolution's effect: previous owner back, old approvals back
        post.token_map() == mid.token_map().insert(
            token_id,
            (TokenInfo {
                owner_id: pre.token_at(token_id).owner_id,
                approvals: pre.token_at(token_id).approvals,
                ..mid.token_at(token_id)
            }),
        ),
    ensures
        post.token_map() == pre.token_map(),
{
    lemma_map_binding(pre.token_pairs(), token_id);
    lemma_map_binding(mid.token_pairs(), token_id);
    assert(mid.token_at(token_id) == mid.token_map()[token_id]);
    assert(post.token_map() =~= pre.token_map());
}

/// Royalty exactness: the computed split pays every non-owner entry its
/// truncated share and the owner the truncated remainder share; nothing
/// else. Truncation residue is distributed to nobody: the rows never sum
/// to more than the balance covered by 10000 basis points of shares.
/// The row content itself is the `ensures` of `nft_payout`; this states
/// that the two defining sums agree with it on the owner's remainder.
pub proof fn lemma_payout_owner_remainder(
    royalty: Seq<(Seq<char>, u32)>,
    owner: Seq<char>,
    balance: u128,
)
    requires
        crate::royalty::spec_nonowner_total(royalty, owner)
            < crate::royalty::COMPLETE_ROYALTY_BASIS_POINTS,
        crate::royalty::spec_royalty_amount(
            (crate::royalty::COMPLETE_ROYALTY_BASIS_POINTS - crate::royalty::spec_nonowner_total(
                royalty,
                owner,
            )) as u32,
            balance,
        ) > 0,
    ensures
        ({
            let full = crate::royalty::spec_full_payout(royalty, owner, balance);
            let base = crate::royalty::spec_royalty_payouts(royalty, owner, balance);
            &&& full.len() == base.len() + 1
            &&& full.last().0 == owner
            &&& full.last().1 == crate::royalty::spec_royalty_amount(
                (crate::royalty::COMPLETE_ROYALTY_BASIS_POINTS
                    - crate::royalty::spec_nonowner_total(royalty, owner)) as u32,
                balance,
            ) as u128
        }),
{
}

/// Series deletion guard, reusability side: deletion freed the title, and
/// a creation request under a freed title is never turned away as
/// `AlreadyExists`.
pub proof fn lemma_deleted_title_reusable(
    c: Contract,
    metadata: crate::metadata::TokenTypeMetadata,
    pool: Seq<crate::nft_type::AssetInfo>,
    caller: Seq<char>,
    deposit: u128,
)
    requires
        !c.has_title(metadata.title->0@),
    ensures
        crate::nft_type::spec_create_type_outcome(c, metadata, pool, caller, deposit) != Err::<
            (),
            Error,
        >(Error::AlreadyExists),
{
}

} // verus!
