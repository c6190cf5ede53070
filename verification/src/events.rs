//! Structured event records. Every mint and every ownership reassignment
//! produces one; the host serializes and publishes them for external
//! indexers, so field names and nesting are part of the observable contract.
use vstd::prelude::*;
use crate::metadata::{AccountId, TokenId};

verus! {

/// Prefix under which the host publishes a serialized event record.
pub const EVENT_JSON: &'static str = "EVENT_JSON:";

/// The standard every event record names.
pub const EVENT_STANDARD: &'static str = "nep171";

/// The schema version every event record names.
pub const EVENT_VERSION: &'static str = "1.0.0";

/// Payload of one ownership reassignment.
#[derive(Debug, Clone, PartialEq, Eq)]
pub struct TransferData {
    pub old_owner_id: AccountId,
    pub new_owner_id: AccountId,
    pub token_ids: Vec<TokenId>,
}

/// Payload of one mint.
#[derive(Debug, Clone, PartialEq, Eq)]
pub struct MintData {
    pub owner_id: AccountId,
    pub token_ids: Vec<TokenId>,
}

/// A structured event record, tagged `{standard, version, event, data}` on
/// the wire.
#[derive(Debug, Clone, PartialEq, Eq)]
pub enum EventLog {
    NftMint(MintData),
    NftTransfer(TransferData),
}

/// What the transfer event produced by a reassignment of `token_id` from
/// `old_owner` to `new_owner` must hold.
pub open spec fn is_transfer_event(
    e: EventLog,
    old_owner: Seq<char>,
    new_owner: Seq<char>,
    token_id: TokenId,
) -> bool {
    e matches EventLog::NftTransfer(d) && {
        &&& d.old_owner_id@ == old_owner
        &&& d.new_owner_id@ == new_owner
        &&& d.token_ids@ == seq![token_id]
    }
}

/// What the mint event produced by minting `token_id` to `owner` must hold.
pub open spec fn is_mint_event(e: EventLog, owner: Seq<char>, token_id: TokenId) -> bool {
    e matches EventLog::NftMint(d) && {
        &&& d.owner_id@ == owner
        &&& d.token_ids@ == seq![token_id]
    }
}

} // verus!
