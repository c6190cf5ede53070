//! Ownership, approvals and the two-phase transfer with rollback.
use nft_series::metadata::{NFTContractMetadata, TokenId, TokenTypeMetadata};
use nft_series::nft_core::{parse_json_bool, TransferCallOutcome};
use nft_series::nft_type::AssetDetail;
use nft_series::utils::STORAGE_PRICE_PER_BYTE;
use nft_series::{Contract, Error};

fn new_contract() -> Contract {
    Contract::new(
        "owner.near".to_string(),
        NFTContractMetadata {
            spec: "nft-1.0.0".to_string(),
            name: "Test Registry".to_string(),
            symbol: "TEST".to_string(),
            icon: None,
            base_uri: None,
            reference: None,
            reference_hash: None,
        },
        "abc123".to_string(),
    )
}

fn owner() -> String {
    "owner.near".to_string()
}

/// A contract with one series "Alpha" (cap 10) and one token `1:1` minted
/// to alice.
fn contract_with_token() -> Contract {
    let mut c = new_contract();
    c.nft_create_type(
        TokenTypeMetadata {
            title: Some("Alpha".to_string()),
            description: None,
            media: Some("basecid".to_string()),
            copies: Some(10),
        },
        vec![],
        vec![AssetDetail {
            filename: "1.jpg".to_string(),
            supply_remaining: 10,
            extra_filename: "".to_string(),
        }],
        "1.jpg".to_string(),
        &owner(),
        (256 + 128) * STORAGE_PRICE_PER_BYTE,
    )
    .unwrap();
    let d = c.tokens().extra_storage_in_bytes_per_token as u128 * STORAGE_PRICE_PER_BYTE;
    c.nft_mint_type("Alpha".to_string(), "alice.near".to_string(), None, 0, &owner(), d).unwrap();
    c
}

fn tid() -> TokenId {
    TokenId { token_type_id: 1, edition: 1 }
}

fn approve_deposit(account: &str) -> u128 {
    (account.len() as u128 + 12) * STORAGE_PRICE_PER_BYTE
}

#[test]
fn owner_transfers_token() {
    let mut c = contract_with_token();
    let event = c
        .nft_transfer(
            "bob.near".to_string(),
            tid(),
            None,
            None,
            &"alice.near".to_string(),
            1,
        )
        .unwrap();
    let token = c.nft_token(tid()).unwrap();
    assert_eq!(token.owner_id, "bob.near".to_string());
    assert_eq!(token.approved_account_ids, Some(vec![]));
    match event {
        nft_series::events::EventLog::NftTransfer(d) => {
            assert_eq!(d.old_owner_id, "alice.near".to_string());
            assert_eq!(d.new_owner_id, "bob.near".to_string());
            assert_eq!(d.token_ids, vec![tid()]);
        },
        _ => panic!("expected a transfer event"),
    }
}

#[test]
fn transfer_requires_one_yocto() {
    let mut c = contract_with_token();
    let r = c.nft_transfer(
        "bob.near".to_string(),
        tid(),
        None,
        None,
        &"alice.near".to_string(),
        0,
    );
    assert_eq!(r.unwrap_err(), Error::InsufficientDeposit);
}

#[test]
fn transfer_by_stranger_fails_unauthorized() {
    let mut c = contract_with_token();
    let r = c.nft_transfer(
        "bob.near".to_string(),
        tid(),
        None,
        None,
        &"mallory.near".to_string(),
        1,
    );
    assert_eq!(r.unwrap_err(), Error::Unauthorized);
}

#[test]
fn transfer_to_self_fails_invalid() {
    let mut c = contract_with_token();
    let r = c.nft_transfer(
        "alice.near".to_string(),
        tid(),
        None,
        None,
        &"alice.near".to_string(),
        1,
    );
    assert_eq!(r.unwrap_err(), Error::InvalidTransfer);
}

#[test]
fn transfer_of_unknown_token_fails_not_found() {
    let mut c = contract_with_token();
    let r = c.nft_transfer(
        "bob.near".to_string(),
        TokenId { token_type_id: 1, edition: 99 },
        None,
        None,
        &"alice.near".to_string(),
        1,
    );
    assert_eq!(r.unwrap_err(), Error::NotFound);
}

#[test]
fn approved_account_transfers_with_matching_id() {
    let mut c = contract_with_token();
    let (_refund, _call) = c
        .nft_approve(
            tid(),
            "market.near".to_string(),
            None,
            &"alice.near".to_string(),
            approve_deposit("market.near"),
        )
        .unwrap();
    assert!(c.nft_is_approved(tid(), "market.near".to_string(), Some(1)));
    // the recorded id is 1: expecting it works
    c.nft_transfer(
        "bob.near".to_string(),
        tid(),
        Some(1),
        None,
        &"market.near".to_string(),
        1,
    )
    .unwrap();
    assert_eq!(c.nft_token(tid()).unwrap().owner_id, "bob.near".to_string());
}

#[test]
fn approved_account_transfers_without_expected_id() {
    let mut c = contract_with_token();
    c.nft_approve(
        tid(),
        "market.near".to_string(),
        None,
        &"alice.near".to_string(),
        approve_deposit("market.near"),
    )
    .unwrap();
    c.nft_transfer(
        "bob.near".to_string(),
        tid(),
        None,
        None,
        &"market.near".to_string(),
        1,
    )
    .unwrap();
    assert_eq!(c.nft_token(tid()).unwrap().owner_id, "bob.near".to_string());
}

#[test]
fn stale_approval_id_fails_mismatch() {
    let mut c = contract_with_token();
    c.nft_approve(
        tid(),
        "market.near".to_string(),
        None,
        &"alice.near".to_string(),
        approve_deposit("market.near"),
    )
    .unwrap();
    // re-approving the same account supersedes the first grant
    c.nft_approve(
        tid(),
        "market.near".to_string(),
        None,
        &"alice.near".to_string(),
        approve_deposit("market.near"),
    )
    .unwrap();
    let r = c.nft_transfer(
        "bob.near".to_string(),
        tid(),
        Some(1),
        None,
        &"market.near".to_string(),
        1,
    );
    assert_eq!(r.unwrap_err(), Error::ApprovalMismatch);
    // the superseding id works
    c.nft_transfer(
        "bob.near".to_string(),
        tid(),
        Some(2),
        None,
        &"market.near".to_string(),
        1,
    )
    .unwrap();
}

#[test]
fn repeated_approvals_strictly_increase_ids() {
    let mut c = contract_with_token();
    let d = approve_deposit("market.near");
    for expected in 1u64..=3 {
        c.nft_approve(
            tid(),
            "market.near".to_string(),
            None,
            &"alice.near".to_string(),
            d,
        )
        .unwrap();
        assert!(c.nft_is_approved(tid(), "market.near".to_string(), Some(expected)));
        if expected > 1 {
            assert!(!c.nft_is_approved(tid(), "market.near".to_string(), Some(expected - 1)));
        }
    }
}

#[test]
fn approval_survives_revoke_and_reapprove_cycle() {
    let mut c = contract_with_token();
    let d = approve_deposit("market.near");
    c.nft_approve(tid(), "market.near".to_string(), None, &"alice.near".to_string(), d).unwrap();
    c.nft_revoke(tid(), "market.near".to_string(), &"alice.near".to_string(), 1).unwrap();
    assert!(!c.nft_is_approved(tid(), "market.near".to_string(), None));
    c.nft_approve(tid(), "market.near".to_string(), None, &"alice.near".to_string(), d).unwrap();
    // the counter never reset: the fresh grant is id 2, the stale id 1 is dead
    assert!(c.nft_is_approved(tid(), "market.near".to_string(), Some(2)));
    assert!(!c.nft_is_approved(tid(), "market.near".to_string(), Some(1)));
}

#[test]
fn revoke_of_unapproved_account_is_a_noop() {
    let mut c = contract_with_token();
    let r = c.nft_revoke(tid(), "market.near".to_string(), &"alice.near".to_string(), 1).unwrap();
    assert!(r.is_none());
}

#[test]
fn revoke_all_clears_every_approval() {
    let mut c = contract_with_token();
    c.nft_approve(
        tid(),
        "market.near".to_string(),
        None,
        &"alice.near".to_string(),
        approve_deposit("market.near"),
    )
    .unwrap();
    c.nft_approve(
        tid(),
        "broker.near".to_string(),
        None,
        &"alice.near".to_string(),
        approve_deposit("broker.near"),
    )
    .unwrap();
    let refund = c.nft_revoke_all(tid(), &"alice.near".to_string(), 1).unwrap();
    assert!(refund.amount > 0);
    assert!(!c.nft_is_approved(tid(), "market.near".to_string(), None));
    assert!(!c.nft_is_approved(tid(), "broker.near".to_string(), None));
}

#[test]
fn is_approved_false_for_unknown_token() {
    let c = contract_with_token();
    assert!(!c.nft_is_approved(
        TokenId { token_type_id: 9, edition: 9 },
        "market.near".to_string(),
        None
    ));
}

#[test]
fn resolve_keep_finalizes_transfer() {
    let mut c = contract_with_token();
    let (receipt, _event) = c
        .nft_transfer_call(
            "bob.near".to_string(),
            tid(),
            None,
            None,
            "payload".to_string(),
            &"alice.near".to_string(),
            1,
        )
        .unwrap();
    // the receiver answers `false`: no return requested
    let nft = match &mut c.tokens {
        nft_series::nft_core::VersionedNonFungibleToken::Current(n) => n,
    };
    let (finalized, refund) = nft.nft_resolve_transfer(
        receipt.previous_owner_id,
        receipt.receiver_id,
        receipt.token_id,
        Some(receipt.approved_account_ids),
        TransferCallOutcome::Returned(b"false".to_vec()),
    );
    assert!(finalized);
    assert!(refund.is_none());
    assert_eq!(c.nft_token(tid()).unwrap().owner_id, "bob.near".to_string());
}

#[test]
fn resolve_revert_restores_owner_and_approvals() {
    let mut c = contract_with_token();
    // alice grants an approval before the call; it is cleared on transfer
    // and must come back exactly on rollback
    c.nft_approve(
        tid(),
        "market.near".to_string(),
        None,
        &"alice.near".to_string(),
        approve_deposit("market.near"),
    )
    .unwrap();
    let (receipt, _event) = c
        .nft_transfer_call(
            "bob.near".to_string(),
            tid(),
            None,
            None,
            "payload".to_string(),
            &"alice.near".to_string(),
            1,
        )
        .unwrap();
    assert_eq!(c.nft_token(tid()).unwrap().approved_account_ids, Some(vec![]));
    let nft = match &mut c.tokens {
        nft_series::nft_core::VersionedNonFungibleToken::Current(n) => n,
    };
    let (finalized, _refund) = nft.nft_resolve_transfer(
        receipt.previous_owner_id,
        receipt.receiver_id,
        receipt.token_id,
        Some(receipt.approved_account_ids),
        TransferCallOutcome::Returned(b"true".to_vec()),
    );
    assert!(!finalized);
    let token = c.nft_token(tid()).unwrap();
    assert_eq!(token.owner_id, "alice.near".to_string());
    assert_eq!(
        token.approved_account_ids,
        Some(vec![("market.near".to_string(), 1u64)])
    );
}

#[test]
fn resolve_revert_after_retransfer_is_noop() {
    let mut c = contract_with_token();
    let (receipt, _event) = c
        .nft_transfer_call(
            "bob.near".to_string(),
            tid(),
            None,
            None,
            "payload".to_string(),
            &"alice.near".to_string(),
            1,
        )
        .unwrap();
    // bob moves the token on before the resolution runs
    c.nft_transfer(
        "carol.near".to_string(),
        tid(),
        None,
        None,
        &"bob.near".to_string(),
        1,
    )
    .unwrap();
    let nft = match &mut c.tokens {
        nft_series::nft_core::VersionedNonFungibleToken::Current(n) => n,
    };
    let (finalized, refund) = nft.nft_resolve_transfer(
        receipt.previous_owner_id,
        receipt.receiver_id,
        receipt.token_id,
        Some(receipt.approved_account_ids),
        TransferCallOutcome::Returned(b"true".to_vec()),
    );
    // already final: the resolution reverses nothing
    assert!(finalized);
    assert!(refund.is_none());
    assert_eq!(c.nft_token(tid()).unwrap().owner_id, "carol.near".to_string());
}

#[test]
fn resolve_treats_failure_and_garbage_as_revert() {
    let mut c = contract_with_token();
    let (receipt, _event) = c
        .nft_transfer_call(
            "bob.near".to_string(),
            tid(),
            None,
            None,
            "payload".to_string(),
            &"alice.near".to_string(),
            1,
        )
        .unwrap();
    let nft = match &mut c.tokens {
        nft_series::nft_core::VersionedNonFungibleToken::Current(n) => n,
    };
    let (finalized, _refund) = nft.nft_resolve_transfer(
        receipt.previous_owner_id,
        receipt.receiver_id,
        receipt.token_id,
        Some(receipt.approved_account_ids),
        TransferCallOutcome::Returned(b"not a boolean".to_vec()),
    );
    assert!(!finalized);
    assert_eq!(c.nft_token(tid()).unwrap().owner_id, "alice.near".to_string());
}

#[test]
fn json_bool_reader_accepts_whitespace_only_around_literals() {
    assert_eq!(parse_json_bool(&b"true".to_vec()), Some(true));
    assert_eq!(parse_json_bool(&b"false".to_vec()), Some(false));
    assert_eq!(parse_json_bool(&b" \t\r\n true \n".to_vec()), Some(true));
    assert_eq!(parse_json_bool(&b"  false  ".to_vec()), Some(false));
    assert_eq!(parse_json_bool(&b"truex".to_vec()), None);
    assert_eq!(parse_json_bool(&b"True".to_vec()), None);
    assert_eq!(parse_json_bool(&b"".to_vec()), None);
    assert_eq!(parse_json_bool(&b"  ".to_vec()), None);
    assert_eq!(parse_json_bool(&b"tru".to_vec()), None);
}
