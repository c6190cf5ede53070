//! Royalty payout computation: exact splits, truncation, and the
//! transfer-with-payout flow.
use nft_series::metadata::{NFTContractMetadata, TokenId, TokenTypeMetadata};
use nft_series::nft_type::{AssetDetail, TypeMintArgs};
use nft_series::utils::STORAGE_PRICE_PER_BYTE;
use nft_series::{Contract, Error};

fn new_contract() -> Contract {
    Contract::new(
        "owner.near".to_string(),
        NFTContractMetadata {
            spec: "nft-1.0.0".to_string(),
            name: "Test Registry".to_string(),
            symbol: "TEST".to_string(),
            icon: None,
            base_uri: None,
            reference: None,
            reference_hash: None,
        },
        "abc123".to_string(),
    )
}

fn owner() -> String {
    "owner.near".to_string()
}

fn create_series(c: &mut Contract, title: &str, royalty: Vec<(String, u32)>) {
    c.nft_create_type(
        TokenTypeMetadata {
            title: Some(title.to_string()),
            description: None,
            media: Some("basecid".to_string()),
            copies: Some(10),
        },
        royalty,
        vec![AssetDetail {
            filename: "1.jpg".to_string(),
            supply_remaining: 10,
            extra_filename: "".to_string(),
        }],
        "1.jpg".to_string(),
        &owner(),
        (256 + 128) * STORAGE_PRICE_PER_BYTE,
    )
    .unwrap();
}

fn mint_deposit(c: &Contract) -> u128 {
    c.tokens().extra_storage_in_bytes_per_token as u128 * STORAGE_PRICE_PER_BYTE
}

fn payout_of(p: &nft_series::royalty::Payout, account: &str) -> Option<u128> {
    p.payout.iter().find(|(a, _)| a == account).map(|(_, v)| *v)
}

#[test]
fn payout_splits_exactly() {
    let mut c = new_contract();
    create_series(
        &mut c,
        "Alpha",
        vec![("a.near".to_string(), 500u32), ("b.near".to_string(), 1000u32)],
    );
    let d = mint_deposit(&c);
    c.nft_mint_type("Alpha".to_string(), "o.near".to_string(), None, 0, &owner(), d).unwrap();
    let p = c
        .nft_payout(TokenId { token_type_id: 1, edition: 1 }, 10_000, 10)
        .unwrap();
    // floor(bp * balance / 10000): 500 bp of 10000 is 500, 1000 bp is
    // 1000, and the owner takes the remaining 8500 bp
    assert_eq!(payout_of(&p, "a.near"), Some(500));
    assert_eq!(payout_of(&p, "b.near"), Some(1000));
    assert_eq!(payout_of(&p, "o.near"), Some(8500));
    assert_eq!(p.payout.len(), 3);
    let total: u128 = p.payout.iter().map(|(_, v)| *v).sum();
    assert_eq!(total, 10_000);
}

#[test]
fn payout_truncation_residue_goes_to_nobody() {
    let mut c = new_contract();
    create_series(&mut c, "Alpha", vec![("a.near".to_string(), 3333u32)]);
    let d = mint_deposit(&c);
    c.nft_mint_type("Alpha".to_string(), "o.near".to_string(), None, 0, &owner(), d).unwrap();
    let p = c
        .nft_payout(TokenId { token_type_id: 1, edition: 1 }, 3, 10)
        .unwrap();
    // floor(3333 * 3 / 10000) = 0 for the entry, floor(6667 * 3 / 10000) = 2
    // for the owner: 2 of the 3 units are distributed, 1 is lost to rounding
    assert_eq!(payout_of(&p, "a.near"), Some(0));
    assert_eq!(payout_of(&p, "o.near"), Some(2));
    let total: u128 = p.payout.iter().map(|(_, v)| *v).sum();
    assert_eq!(total, 2);
    assert!(total < 3);
}

#[test]
fn payout_skips_owner_royalty_row() {
    let mut c = new_contract();
    // the owner also sits in the royalty table; its row is folded into the
    // remainder share instead of being paid twice
    create_series(
        &mut c,
        "Alpha",
        vec![("o.near".to_string(), 2000u32), ("a.near".to_string(), 1000u32)],
    );
    let d = mint_deposit(&c);
    c.nft_mint_type("Alpha".to_string(), "o.near".to_string(), None, 0, &owner(), d).unwrap();
    let p = c
        .nft_payout(TokenId { token_type_id: 1, edition: 1 }, 10_000, 10)
        .unwrap();
    assert_eq!(payout_of(&p, "a.near"), Some(1000));
    // only a.near's 1000 bp count as paid out; the owner takes 9000 bp
    assert_eq!(payout_of(&p, "o.near"), Some(9000));
    assert_eq!(p.payout.len(), 2);
}

#[test]
fn payout_owner_row_absent_when_zero() {
    let mut c = new_contract();
    create_series(&mut c, "Alpha", vec![("a.near".to_string(), 10_000u32)]);
    let d = mint_deposit(&c);
    c.nft_mint_type("Alpha".to_string(), "o.near".to_string(), None, 0, &owner(), d).unwrap();
    let p = c
        .nft_payout(TokenId { token_type_id: 1, edition: 1 }, 10_000, 10)
        .unwrap();
    assert_eq!(payout_of(&p, "a.near"), Some(10_000));
    assert_eq!(payout_of(&p, "o.near"), None);
}

#[test]
fn payout_rejects_too_many_recipients() {
    let mut c = new_contract();
    create_series(
        &mut c,
        "Alpha",
        vec![("a.near".to_string(), 100u32), ("b.near".to_string(), 100u32)],
    );
    let d = mint_deposit(&c);
    c.nft_mint_type("Alpha".to_string(), "o.near".to_string(), None, 0, &owner(), d).unwrap();
    let r = c.nft_payout(TokenId { token_type_id: 1, edition: 1 }, 10_000, 1);
    assert_eq!(r.unwrap_err(), Error::TooManyRecipients);
}

#[test]
fn payout_of_unknown_token_fails_not_found() {
    let c = new_contract();
    let r = c.nft_payout(TokenId { token_type_id: 1, edition: 1 }, 10_000, 10);
    assert_eq!(r.unwrap_err(), Error::NotFound);
}

#[test]
fn transfer_payout_moves_token_and_splits() {
    let mut c = new_contract();
    create_series(&mut c, "Alpha", vec![("a.near".to_string(), 500u32)]);
    let d = mint_deposit(&c);
    c.nft_mint_type("Alpha".to_string(), "seller.near".to_string(), None, 0, &owner(), d)
        .unwrap();
    let tid = TokenId { token_type_id: 1, edition: 1 };
    // the seller approves the market, which sells with the payout call
    c.nft_approve(
        tid,
        "market.near".to_string(),
        None,
        &"seller.near".to_string(),
        ("market.near".len() as u128 + 12) * STORAGE_PRICE_PER_BYTE,
    )
    .unwrap();
    let (payout, events, _refund) = c
        .nft_transfer_payout(
            "buyer.near".to_string(),
            tid,
            1,
            None,
            None,
            Some(10_000),
            Some(10),
            0,
            &"market.near".to_string(),
            1,
        )
        .unwrap();
    assert_eq!(c.nft_token(tid).unwrap().owner_id, "buyer.near".to_string());
    let p = payout.unwrap();
    assert_eq!(payout_of(&p, "a.near"), Some(500));
    assert_eq!(payout_of(&p, "seller.near"), Some(9500));
    assert_eq!(events.len(), 2);
}

#[test]
fn transfer_payout_lazy_mints() {
    let mut c = new_contract();
    create_series(&mut c, "Alpha", vec![("a.near".to_string(), 500u32)]);
    let d = mint_deposit(&c);
    let tid = TokenId { token_type_id: 1, edition: 1 };
    let (payout, events, _refund) = c
        .nft_transfer_payout(
            "buyer.near".to_string(),
            tid,
            0,
            None,
            Some(TypeMintArgs {
                token_type_title: "Alpha".to_string(),
                receiver_id: "buyer.near".to_string(),
            }),
            Some(10_000),
            Some(10),
            0,
            &owner(),
            d,
        )
        .unwrap();
    // the token did not exist: it was minted fresh to the buyer
    assert_eq!(c.nft_token(tid).unwrap().owner_id, "buyer.near".to_string());
    let p = payout.unwrap();
    assert_eq!(payout_of(&p, "a.near"), Some(500));
    assert_eq!(payout_of(&p, "buyer.near"), Some(9500));
    assert_eq!(events.len(), 2);
}

#[test]
fn transfer_payout_without_balance_gives_no_payout() {
    let mut c = new_contract();
    create_series(&mut c, "Alpha", vec![]);
    let d = mint_deposit(&c);
    c.nft_mint_type("Alpha".to_string(), "seller.near".to_string(), None, 0, &owner(), d)
        .unwrap();
    let tid = TokenId { token_type_id: 1, edition: 1 };
    let (payout, _events, _refund) = c
        .nft_transfer_payout(
            "buyer.near".to_string(),
            tid,
            0,
            None,
            None,
            None,
            None,
            0,
            &"seller.near".to_string(),
            1,
        )
        .unwrap();
    assert!(payout.is_none());
}

#[test]
fn royalty_to_payout_floors() {
    assert_eq!(nft_series::royalty::royalty_to_payout(500, 10_000), 500);
    assert_eq!(nft_series::royalty::royalty_to_payout(3333, 3), 0);
    assert_eq!(nft_series::royalty::royalty_to_payout(6667, 3), 2);
    assert_eq!(nft_series::royalty::royalty_to_payout(0, 12345), 0);
    assert_eq!(nft_series::royalty::royalty_to_payout(10_000, 7), 7);
}
