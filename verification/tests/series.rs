//! Series lifecycle: creation, supply validation, capping, updating and
//! deletion.
use nft_series::metadata::NFTContractMetadata;
use nft_series::nft_type::{AssetDetail, TypeMintArgs};
use nft_series::utils::STORAGE_PRICE_PER_BYTE;
use nft_series::{Contract, Error};

fn contract_metadata() -> NFTContractMetadata {
    NFTContractMetadata {
        spec: "nft-1.0.0".to_string(),
        name: "Test Registry".to_string(),
        symbol: "TEST".to_string(),
        icon: None,
        base_uri: None,
        reference: None,
        reference_hash: None,
    }
}

fn new_contract() -> Contract {
    Contract::new("owner.near".to_string(), contract_metadata(), "abc123".to_string())
}

fn series_metadata(title: &str, copies: u64) -> nft_series::metadata::TokenTypeMetadata {
    nft_series::metadata::TokenTypeMetadata {
        title: Some(title.to_string()),
        description: Some("a test series".to_string()),
        media: Some("bafybeigdyrcid".to_string()),
        copies: Some(copies),
    }
}

fn asset(filename: &str, supply: u64, extra: &str) -> AssetDetail {
    AssetDetail {
        filename: filename.to_string(),
        supply_remaining: supply,
        extra_filename: extra.to_string(),
    }
}

fn owner() -> String {
    "owner.near".to_string()
}

fn create_deposit(n_assets: u64) -> u128 {
    (256 + n_assets as u128 * 128) * STORAGE_PRICE_PER_BYTE
}

fn mint_deposit(c: &Contract) -> u128 {
    c.tokens().extra_storage_in_bytes_per_token as u128 * STORAGE_PRICE_PER_BYTE
}

#[test]
fn create_type_records_series() {
    let mut c = new_contract();
    let r = c.nft_create_type(
        series_metadata("Alpha", 10),
        vec![("artist.near".to_string(), 500u32)],
        vec![asset("1.jpg", 10, "1.json")],
        "1.jpg".to_string(),
        &owner(),
        create_deposit(1),
    );
    assert!(r.is_ok());
    let json = c.nft_get_type("Alpha".to_string()).unwrap();
    assert_eq!(json.metadata.title, Some("Alpha".to_string()));
    assert_eq!(json.metadata.copies, Some(10));
    assert_eq!(json.owner_id, "owner.near".to_string());
    assert_eq!(json.royalty, vec![("artist.near".to_string(), 500u32)]);
    assert_eq!(c.nft_supply_for_type("Alpha".to_string()).unwrap(), 0);
}

#[test]
fn create_type_requires_registry_owner() {
    let mut c = new_contract();
    let r = c.nft_create_type(
        series_metadata("Alpha", 10),
        vec![],
        vec![asset("1.jpg", 10, "")],
        "1.jpg".to_string(),
        &"mallory.near".to_string(),
        create_deposit(1),
    );
    let e = r.unwrap_err();
    assert_eq!(e, Error::Unauthorized);
    assert_eq!(e.kind(), "Unauthorized");
}

#[test]
fn create_type_rejects_duplicate_title() {
    let mut c = new_contract();
    c.nft_create_type(
        series_metadata("Alpha", 10),
        vec![],
        vec![asset("1.jpg", 10, "")],
        "1.jpg".to_string(),
        &owner(),
        create_deposit(1),
    )
    .unwrap();
    let r = c.nft_create_type(
        series_metadata("Alpha", 5),
        vec![],
        vec![asset("2.jpg", 5, "")],
        "2.jpg".to_string(),
        &owner(),
        create_deposit(1),
    );
    assert_eq!(r.unwrap_err(), Error::AlreadyExists);
}

#[test]
fn create_type_rejects_supply_mismatch() {
    let mut c = new_contract();
    // entries sum to 9, cap says 10
    let r = c.nft_create_type(
        series_metadata("Alpha", 10),
        vec![],
        vec![asset("1.jpg", 4, ""), asset("2.jpg", 5, "")],
        "1.jpg".to_string(),
        &owner(),
        create_deposit(2),
    );
    assert_eq!(r.unwrap_err(), Error::SupplyMismatch);
    // empty pool
    let r2 = c.nft_create_type(
        series_metadata("Beta", 1),
        vec![],
        vec![],
        "1.jpg".to_string(),
        &owner(),
        create_deposit(0),
    );
    assert_eq!(r2.unwrap_err(), Error::SupplyMismatch);
    // a zero-supply entry
    let r3 = c.nft_create_type(
        series_metadata("Gamma", 5),
        vec![],
        vec![asset("1.jpg", 5, ""), asset("2.jpg", 0, "")],
        "1.jpg".to_string(),
        &owner(),
        create_deposit(2),
    );
    assert_eq!(r3.unwrap_err(), Error::SupplyMismatch);
}

#[test]
fn create_type_rejects_small_deposit() {
    let mut c = new_contract();
    let r = c.nft_create_type(
        series_metadata("Alpha", 10),
        vec![],
        vec![asset("1.jpg", 10, "")],
        "1.jpg".to_string(),
        &owner(),
        create_deposit(1) - 1,
    );
    assert_eq!(r.unwrap_err(), Error::InsufficientDeposit);
}

#[test]
fn delete_empty_series_frees_title() {
    let mut c = new_contract();
    c.nft_create_type(
        series_metadata("Alpha", 10),
        vec![],
        vec![asset("1.jpg", 10, "")],
        "1.jpg".to_string(),
        &owner(),
        create_deposit(1),
    )
    .unwrap();
    c.nft_delete_type("Alpha".to_string(), &owner(), 0).unwrap();
    assert!(c.nft_get_type("Alpha".to_string()).is_err());
    // the freed title can name a new series
    let r = c.nft_create_type(
        series_metadata("Alpha", 3),
        vec![],
        vec![asset("2.jpg", 3, "")],
        "2.jpg".to_string(),
        &owner(),
        create_deposit(1),
    );
    assert!(r.is_ok());
    assert_eq!(c.nft_get_type("Alpha".to_string()).unwrap().metadata.copies, Some(3));
}

#[test]
fn delete_minted_series_fails_not_empty() {
    let mut c = new_contract();
    c.nft_create_type(
        series_metadata("Alpha", 10),
        vec![],
        vec![asset("1.jpg", 10, "")],
        "1.jpg".to_string(),
        &owner(),
        create_deposit(1),
    )
    .unwrap();
    let d = mint_deposit(&c);
    c.nft_mint_type("Alpha".to_string(), "alice.near".to_string(), None, 0, &owner(), d).unwrap();
    let r = c.nft_delete_type("Alpha".to_string(), &owner(), 0);
    let e = r.unwrap_err();
    assert_eq!(e, Error::NotEmpty);
    assert_eq!(e.kind(), "NotEmpty");
}

#[test]
fn cap_copies_freezes_supply() {
    let mut c = new_contract();
    c.nft_create_type(
        series_metadata("Alpha", 10),
        vec![],
        vec![asset("1.jpg", 10, "")],
        "1.jpg".to_string(),
        &owner(),
        create_deposit(1),
    )
    .unwrap();
    let d = mint_deposit(&c);
    c.nft_mint_type("Alpha".to_string(), "alice.near".to_string(), None, 0, &owner(), d).unwrap();
    c.nft_mint_type("Alpha".to_string(), "bob.near".to_string(), None, 0, &owner(), d).unwrap();
    c.nft_cap_copies("Alpha".to_string(), &owner()).unwrap();
    assert_eq!(c.nft_get_type("Alpha".to_string()).unwrap().metadata.copies, Some(2));
    let r = c.nft_mint_type("Alpha".to_string(), "carol.near".to_string(), None, 0, &owner(), d);
    assert_eq!(r.unwrap_err(), Error::SupplyExhausted);
}

#[test]
fn update_type_patches_description_and_royalty() {
    let mut c = new_contract();
    c.nft_create_type(
        series_metadata("Alpha", 10),
        vec![("artist.near".to_string(), 500u32)],
        vec![asset("1.jpg", 10, "")],
        "1.jpg".to_string(),
        &owner(),
        create_deposit(1),
    )
    .unwrap();
    let patch = nft_series::metadata::TokenMetadata {
        title: None,
        description: Some("updated".to_string()),
        media: None,
        copies: None,
        extra: None,
    };
    c.nft_update_type(
        "Alpha".to_string(),
        Some(patch),
        Some(vec![("gallery.near".to_string(), 1000u32)]),
        &owner(),
        0,
    )
    .unwrap();
    let json = c.nft_get_type("Alpha".to_string()).unwrap();
    assert_eq!(json.metadata.description, Some("updated".to_string()));
    assert_eq!(json.royalty, vec![("gallery.near".to_string(), 1000u32)]);
    // copies cannot change through this path
    assert_eq!(json.metadata.copies, Some(10));
}

#[test]
fn update_type_retitles_series() {
    let mut c = new_contract();
    c.nft_create_type(
        series_metadata("Alpha", 10),
        vec![],
        vec![asset("1.jpg", 10, "")],
        "1.jpg".to_string(),
        &owner(),
        create_deposit(1),
    )
    .unwrap();
    let patch = nft_series::metadata::TokenMetadata {
        title: Some("Beta".to_string()),
        description: None,
        media: None,
        copies: None,
        extra: None,
    };
    c.nft_update_type("Alpha".to_string(), Some(patch), None, &owner(), 0).unwrap();
    assert!(c.nft_get_type("Alpha".to_string()).is_err());
    assert_eq!(
        c.nft_get_type("Beta".to_string()).unwrap().metadata.title,
        Some("Beta".to_string())
    );
}

#[test]
fn update_type_rejects_taken_title() {
    let mut c = new_contract();
    for title in ["Alpha", "Beta"] {
        c.nft_create_type(
            series_metadata(title, 10),
            vec![],
            vec![asset("1.jpg", 10, "")],
            "1.jpg".to_string(),
            &owner(),
            create_deposit(1),
        )
        .unwrap();
    }
    let patch = nft_series::metadata::TokenMetadata {
        title: Some("Beta".to_string()),
        description: None,
        media: None,
        copies: None,
        extra: None,
    };
    let r = c.nft_update_type("Alpha".to_string(), Some(patch), None, &owner(), 0);
    assert_eq!(r.unwrap_err(), Error::AlreadyExists);
}

#[test]
fn batch_mint_numbers_editions_in_order() {
    let mut c = new_contract();
    c.nft_create_type(
        series_metadata("Alpha", 10),
        vec![],
        vec![asset("1.jpg", 10, "")],
        "1.jpg".to_string(),
        &owner(),
        create_deposit(1),
    )
    .unwrap();
    let d = mint_deposit(&c);
    let receivers = vec![
        "alice.near".to_string(),
        "bob.near".to_string(),
        "carol.near".to_string(),
    ];
    let (tokens, events, _refund) = c
        .nft_batch_mint_type("Alpha".to_string(), receivers, 0, &owner(), 3 * d)
        .unwrap();
    assert_eq!(tokens.len(), 3);
    assert_eq!(events.len(), 3);
    for (k, token) in tokens.iter().enumerate() {
        assert_eq!(token.token_id.token_type_id, 1);
        assert_eq!(token.token_id.edition, k as u64 + 1);
    }
    assert_eq!(tokens[0].owner_id, "alice.near".to_string());
    assert_eq!(tokens[2].owner_id, "carol.near".to_string());
    assert_eq!(c.nft_supply_for_type("Alpha".to_string()).unwrap(), 3);
}

#[test]
fn batch_mint_rejects_multi_asset_series() {
    let mut c = new_contract();
    c.nft_create_type(
        series_metadata("Alpha", 10),
        vec![],
        vec![asset("1.jpg", 4, ""), asset("2.jpg", 6, "")],
        "1.jpg".to_string(),
        &owner(),
        create_deposit(2),
    )
    .unwrap();
    let d = mint_deposit(&c);
    let r = c.nft_batch_mint_type(
        "Alpha".to_string(),
        vec!["alice.near".to_string()],
        0,
        &owner(),
        d,
    );
    assert!(r.is_err());
}

#[test]
fn patch_media_repoints_series_and_tokens() {
    let mut c = new_contract();
    c.nft_create_type(
        series_metadata("Alpha", 10),
        vec![],
        vec![asset("old.jpg", 10, "")],
        "old.jpg".to_string(),
        &owner(),
        create_deposit(1),
    )
    .unwrap();
    let d = mint_deposit(&c);
    c.nft_mint_type("Alpha".to_string(), "alice.near".to_string(), None, 0, &owner(), d).unwrap();
    c.patch_media_and_assets_for_token_type(
        "Alpha".to_string(),
        "newdircid".to_string(),
        vec![asset("new.jpg", 0, "")],
        &owner(),
        0,
    )
    .unwrap();
    let token = c
        .nft_token(nft_series::metadata::TokenId { token_type_id: 1, edition: 1 })
        .unwrap();
    let md = token.metadata.unwrap();
    assert_eq!(md.media, Some("newdircid/new.jpg".to_string()));
    // the lazy-mint arguments struct stays constructible for markets
    let args = TypeMintArgs {
        token_type_title: "Alpha".to_string(),
        receiver_id: "alice.near".to_string(),
    };
    assert_eq!(args.token_type_title, "Alpha".to_string());
}
