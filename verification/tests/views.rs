//! Read-time resolution of token views, enumeration, supply accounting and
//! the small host-value helpers.
use nft_series::contract_source::ContractSourceMetadataTrait;
use nft_series::metadata::{NFTContractMetadata, TokenId, TokenTypeMetadata};
use nft_series::nft_type::AssetDetail;
use nft_series::metadata::{versioned_token_to_token, Token, VersionedToken};
use nft_series::nft_type::{versioned_token_type_to_token_type, TokenTypeV1, VersionedTokenType};
use nft_series::utils::{as_u128, bytes_for_approved_account_id, random_u128, refund_deposit,
    STORAGE_PRICE_PER_BYTE};
use nft_series::{Contract, Error};

fn new_contract() -> Contract {
    Contract::new(
        "owner.near".to_string(),
        NFTContractMetadata {
            spec: "nft-1.0.0".to_string(),
            name: "Test Registry".to_string(),
            symbol: "TEST".to_string(),
            icon: None,
            base_uri: None,
            reference: None,
            reference_hash: None,
        },
        "abc123".to_string(),
    )
}

fn owner() -> String {
    "owner.near".to_string()
}

fn create_pool_series(c: &mut Contract, title: &str, copies: u64, pool: Vec<AssetDetail>) {
    let n = pool.len() as u128;
    c.nft_create_type(
        TokenTypeMetadata {
            title: Some(title.to_string()),
            description: Some("desc".to_string()),
            media: Some("basecid".to_string()),
            copies: Some(copies),
        },
        vec![],
        pool,
        "cover.jpg".to_string(),
        &owner(),
        (256 + n * 128) * STORAGE_PRICE_PER_BYTE,
    )
    .unwrap();
}

fn asset(filename: &str, supply: u64, extra: &str) -> AssetDetail {
    AssetDetail {
        filename: filename.to_string(),
        supply_remaining: supply,
        extra_filename: extra.to_string(),
    }
}

fn mint_deposit(c: &Contract) -> u128 {
    c.tokens().extra_storage_in_bytes_per_token as u128 * STORAGE_PRICE_PER_BYTE
}

#[test]
fn token_view_resolves_title_media_and_extra() {
    let mut c = new_contract();
    create_pool_series(&mut c, "Alpha", 10, vec![asset("cat.jpg", 10, "cat.json")]);
    let d = mint_deposit(&c);
    let (token, _event, _refund) = c
        .nft_mint_type("Alpha".to_string(), "alice.near".to_string(), None, 0, &owner(), d)
        .unwrap();
    assert_eq!(token.token_id, TokenId { token_type_id: 1, edition: 1 });
    let view = c.nft_token(token.token_id).unwrap();
    let md = view.metadata.unwrap();
    assert_eq!(md.title, Some("Alpha — 1/10".to_string()));
    assert_eq!(md.description, Some("desc".to_string()));
    assert_eq!(md.media, Some("basecid/cat.jpg".to_string()));
    assert_eq!(md.extra, Some("basecid/cat.json".to_string()));
    assert_eq!(md.copies, Some(10));
}

#[test]
fn token_view_omits_extra_when_asset_has_none() {
    let mut c = new_contract();
    create_pool_series(&mut c, "Alpha", 5, vec![asset("dog.jpg", 5, "")]);
    let d = mint_deposit(&c);
    c.nft_mint_type("Alpha".to_string(), "alice.near".to_string(), None, 0, &owner(), d).unwrap();
    let md = c
        .nft_token(TokenId { token_type_id: 1, edition: 1 })
        .unwrap()
        .metadata
        .unwrap();
    assert_eq!(md.media, Some("basecid/dog.jpg".to_string()));
    assert_eq!(md.extra, None);
}

#[test]
fn token_view_absent_for_unknown_token() {
    let c = new_contract();
    assert!(c.nft_token(TokenId { token_type_id: 1, edition: 1 }).is_none());
}

#[test]
fn draw_follows_seed_modulo_pool_length() {
    let mut c = new_contract();
    create_pool_series(
        &mut c,
        "Alpha",
        6,
        vec![asset("a.jpg", 2, ""), asset("b.jpg", 2, ""), asset("c.jpg", 2, "")],
    );
    let d = mint_deposit(&c);
    // seed 5 over a pool of 3 entries draws index 5 mod 3 = 2: "c.jpg"
    c.nft_mint_type("Alpha".to_string(), "alice.near".to_string(), None, 5, &owner(), d).unwrap();
    let md = c
        .nft_token(TokenId { token_type_id: 1, edition: 1 })
        .unwrap()
        .metadata
        .unwrap();
    assert_eq!(md.media, Some("basecid/c.jpg".to_string()));
}

#[test]
fn supply_conservation_until_exhaustion() {
    let mut c = new_contract();
    create_pool_series(&mut c, "Alpha", 3, vec![asset("a.jpg", 2, ""), asset("b.jpg", 1, "")]);
    let d = mint_deposit(&c);
    for k in 1u64..=3 {
        c.nft_mint_type("Alpha".to_string(), "alice.near".to_string(), None, 0, &owner(), d)
            .unwrap();
        assert_eq!(c.nft_supply_for_type("Alpha".to_string()).unwrap(), k);
    }
    // after `copies` mints the pool is empty and the next mint fails
    let r = c.nft_mint_type("Alpha".to_string(), "alice.near".to_string(), None, 0, &owner(), d);
    let e = r.unwrap_err();
    assert_eq!(e, Error::SupplyExhausted);
    assert_eq!(e.kind(), "SupplyExhausted");
}

#[test]
fn mint_requires_deposit_and_series_owner() {
    let mut c = new_contract();
    create_pool_series(&mut c, "Alpha", 3, vec![asset("a.jpg", 3, "")]);
    let d = mint_deposit(&c);
    let r = c.nft_mint_type(
        "Alpha".to_string(),
        "alice.near".to_string(),
        None,
        0,
        &"mallory.near".to_string(),
        d,
    );
    assert_eq!(r.unwrap_err(), Error::Unauthorized);
    let r2 = c.nft_mint_type("Alpha".to_string(), "alice.near".to_string(), None, 0, &owner(), d - 1);
    assert_eq!(r2.unwrap_err(), Error::InsufficientDeposit);
    let r3 = c.nft_mint_type("Beta".to_string(), "alice.near".to_string(), None, 0, &owner(), d);
    assert_eq!(r3.unwrap_err(), Error::NotFound);
}

#[test]
fn enumeration_counts_tokens_and_owners() {
    let mut c = new_contract();
    create_pool_series(&mut c, "Alpha", 5, vec![asset("a.jpg", 5, "")]);
    let d = mint_deposit(&c);
    c.nft_mint_type("Alpha".to_string(), "alice.near".to_string(), None, 0, &owner(), d).unwrap();
    c.nft_mint_type("Alpha".to_string(), "alice.near".to_string(), None, 0, &owner(), d).unwrap();
    c.nft_mint_type("Alpha".to_string(), "bob.near".to_string(), None, 0, &owner(), d).unwrap();
    assert_eq!(c.nft_total_supply(), 3);
    assert_eq!(c.nft_supply_for_owner("alice.near".to_string()), 2);
    assert_eq!(c.nft_supply_for_owner("bob.near".to_string()), 1);
    assert_eq!(c.nft_supply_for_owner("carol.near".to_string()), 0);
    assert_eq!(c.nft_token_ids(None, None).len(), 3);
    assert_eq!(c.nft_tokens(None, None).len(), 3);
    assert_eq!(c.nft_tokens(None, Some(2)).len(), 2);
    let alices = c.nft_tokens_for_owner("alice.near".to_string(), None, None);
    assert_eq!(alices.len(), 2);
    for t in &alices {
        assert_eq!(t.owner_id, "alice.near".to_string());
    }
    let by_type = c.nft_tokens_by_type("Alpha".to_string(), None, None).unwrap();
    assert_eq!(by_type.len(), 3);
    assert_eq!(c.nft_get_types(None, None).len(), 1);
}

#[test]
fn owner_index_follows_transfers() {
    let mut c = new_contract();
    create_pool_series(&mut c, "Alpha", 2, vec![asset("a.jpg", 2, "")]);
    let d = mint_deposit(&c);
    c.nft_mint_type("Alpha".to_string(), "alice.near".to_string(), None, 0, &owner(), d).unwrap();
    c.nft_transfer(
        "bob.near".to_string(),
        TokenId { token_type_id: 1, edition: 1 },
        None,
        None,
        &"alice.near".to_string(),
        1,
    )
    .unwrap();
    assert_eq!(c.nft_supply_for_owner("alice.near".to_string()), 0);
    assert_eq!(c.nft_supply_for_owner("bob.near".to_string()), 1);
}

#[test]
fn type_format_exposes_delimiters() {
    let c = new_contract();
    let (token_delim, title_delim, edition_delim) = c.nft_get_type_format();
    assert_eq!(token_delim, ':');
    assert_eq!(title_delim, " — ");
    assert_eq!(edition_delim, "/");
}

#[test]
fn token_id_renders_display_form() {
    let id = TokenId { token_type_id: 42, edition: 2 };
    assert_eq!(id.to_text(), "42:2".to_string());
    let id2 = TokenId { token_type_id: 1, edition: 10070 };
    assert_eq!(id2.to_text(), "1:10070".to_string());
    let id3 = TokenId { token_type_id: 0, edition: 0 };
    assert_eq!(id3.to_text(), "0:0".to_string());
    let id4 = TokenId { token_type_id: u64::MAX, edition: 1 };
    assert_eq!(id4.to_text(), "18446744073709551615:1".to_string());
}

#[test]
fn uncapped_series_title_stays_bare() {
    let mut c = new_contract();
    c.nft_create_type(
        TokenTypeMetadata {
            title: Some("Open".to_string()),
            description: None,
            media: Some("basecid".to_string()),
            copies: Some(2),
        },
        vec![],
        vec![asset("a.jpg", 2, "")],
        "a.jpg".to_string(),
        &owner(),
        (256 + 128) * STORAGE_PRICE_PER_BYTE,
    )
    .unwrap();
    let d = mint_deposit(&c);
    c.nft_mint_type("Open".to_string(), "alice.near".to_string(), None, 0, &owner(), d).unwrap();
    // lifting the cap afterwards leaves resolved titles without a fraction
    let mut record = match &c.token_type_by_id[0].1 {
        VersionedTokenType::Current(t) => t.clone(),
        VersionedTokenType::V1(_) => panic!("expected the current shape"),
    };
    record.metadata.copies = None;
    c.token_type_by_id[0].1 = VersionedTokenType::Current(record);
    let md = c
        .nft_token(TokenId { token_type_id: 1, edition: 1 })
        .unwrap()
        .metadata
        .unwrap();
    assert_eq!(md.title, Some("Open".to_string()));
    assert_eq!(md.copies, None);
}

#[test]
fn contract_metadata_round_trips() {
    let mut c = new_contract();
    let m = c.nft_metadata();
    assert_eq!(m.spec, "nft-1.0.0".to_string());
    assert_eq!(m.name, "Test Registry".to_string());
    c.patch_base_uri(Some("https://gateway.example".to_string()), &owner(), 0).unwrap();
    assert_eq!(c.nft_metadata().base_uri, Some("https://gateway.example".to_string()));
    // only the registry owner may patch
    let r = c.patch_base_uri(Some("https://bad.example".to_string()), &"mallory.near".to_string(), 0);
    assert_eq!(r.unwrap_err(), Error::Unauthorized);
}

#[test]
fn source_metadata_patches_by_field() {
    let mut c = new_contract();
    let s = c.contract_source_metadata();
    assert_eq!(s.version, Some("v2.1.0".to_string()));
    assert_eq!(s.commit_hash, Some("abc123".to_string()));
    c.patch_contract_source_metadata(
        nft_series::contract_source::ContractSourceMetadata {
            version: None,
            commit_hash: Some("def456".to_string()),
            link: None,
        },
        &owner(),
        0,
    )
    .unwrap();
    let s2 = c.contract_source_metadata();
    assert_eq!(s2.version, Some("v2.1.0".to_string()));
    assert_eq!(s2.commit_hash, Some("def456".to_string()));
}

#[test]
fn metadata_validity_is_checked() {
    let valid = NFTContractMetadata {
        spec: "nft-1.0.0".to_string(),
        name: "n".to_string(),
        symbol: "s".to_string(),
        icon: None,
        base_uri: None,
        reference: None,
        reference_hash: None,
    };
    assert!(valid.assert_valid());
    let wrong_spec = NFTContractMetadata { spec: "nft-2.0.0".to_string(), ..valid.duplicate() };
    assert!(!wrong_spec.assert_valid());
    let dangling_reference = NFTContractMetadata {
        reference: Some("https://example".to_string()),
        ..valid.duplicate()
    };
    assert!(!dangling_reference.assert_valid());
    let short_hash = NFTContractMetadata {
        reference: Some("https://example".to_string()),
        reference_hash: Some(vec![0u8; 16]),
        ..valid.duplicate()
    };
    assert!(!short_hash.assert_valid());
    let full = NFTContractMetadata {
        reference: Some("https://example".to_string()),
        reference_hash: Some(vec![0u8; 32]),
        ..valid.duplicate()
    };
    assert!(full.assert_valid());
}

#[test]
fn entropy_word_reads_first_four_bytes() {
    let seed = vec![1u8, 2, 3, 4, 0xff, 0xff, 0xff, 0xff, 0, 0, 0, 0, 0, 0, 0, 0];
    // little-endian over the first four bytes only
    assert_eq!(as_u128(&seed), 1 + 2 * 0x100 + 3 * 0x10000 + 4 * 0x1000000);
    assert_eq!(random_u128(&seed), as_u128(&seed));
    assert_eq!(as_u128(&[0u8, 0, 0, 0]), 0);
    assert_eq!(as_u128(&[0xffu8, 0xff, 0xff, 0xff]), 0xffff_ffff);
}

#[test]
fn refund_helpers_settle_storage_bills() {
    assert_eq!(bytes_for_approved_account_id(&"alice.near".to_string()), 10 + 12);
    let payer = "payer.near".to_string();
    // covering bill with a big overpayment: the rest comes back
    let r = refund_deposit(10, 11 * STORAGE_PRICE_PER_BYTE, &payer).unwrap().unwrap();
    assert_eq!(r.amount, STORAGE_PRICE_PER_BYTE);
    assert_eq!(r.account_id, payer);
    // exact payment: nothing comes back
    assert!(refund_deposit(10, 10 * STORAGE_PRICE_PER_BYTE, &payer).unwrap().is_none());
    // underpayment is refused
    assert_eq!(
        refund_deposit(10, 10 * STORAGE_PRICE_PER_BYTE - 1, &payer).unwrap_err(),
        Error::InsufficientDeposit
    );
}

#[test]
fn versioned_records_normalize() {
    let v1 = TokenTypeV1 {
        metadata: TokenTypeMetadata {
            title: Some("Old".to_string()),
            description: None,
            media: Some("cid".to_string()),
            copies: Some(5),
        },
        owner_id: "owner.near".to_string(),
        royalty: vec![],
        tokens: vec![],
        approved_market_id: None,
    };
    let t = versioned_token_type_to_token_type(VersionedTokenType::V1(v1));
    // a record of the superseded shape had one asset and no cover
    assert_eq!(t.asset_count, 1);
    assert_eq!(t.cover_asset, None);
    assert_eq!(t.metadata.title, Some("Old".to_string()));

    let token = Token {
        token_id: TokenId { token_type_id: 1, edition: 1 },
        owner_id: "alice.near".to_string(),
        metadata: None,
        approved_account_ids: None,
    };
    let back = versioned_token_to_token(VersionedToken::Current(token));
    assert_eq!(back.owner_id, "alice.near".to_string());
}
