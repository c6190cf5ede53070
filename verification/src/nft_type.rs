//! Series ("token types"): named collections of tokens sharing base
//! metadata, a royalty table, a supply cap and an asset pool consumed by
//! generative minting.
use vstd::prelude::*;
use crate::assoc::unique_keys;
use crate::metadata::{clone_opt_string, AccountId, TokenId, TokenTypeMetadata};

verus! {

/// Stable numeric id of a series, 1-based and monotonic.
pub type TokenTypeId = u64;

/// The unique human-readable name of a series.
pub type TokenTypeTitle = String;

/// One entry of a series' asset pool: a media filename, how many tokens may
/// still draw it, and the filename of an extra (off-chain) asset — empty
/// when none exists.
#[derive(Debug, Clone, PartialEq, Eq)]
pub struct AssetDetail {
    pub filename: String,
    pub supply_remaining: u64,
    pub extra_filename: String,
}

/// The remaining distributable asset pool of a series.
pub type TokenTypeAssets = Vec<AssetDetail>;

/// The mathematical content of one asset pool entry.
#[verifier::ext_equal]
pub ghost struct AssetInfo {
    pub filename: Seq<char>,
    pub supply_remaining: u64,
    pub extra_filename: Seq<char>,
}

impl View for AssetDetail {
    type V = AssetInfo;

    open spec fn view(&self) -> AssetInfo {
        AssetInfo {
            filename: self.filename@,
            supply_remaining: self.supply_remaining,
            extra_filename: self.extra_filename@,
        }
    }
}

impl AssetDetail {
    /// Copies the entry. Unlike the derived `Clone`, the copy is known to
    /// equal the original.
    pub fn duplicate(&self) -> (r: AssetDetail)
        ensures
            r == *self,
    {
        AssetDetail {
            filename: self.filename.clone(),
            supply_remaining: self.supply_remaining,
            extra_filename: self.extra_filename.clone(),
        }
    }
}

/// The pool as mathematical content.
pub open spec fn assets_view(s: Seq<AssetDetail>) -> Seq<AssetInfo> {
    s.map_values(|a: AssetDetail| a@)
}

/// Units left in the pool: the sum of every entry's remaining supply.
pub open spec fn spec_pool_supply(s: Seq<AssetInfo>) -> int
    decreases s.len(),
{
    if s.len() == 0 {
        0
    } else {
        spec_pool_supply(s.drop_last()) + s.last().supply_remaining
    }
}

/// Every pool entry still has supply; an exhausted entry is removed at
/// once, so none lingers at zero.
pub open spec fn spec_pool_entries_positive(s: Seq<AssetInfo>) -> bool {
    forall|i: int| 0 <= i < s.len() ==> (#[trigger] s[i]).supply_remaining >= 1
}

/// Superseded series shape, kept so that records written under it can still
/// be read and normalized.
#[derive(Debug, Clone, PartialEq, Eq)]
pub struct TokenTypeV1 {
    pub metadata: TokenTypeMetadata,
    pub owner_id: AccountId,
    pub royalty: Vec<(AccountId, u32)>,
    pub tokens: Vec<TokenId>,
    pub approved_market_id: Option<AccountId>,
}

/// A series record: base metadata, the account that may mint from it, the
/// royalty table in basis points, the minted token ids, and display data.
#[derive(Debug, Clone, PartialEq, Eq)]
pub struct TokenType {
    pub metadata: TokenTypeMetadata,
    pub owner_id: AccountId,
    pub royalty: Vec<(AccountId, u32)>,
    pub tokens: Vec<TokenId>,
    pub approved_market_id: Option<AccountId>,
    /// How many distinct assets the pool was created with.
    pub asset_count: u64,
    /// Filename of the cover asset within the series' content directory.
    pub cover_asset: Option<String>,
}

/// Tagged union of every persisted series shape.
#[derive(Debug, Clone, PartialEq, Eq)]
pub enum VersionedTokenType {
    V1(TokenTypeV1),
    Current(TokenType),
}

/// The mathematical content of a series record.
#[verifier::ext_equal]
pub ghost struct TypeInfo {
    pub metadata: TokenTypeMetadata,
    pub owner_id: Seq<char>,
    pub royalty: Seq<(Seq<char>, u32)>,
    pub tokens: Seq<TokenId>,
    pub approved_market_id: Option<AccountId>,
    pub asset_count: u64,
    pub cover_asset: Option<String>,
}

/// A royalty table, keyed by the view of the account.
pub open spec fn royalty_view(s: Seq<(AccountId, u32)>) -> Seq<(Seq<char>, u32)> {
    s.map_values(|p: (AccountId, u32)| (p.0@, p.1))
}

impl View for TokenType {
    type V = TypeInfo;

    open spec fn view(&self) -> TypeInfo {
        TypeInfo {
            metadata: self.metadata,
            owner_id: self.owner_id@,
            royalty: royalty_view(self.royalty@),
            tokens: self.tokens@,
            approved_market_id: self.approved_market_id,
            asset_count: self.asset_count,
            cover_asset: self.cover_asset,
        }
    }
}

impl View for VersionedTokenType {
    type V = TypeInfo;

    /// A persisted record denotes what its normalization to the current
    /// shape denotes: reading never branches on version tags elsewhere.
    open spec fn view(&self) -> TypeInfo {
        match self {
            VersionedTokenType::V1(v1) => TypeInfo {
                metadata: v1.metadata,
                owner_id: v1.owner_id@,
                royalty: royalty_view(v1.royalty@),
                tokens: v1.tokens@,
                approved_market_id: v1.approved_market_id,
                asset_count: 1,
                cover_asset: None,
            },
            VersionedTokenType::Current(t) => t@,
        }
    }
}

/// Normalizes a persisted series record to the current shape. A record of
/// the superseded shape had exactly one asset and no cover asset.
pub fn versioned_token_type_to_token_type(versioned_token_type: VersionedTokenType) -> (r:
    TokenType)
    ensures
        r@ == versioned_token_type@,
{
    match versioned_token_type {
        VersionedTokenType::Current(current) => current,
        VersionedTokenType::V1(v1) => TokenType {
            metadata: v1.metadata,
            owner_id: v1.owner_id,
            royalty: v1.royalty,
            tokens: v1.tokens,
            approved_market_id: v1.approved_market_id,
            asset_count: 1,
            cover_asset: None,
        },
    }
}

impl TokenTypeMetadata {
    /// Copies the record. Unlike the derived `Clone`, the copy is known to
    /// equal the original.
    pub fn duplicate(&self) -> (r: TokenTypeMetadata)
        ensures
            r == *self,
    {
        TokenTypeMetadata {
            title: clone_opt_string(&self.title),
            description: clone_opt_string(&self.description),
            media: clone_opt_string(&self.media),
            copies: self.copies,
        }
    }
}

/// Copies a royalty table. Unlike the derived `Clone`, the copy is known
/// to equal the original.
pub fn clone_royalty(v: &Vec<(AccountId, u32)>) -> (r: Vec<(AccountId, u32)>)
    ensures
        r@ == v@,
{
    let mut out: Vec<(AccountId, u32)> = Vec::new();
    let n = v.len();
    for i in 0..n
        invariant
            n == v@.len(),
            out@ =~= v@.take(i as int),
    {
        let account = v[i].0.clone();
        out.push((account, v[i].1));
        proof {
            assert(out@ =~= v@.take(i as int + 1));
        }
    }
    proof {
        assert(out@ =~= v@);
    }
    out
}

/// Copies a token id list. Unlike the derived `Clone`, the copy is known
/// to equal the original.
pub fn clone_token_ids(v: &Vec<TokenId>) -> (r: Vec<TokenId>)
    ensures
        r@ == v@,
{
    let mut out: Vec<TokenId> = Vec::new();
    let n = v.len();
    for i in 0..n
        invariant
            n == v@.len(),
            out@ =~= v@.take(i as int),
    {
        out.push(v[i]);
        proof {
            assert(out@ =~= v@.take(i as int + 1));
        }
    }
    proof {
        assert(out@ =~= v@);
    }
    out
}

impl VersionedTokenType {
    /// Copies a persisted record, normalized to the current shape: what it
    /// denotes is unchanged.
    pub fn duplicate_normalized(&self) -> (r: TokenType)
        ensures
            r@ == self@,
    {
        match self {
            VersionedTokenType::Current(t) => TokenType {
                metadata: t.metadata.duplicate(),
                owner_id: t.owner_id.clone(),
                royalty: clone_royalty(&t.royalty),
                tokens: clone_token_ids(&t.tokens),
                approved_market_id: clone_opt_string(&t.approved_market_id),
                asset_count: t.asset_count,
                cover_asset: clone_opt_string(&t.cover_asset),
            },
            VersionedTokenType::V1(v1) => TokenType {
                metadata: v1.metadata.duplicate(),
                owner_id: v1.owner_id.clone(),
                royalty: clone_royalty(&v1.royalty),
                tokens: clone_token_ids(&v1.tokens),
                approved_market_id: clone_opt_string(&v1.approved_market_id),
                asset_count: 1,
                cover_asset: None,
            },
        }
    }
}

/// The public view of a series handed out by read operations.
#[derive(Debug, Clone, PartialEq, Eq)]
pub struct TokenTypeJson {
    pub metadata: TokenTypeMetadata,
    pub owner_id: AccountId,
    pub royalty: Vec<(AccountId, u32)>,
}

/// Arguments of a lazy mint carried in place of a transfer memo: which
/// series to mint from and who receives the token.
#[derive(Debug, Clone, PartialEq, Eq)]
pub struct TypeMintArgs {
    pub token_type_title: TokenTypeTitle,
    pub receiver_id: AccountId,
}

/// A well-formed series record with id `id`: a titled series whose royalty
/// table has distinct accounts and whose minted list holds exactly the
/// editions `1..=len`, each bound to this series.
pub open spec fn type_info_wf(id: TokenTypeId, info: TypeInfo) -> bool {
    &&& info.metadata.title is Some
    &&& unique_keys(info.royalty)
    &&& forall|k: int|
        0 <= k < info.tokens.len() ==> #[trigger] info.tokens[k] == (TokenId {
            token_type_id: id,
            edition: (k + 1) as u64,
        })
    &&& info.tokens.len() <= u64::MAX
    &&& info.tokens.len() <= spec_max_copies(info)
}

/// The supply cap of a series; an uncapped series can mint up to the
/// largest representable count.
pub open spec fn spec_max_copies(info: TypeInfo) -> u64 {
    match info.metadata.copies {
        Some(c) => c,
        None => u64::MAX,
    }
}

/// A pool whose entries all carry supply is empty exactly when it has no
/// units left.
pub proof fn lemma_pool_supply_positive(s: Seq<AssetInfo>)
    requires
        spec_pool_entries_positive(s),
    ensures
        spec_pool_supply(s) >= s.len(),
        s.len() > 0 ==> spec_pool_supply(s) >= 1,
    decreases s.len(),
{
    if s.len() > 0 {
        lemma_pool_supply_positive(s.drop_last());
        assert(spec_pool_entries_positive(s.drop_last()));
    }
}

/// Lowering one entry's remaining supply by one lowers the pool's units by
/// one.
pub proof fn lemma_pool_supply_update(s: Seq<AssetInfo>, k: int, e: AssetInfo)
    requires
        0 <= k < s.len(),
        e.supply_remaining + 1 == s[k].supply_remaining,
        e.filename == s[k].filename,
        e.extra_filename == s[k].extra_filename,
    ensures
        spec_pool_supply(s.update(k, e)) == spec_pool_supply(s) - 1,
    decreases s.len(),
{
    let t = s.update(k, e);
    if k == s.len() - 1 {
        assert(t.drop_last() =~= s.drop_last());
        assert(t.last() == e);
    } else {
        assert(t.drop_last() =~= s.drop_last().update(k, e));
        assert(t.last() == s.last());
        lemma_pool_supply_update(s.drop_last(), k, e);
    }
}

/// Removing an entry that holds one last unit lowers the pool's units by
/// one.
pub proof fn lemma_pool_supply_remove(s: Seq<AssetInfo>, k: int)
    requires
        0 <= k < s.len(),
    ensures
        spec_pool_supply(s.remove(k)) == spec_pool_supply(s) - s[k].supply_remaining,
    decreases s.len(),
{
    let t = s.remove(k);
    if k == s.len() - 1 {
        assert(t =~= s.drop_last());
    } else {
        assert(t.drop_last() =~= s.drop_last().remove(k));
        assert(t.last() == s.last());
        lemma_pool_supply_remove(s.drop_last(), k);
    }
}

/// How a series creation request ends: only the registry owner may create;
/// the title must be new; the pool must be non-empty, no larger than the
/// cap, with every entry carrying supply and the entries summing exactly to
/// the cap; and the deposit must cover the new record's storage.
pub open spec fn spec_create_type_outcome(
    c: crate::Contract,
    metadata: TokenTypeMetadata,
    pool: Seq<AssetInfo>,
    caller: Seq<char>,
    deposit: u128,
) -> Result<(), crate::Error> {
    if caller != c.spec_owner() {
        Err(crate::Error::Unauthorized)
    } else if c.has_title(metadata.title->0@) {
        Err(crate::Error::AlreadyExists)
    } else if !(pool.len() >= 1 && pool.len() <= metadata.copies->0 && spec_pool_entries_positive(
        pool,
    ) && spec_pool_supply(pool) == metadata.copies->0) {
        Err(crate::Error::SupplyMismatch)
    } else if spec_create_type_storage(pool.len() as int) * crate::utils::STORAGE_PRICE_PER_BYTE
        > deposit {
        Err(crate::Error::InsufficientDeposit)
    } else {
        Ok(())
    }
}

/// Storage-cost model of a new series record: a flat record cost plus one
/// share per pool entry.
pub open spec fn spec_create_type_storage(pool_len: int) -> int {
    256 + pool_len * 128
}

/// Appending a fresh series — its id the next counter value, its title
/// unused, its minted list empty — keeps the series tables well-formed and
/// their agreement with the ledger.
proof fn lemma_tables_insert_fresh(
    types: Seq<(u64, TypeInfo)>,
    titles: Seq<(Seq<char>, u64)>,
    pools: Seq<(u64, Seq<AssetInfo>)>,
    next_id: u64,
    info: TypeInfo,
    pool: Seq<AssetInfo>,
    nft: crate::nft_core::NonFungibleToken,
)
    requires
        crate::types_tables_ok(types, titles, pools, next_id),
        crate::cross_tables_ok(types, nft),
        1 <= next_id < u64::MAX,
        !crate::assoc::has_key(titles, info.metadata.title->0@),
        type_info_wf(next_id, info),
        info.tokens.len() == 0,
        spec_pool_entries_positive(pool),
    ensures
        crate::types_tables_ok(
            types.push((next_id, info)),
            titles.push((info.metadata.title->0@, next_id)),
            pools.push((next_id, pool)),
            (next_id + 1) as u64,
        ),
        crate::cross_tables_ok(types.push((next_id, info)), nft),
        crate::assoc::as_map(types.push((next_id, info))) == crate::assoc::as_map(types).insert(
            next_id,
            info,
        ),
        crate::assoc::as_map(titles.push((info.metadata.title->0@, next_id)))
            == crate::assoc::as_map(titles).insert(info.metadata.title->0@, next_id),
        crate::assoc::as_map(pools.push((next_id, pool))) == crate::assoc::as_map(pools).insert(
            next_id,
            pool,
        ),
{
    let title = info.metadata.title->0@;
    let types2 = types.push((next_id, info));
    let titles2 = titles.push((title, next_id));
    let pools2 = pools.push((next_id, pool));
    assert(!crate::assoc::has_key(types, next_id)) by {
        if crate::assoc::has_key(types, next_id) {
            let i = crate::assoc::idx_of(types, next_id);
            assert(types[i].0 < next_id);
        }
    }
    assert(!crate::assoc::has_key(pools, next_id)) by {
        if crate::assoc::has_key(pools, next_id) {
            let i = crate::assoc::idx_of(pools, next_id);
            assert(crate::assoc::has_key(types, pools[i].0));
        }
    }
    crate::assoc::lemma_push_fresh(types, next_id, info);
    crate::assoc::lemma_push_fresh(titles, title, next_id);
    crate::assoc::lemma_push_fresh(pools, next_id, pool);
    let n_ty = types.len() as int;
    let n_ti = titles.len() as int;
    let n_po = pools.len() as int;
    assert forall|i: int| 0 <= i < types2.len() implies {
        let (id, inf) = #[trigger] types2[i];
        &&& 1 <= id < next_id + 1
        &&& type_info_wf(id, inf)
        &&& crate::assoc::has_key(titles2, inf.metadata.title->0@)
        &&& crate::assoc::val_of(titles2, inf.metadata.title->0@) == id
    } by {
        crate::assoc::lemma_map_binding(titles2, types2[i].1.metadata.title->0@);
        crate::assoc::lemma_map_binding(titles, types2[i].1.metadata.title->0@);
        if i < n_ty {
            assert(types2[i] == types[i]);
            assert(types[i].1.metadata.title->0@ != title);
        } else {
            assert(types2[i] == (next_id, info));
        }
    }
    assert forall|i: int| 0 <= i < titles2.len() implies {
        let (t, id) = #[trigger] titles2[i];
        &&& crate::assoc::has_key(types2, id)
        &&& crate::assoc::val_of(types2, id).metadata.title->0@ == t
    } by {
        crate::assoc::lemma_map_binding(types2, titles2[i].1);
        crate::assoc::lemma_map_binding(types, titles2[i].1);
        if i < n_ti {
            assert(titles2[i] == titles[i]);
        } else {
            assert(titles2[i] == (title, next_id));
        }
    }
    assert forall|i: int| 0 <= i < pools2.len() implies {
        let (id, p) = #[trigger] pools2[i];
        &&& crate::assoc::has_key(types2, id)
        &&& spec_pool_entries_positive(p)
    } by {
        crate::assoc::lemma_map_binding(types2, pools2[i].0);
        crate::assoc::lemma_map_binding(types, pools2[i].0);
        if i < n_po {
            assert(pools2[i] == pools[i]);
        } else {
            assert(pools2[i] == (next_id, pool));
        }
    }
    assert forall|i: int| 0 <= i < types2.len() implies {
        let (id, inf) = #[trigger] types2[i];
        forall|k: int| 0 <= k < inf.tokens.len() ==> nft.has_token(#[trigger] inf.tokens[k])
    } by {
        if i < n_ty {
            assert(types2[i] == types[i]);
        }
    }
    assert forall|x: crate::metadata::TokenId| #[trigger]
        nft.has_token(x) implies crate::assoc::has_key(types2, x.token_type_id) && 1 <= x.edition
        <= crate::assoc::val_of(types2, x.token_type_id).tokens.len() by {
        crate::assoc::lemma_map_binding(types2, x.token_type_id);
        crate::assoc::lemma_map_binding(types, x.token_type_id);
        assert(x.token_type_id != next_id);
    }
}

/// Rewriting one series record in place — same id, same title, same minted
/// list — keeps the series tables well-formed and their agreement with the
/// ledger.
proof fn lemma_tables_update_record(
    types: Seq<(u64, TypeInfo)>,
    titles: Seq<(Seq<char>, u64)>,
    pools: Seq<(u64, Seq<AssetInfo>)>,
    next_id: u64,
    i: int,
    info2: TypeInfo,
    nft: crate::nft_core::NonFungibleToken,
)
    requires
        crate::types_tables_ok(types, titles, pools, next_id),
        crate::cross_tables_ok(types, nft),
        0 <= i < types.len(),
        type_info_wf(types[i].0, info2),
        info2.tokens == types[i].1.tokens,
        info2.metadata.title->0@ == types[i].1.metadata.title->0@,
    ensures
        crate::types_tables_ok(types.update(i, (types[i].0, info2)), titles, pools, next_id),
        crate::cross_tables_ok(types.update(i, (types[i].0, info2)), nft),
        crate::assoc::as_map(types.update(i, (types[i].0, info2))) == crate::assoc::as_map(
            types,
        ).insert(types[i].0, info2),
{
    let id = types[i].0;
    let types2 = types.update(i, (id, info2));
    crate::assoc::lemma_update_value(types, i, info2);
    assert forall|q: int| 0 <= q < types2.len() implies {
        let (tid, inf) = #[trigger] types2[q];
        &&& 1 <= tid < next_id
        &&& type_info_wf(tid, inf)
        &&& crate::assoc::has_key(titles, inf.metadata.title->0@)
        &&& crate::assoc::val_of(titles, inf.metadata.title->0@) == tid
    } by {
        if q != i {
            assert(types2[q] == types[q]);
        } else {
            assert(types[i].0 == id);
        }
    }
    assert forall|q: int| 0 <= q < titles.len() implies {
        let (t, tid) = #[trigger] titles[q];
        &&& crate::assoc::has_key(types2, tid)
        &&& crate::assoc::val_of(types2, tid).metadata.title->0@ == t
    } by {
        crate::assoc::lemma_map_binding(types, titles[q].1);
        crate::assoc::lemma_map_binding(types2, titles[q].1);
    }
    assert forall|q: int| 0 <= q < pools.len() implies {
        let (tid, p) = #[trigger] pools[q];
        &&& crate::assoc::has_key(types2, tid)
        &&& spec_pool_entries_positive(p)
    } by {
        crate::assoc::lemma_map_binding(types, pools[q].0);
        crate::assoc::lemma_map_binding(types2, pools[q].0);
    }
    assert forall|q: int| 0 <= q < types2.len() implies {
        let (tid, inf) = #[trigger] types2[q];
        forall|k: int| 0 <= k < inf.tokens.len() ==> nft.has_token(#[trigger] inf.tokens[k])
    } by {
        if q != i {
            assert(types2[q] == types[q]);
        } else {
            assert(types[i].0 == id);
        }
    }
    assert forall|x: crate::metadata::TokenId| #[trigger]
        nft.has_token(x) implies crate::assoc::has_key(types2, x.token_type_id) && 1 <= x.edition
        <= crate::assoc::val_of(types2, x.token_type_id).tokens.len() by {
        crate::assoc::lemma_map_binding(types, x.token_type_id);
        crate::assoc::lemma_map_binding(types2, x.token_type_id);
    }
}

/// Retitling one series — the old title entry replaced by a fresh one, the
/// record rewritten with the new title but the same minted list — keeps the
/// series tables well-formed and their agreement with the ledger.
proof fn lemma_tables_retitle(
    types: Seq<(u64, TypeInfo)>,
    titles: Seq<(Seq<char>, u64)>,
    pools: Seq<(u64, Seq<AssetInfo>)>,
    next_id: u64,
    i: int,
    j: int,
    info2: TypeInfo,
    nft: crate::nft_core::NonFungibleToken,
)
    requires
        crate::types_tables_ok(types, titles, pools, next_id),
        crate::cross_tables_ok(types, nft),
        0 <= i < types.len(),
        0 <= j < titles.len(),
        titles[j].1 == types[i].0,
        type_info_wf(types[i].0, info2),
        info2.tokens == types[i].1.tokens,
        !crate::assoc::has_key(titles, info2.metadata.title->0@),
    ensures
        ({
            let id = types[i].0;
            let types2 = types.update(i, (id, info2));
            let titles2 = titles.remove(j).push((info2.metadata.title->0@, id));
            &&& crate::types_tables_ok(types2, titles2, pools, next_id)
            &&& crate::cross_tables_ok(types2, nft)
            &&& crate::assoc::as_map(types2) == crate::assoc::as_map(types).insert(id, info2)
            &&& crate::assoc::as_map(titles2) == crate::assoc::as_map(titles).remove(
                titles[j].0,
            ).insert(info2.metadata.title->0@, id)
        }),
{
    let id = types[i].0;
    let new_title = info2.metadata.title->0@;
    let types2 = types.update(i, (id, info2));
    let titles1 = titles.remove(j);
    let titles2 = titles1.push((new_title, id));
    crate::assoc::lemma_update_value(types, i, info2);
    crate::assoc::lemma_remove_at(titles, j);
    assert(!crate::assoc::has_key(titles1, new_title)) by {
        if crate::assoc::has_key(titles1, new_title) {
            let q = crate::assoc::idx_of(titles1, new_title);
            let q0 = if q < j {
                q
            } else {
                q + 1
            };
            assert(titles1[q] == titles[q0]);
            assert(crate::assoc::has_key(titles, new_title));
        }
    }
    crate::assoc::lemma_push_fresh(titles1, new_title, id);
    // the removed entry was the only one naming this series
    assert forall|q: int| 0 <= q < titles.len() && q != j implies (#[trigger] titles[q]).1
        != id by {
        if titles[q].1 == id {
            assert(crate::assoc::val_of(types, id).metadata.title->0@ == titles[q].0);
            assert(crate::assoc::val_of(types, id).metadata.title->0@ == titles[j].0);
            crate::assoc::lemma_idx_of_unique(titles, q);
            crate::assoc::lemma_idx_of_unique(titles, j);
        }
    }
    assert forall|q: int| 0 <= q < types2.len() implies {
        let (tid, inf) = #[trigger] types2[q];
        &&& 1 <= tid < next_id
        &&& type_info_wf(tid, inf)
        &&& crate::assoc::has_key(titles2, inf.metadata.title->0@)
        &&& crate::assoc::val_of(titles2, inf.metadata.title->0@) == tid
    } by {
        crate::assoc::lemma_map_binding(titles, types2[q].1.metadata.title->0@);
        crate::assoc::lemma_map_binding(titles1, types2[q].1.metadata.title->0@);
        crate::assoc::lemma_map_binding(titles2, types2[q].1.metadata.title->0@);
        if q != i {
            assert(types2[q] == types[q]);
            assert(types[q].1.metadata.title->0@ != new_title);
            // its title entry is not the removed one
            assert(crate::assoc::val_of(titles, types[q].1.metadata.title->0@) == types[q].0);
            assert(types[q].0 != id) by {
                crate::assoc::lemma_idx_of_unique(types, q);
                crate::assoc::lemma_idx_of_unique(types, i);
            }
            assert(types[q].1.metadata.title->0@ != titles[j].0) by {
                if types[q].1.metadata.title->0@ == titles[j].0 {
                    crate::assoc::lemma_idx_of_unique(titles, j);
                }
            }
        } else {
            assert(types2[i] == (id, info2));
        }
    }
    assert forall|q: int| 0 <= q < titles2.len() implies {
        let (t, tid) = #[trigger] titles2[q];
        &&& crate::assoc::has_key(types2, tid)
        &&& crate::assoc::val_of(types2, tid).metadata.title->0@ == t
    } by {
        crate::assoc::lemma_map_binding(types, titles2[q].1);
        crate::assoc::lemma_map_binding(types2, titles2[q].1);
        if q < titles1.len() {
            let q0 = if q < j {
                q
            } else {
                q + 1
            };
            assert(titles2[q] == titles[q0]);
            assert(titles[q0].1 != id);
        } else {
            assert(titles2[q] == (new_title, id));
            crate::assoc::lemma_idx_of_unique(types2, i);
        }
    }
    assert forall|q: int| 0 <= q < pools.len() implies {
        let (tid, p) = #[trigger] pools[q];
        &&& crate::assoc::has_key(types2, tid)
        &&& spec_pool_entries_positive(p)
    } by {
        crate::assoc::lemma_map_binding(types, pools[q].0);
        crate::assoc::lemma_map_binding(types2, pools[q].0);
    }
    assert forall|q: int| 0 <= q < types2.len() implies {
        let (tid, inf) = #[trigger] types2[q];
        forall|k: int| 0 <= k < inf.tokens.len() ==> nft.has_token(#[trigger] inf.tokens[k])
    } by {
        if q != i {
            assert(types2[q] == types[q]);
        } else {
            assert(types[i].0 == id);
        }
    }
    assert forall|x: crate::metadata::TokenId| #[trigger]
        nft.has_token(x) implies crate::assoc::has_key(types2, x.token_type_id) && 1 <= x.edition
        <= crate::assoc::val_of(types2, x.token_type_id).tokens.len() by {
        crate::assoc::lemma_map_binding(types, x.token_type_id);
        crate::assoc::lemma_map_binding(types2, x.token_type_id);
    }
    assert(crate::assoc::as_map(titles2) =~= crate::assoc::as_map(titles).remove(
        titles[j].0,
    ).insert(new_title, id));
}

impl crate::Contract {
    /// Creates a new series: a fresh sequential id bound to a unique title,
    /// with the given royalty table and an asset pool whose entries sum
    /// exactly to the supply cap. Only the registry owner may, with a
    /// deposit covering the record's storage.
    pub fn nft_create_type(
        &mut self,
        metadata: TokenTypeMetadata,
        royalty: Vec<(AccountId, u32)>,
        assets: TokenTypeAssets,
        cover_asset: String,
        predecessor_account_id: &AccountId,
        attached_deposit: u128,
    ) -> (r: Result<Option<crate::utils::Refund>, crate::Error>)
        requires
            old(self).wf(),
            // the record must name a title, a cap and a content address
            metadata.title is Some,
            metadata.copies is Some,
            metadata.media is Some,
            unique_keys(royalty_view(royalty@)),
            // machine limits
            assets@.len() <= 1_000_000,
            old(self).next_token_type_id < u64::MAX,
        ensures
            r is Ok <==> spec_create_type_outcome(
                *old(self),
                metadata,
                assets_view(assets@),
                predecessor_account_id@,
                attached_deposit,
            ) is Ok,
            match r {
                Ok(refund) => {
                    let id = old(self).next_token_type_id;
                    let pool = assets_view(assets@);
                    let cost = spec_create_type_storage(pool.len() as int)
                        * crate::utils::STORAGE_PRICE_PER_BYTE;
                    &&& final(self).wf()
                    &&& final(self).next_token_type_id == id + 1
                    &&& final(self).has_type(id)
                    &&& final(self).has_title(metadata.title->0@)
                    &&& final(self).title_at(metadata.title->0@) == id
                    &&& final(self).type_at(id) == (TypeInfo {
                        metadata,
                        owner_id: predecessor_account_id@,
                        royalty: royalty_view(royalty@),
                        tokens: Seq::empty(),
                        approved_market_id: None,
                        asset_count: assets@.len() as u64,
                        cover_asset: Some(cover_asset),
                    })
                    &&& final(self).has_assets(id)
                    &&& final(self).assets_at(id) == pool
                    &&& spec_pool_supply(pool) == metadata.copies->0
                    &&& final(self).type_map() == old(self).type_map().insert(
                        id,
                        final(self).type_at(id),
                    )
                    &&& final(self).tokens == old(self).tokens
                    &&& match refund {
                        Some(f) => f.account_id@ == predecessor_account_id@ && f.amount
                            == attached_deposit - cost && attached_deposit - cost > 1,
                        None => attached_deposit - cost <= 1,
                    }
                },
                Err(e) => {
                    &&& *final(self) == *old(self)
                    &&& Err::<(), crate::Error>(e) == spec_create_type_outcome(
                        *old(self),
                        metadata,
                        assets_view(assets@),
                        predecessor_account_id@,
                        attached_deposit,
                    )
                },
            },
    {
        let ghost pre = *old(self);
        if !crate::metadata::account_eq(predecessor_account_id, &self.tokens().owner_id) {
            return Err(crate::Error::Unauthorized);
        }
        let title = match &metadata.title {
            Some(t) => t.clone(),
            None => {
                proof {
                    assert(false);
                }
                return Err(crate::Error::NotFound);
            },
        };
        let copies = match metadata.copies {
            Some(c) => c,
            None => {
                proof {
                    assert(false);
                }
                return Err(crate::Error::NotFound);
            },
        };
        match self.find_title_index(&title) {
            Some(i) => {
                proof {
                    assert(pre.title_pairs()[i as int].0 == title@);
                    assert(pre.has_title(title@));
                }
                return Err(crate::Error::AlreadyExists);
            },
            None => {},
        }
        // the pool must be non-empty, no larger than the cap, every entry
        // must carry supply, and the entries must sum exactly to the cap
        let ghost pool = assets_view(assets@);
        let n = assets.len();
        if n == 0 || n as u64 > copies {
            return Err(crate::Error::SupplyMismatch);
        }
        let mut total_supply: u128 = 0;
        let mut all_positive: bool = true;
        for i in 0..n
            invariant
                n == assets@.len(),
                n <= 1_000_000,
                pool == assets_view(assets@),
                total_supply == spec_pool_supply(pool.take(i as int)),
                total_supply <= i as u128 * 0xffff_ffff_ffff_ffff,
                all_positive == spec_pool_entries_positive(pool.take(i as int)),
        {
            proof {
                assert(pool.take(i as int + 1).drop_last() =~= pool.take(i as int));
                assert(pool.take(i as int + 1).last() == pool[i as int]);
                assert(forall|j: int|
                    0 <= j < i + 1 ==> #[trigger] pool.take(i as int + 1)[j] == pool[j]);
            }
            total_supply = total_supply + assets[i].supply_remaining as u128;
            if assets[i].supply_remaining == 0 {
                all_positive = false;
            }
        }
        proof {
            assert(pool.take(n as int) =~= pool);
        }
        if !all_positive || total_supply != copies as u128 {
            return Err(crate::Error::SupplyMismatch);
        }
        // settle the storage bill before any mutation
        let storage_used: u64 = 256 + (n as u64) * 128;
        let required_cost = storage_used as u128 * crate::utils::STORAGE_PRICE_PER_BYTE;
        if required_cost > attached_deposit {
            return Err(crate::Error::InsufficientDeposit);
        }
        let token_type_id = self.next_token_type_id;
        let token_type = TokenType {
            metadata: metadata.duplicate(),
            owner_id: predecessor_account_id.clone(),
            royalty,
            tokens: Vec::new(),
            approved_market_id: None,
            asset_count: n as u64,
            cover_asset: Some(cover_asset),
        };
        let ghost info = token_type@;
        self.token_type_by_title.push((title, token_type_id));
        self.token_type_by_id.push((token_type_id, VersionedTokenType::Current(token_type)));
        self.token_type_assets_by_id.push((token_type_id, assets));
        self.next_token_type_id = token_type_id + 1;
        proof {
            assert(final(self).type_pairs() =~= pre.type_pairs().push((token_type_id, info)));
            assert(final(self).title_pairs() =~= pre.title_pairs().push(
                (metadata.title->0@, token_type_id),
            ));
            assert(final(self).asset_pairs() =~= pre.asset_pairs().push((token_type_id, pool)));
            lemma_tables_insert_fresh(
                pre.type_pairs(),
                pre.title_pairs(),
                pre.asset_pairs(),
                token_type_id,
                info,
                pool,
                pre.nft(),
            );
            crate::assoc::lemma_idx_of_unique(
                final(self).type_pairs(),
                pre.type_pairs().len() as int,
            );
            crate::assoc::lemma_idx_of_unique(
                final(self).title_pairs(),
                pre.title_pairs().len() as int,
            );
            crate::assoc::lemma_idx_of_unique(
                final(self).asset_pairs(),
                pre.asset_pairs().len() as int,
            );
        }
        let refund_amount = attached_deposit - required_cost;
        if refund_amount > 1 {
            Ok(Some(crate::utils::Refund {
                account_id: predecessor_account_id.clone(),
                amount: refund_amount,
            }))
        } else {
            Ok(None)
        }
    }
}

/// How a batch mint request ends: the series must exist with exactly one
/// asset in its pool shape; only the registry (and series) owner may; at
/// most 1000 receivers; the whole batch must fit under the cap and within
/// the pool's remaining units; and the deposit must cover every token.
pub open spec fn spec_batch_mint_outcome(
    c: crate::Contract,
    title: Seq<char>,
    n: int,
    caller: Seq<char>,
    deposit: u128,
) -> Result<(), crate::Error> {
    if !c.has_title(title) {
        Err(crate::Error::NotFound)
    } else {
        let id = c.title_at(title);
        let info = c.type_at(id);
        if info.asset_count != 1 {
            Err(crate::Error::SupplyMismatch)
        } else if caller != c.spec_owner() {
            Err(crate::Error::Unauthorized)
        } else if n > 1000 {
            Err(crate::Error::TooManyRecipients)
        } else if caller != info.owner_id {
            Err(crate::Error::Unauthorized)
        } else if n > spec_max_copies(info) - info.tokens.len() {
            Err(crate::Error::SupplyExhausted)
        } else if !c.has_assets(id) {
            Err(crate::Error::NotFound)
        } else if n > spec_pool_supply(c.assets_at(id)) {
            Err(crate::Error::SupplyExhausted)
        } else if n * (c.nft().extra_storage_in_bytes_per_token
            * crate::utils::STORAGE_PRICE_PER_BYTE) > deposit {
            Err(crate::Error::InsufficientDeposit)
        } else {
            Ok(())
        }
    }
}

/// How a mint request ends: only the series owner (who is the registry
/// owner) may mint; the series must exist, not yet have minted its whole
/// cap, and still have its asset pool with something in it; and the deposit
/// must cover one token's storage.
pub open spec fn spec_mint_outcome(
    c: crate::Contract,
    title: Seq<char>,
    caller: Seq<char>,
    deposit: u128,
) -> Result<(), crate::Error> {
    if caller != c.spec_owner() {
        Err(crate::Error::Unauthorized)
    } else if !c.has_title(title) {
        Err(crate::Error::NotFound)
    } else {
        let id = c.title_at(title);
        let info = c.type_at(id);
        if caller != info.owner_id {
            Err(crate::Error::Unauthorized)
        } else if info.tokens.len() == spec_max_copies(info) {
            Err(crate::Error::SupplyExhausted)
        } else if !c.has_assets(id) {
            Err(crate::Error::NotFound)
        } else if c.assets_at(id).len() == 0 {
            Err(crate::Error::SupplyExhausted)
        } else if c.nft().extra_storage_in_bytes_per_token * crate::utils::STORAGE_PRICE_PER_BYTE
            > deposit {
            Err(crate::Error::InsufficientDeposit)
        } else {
            Ok(())
        }
    }
}

/// Whether a metadata patch renames the series described by `info`.
pub open spec fn spec_retitles(
    info: TypeInfo,
    metadata: Option<crate::metadata::TokenMetadata>,
) -> bool {
    metadata matches Some(m) && m.title matches Some(t) && t@ != info.metadata.title->0@
}

/// Whether a metadata patch asks for a title that another series already
/// carries.
pub open spec fn spec_retitle_conflict(
    c: crate::Contract,
    current_title: Seq<char>,
    metadata: Option<crate::metadata::TokenMetadata>,
) -> bool {
    spec_retitles(c.type_at(c.title_at(current_title)), metadata) && c.has_title(
        metadata->0.title->0@,
    )
}

/// Copies an asset pool. Unlike the derived `Clone`, the copy is known to
/// equal the original.
pub fn clone_assets(v: &Vec<AssetDetail>) -> (r: Vec<AssetDetail>)
    ensures
        r@ == v@,
{
    let mut out: Vec<AssetDetail> = Vec::new();
    let n = v.len();
    for i in 0..n
        invariant
            n == v@.len(),
            out@ =~= v@.take(i as int),
    {
        out.push(v[i].duplicate());
        proof {
            assert(out@ =~= v@.take(i as int + 1));
        }
    }
    proof {
        assert(out@ =~= v@);
    }
    out
}

/// After one mint — the new edition appended to its series' minted list,
/// the pool binding lowered by one unit, the token added to the ledger —
/// the series tables are well-formed again and agree with the ledger.
proof fn lemma_tables_mint(
    types: Seq<(u64, TypeInfo)>,
    titles: Seq<(Seq<char>, u64)>,
    pools: Seq<(u64, Seq<AssetInfo>)>,
    next_id: u64,
    i: int,
    info2: TypeInfo,
    token: crate::metadata::TokenId,
    pools2: Seq<(u64, Seq<AssetInfo>)>,
    newpool: Seq<AssetInfo>,
    nft_pre: crate::nft_core::NonFungibleToken,
    nft_post: crate::nft_core::NonFungibleToken,
)
    requires
        crate::types_tables_ok(types, titles, pools, next_id),
        crate::cross_tables_ok(types, nft_pre),
        0 <= i < types.len(),
        info2 == (TypeInfo { tokens: types[i].1.tokens.push(token), ..types[i].1 }),
        token == (crate::metadata::TokenId {
            token_type_id: types[i].0,
            edition: (types[i].1.tokens.len() + 1) as u64,
        }),
        types[i].1.tokens.len() + 1 <= u64::MAX,
        types[i].1.tokens.len() < spec_max_copies(types[i].1),
        crate::assoc::unique_keys(pools2),
        crate::assoc::as_map(pools2) == crate::assoc::as_map(pools).insert(types[i].0, newpool),
        spec_pool_entries_positive(newpool),
        forall|x: crate::metadata::TokenId| #[trigger]
            nft_post.has_token(x) == (nft_pre.has_token(x) || x == token),
    ensures
        crate::types_tables_ok(types.update(i, (types[i].0, info2)), titles, pools2, next_id),
        crate::cross_tables_ok(types.update(i, (types[i].0, info2)), nft_post),
        crate::assoc::as_map(types.update(i, (types[i].0, info2))) == crate::assoc::as_map(
            types,
        ).insert(types[i].0, info2),
{
    let id = types[i].0;
    let info = types[i].1;
    let types2 = types.update(i, (id, info2));
    crate::assoc::lemma_update_value(types, i, info2);
    assert(type_info_wf(id, info2)) by {
        assert forall|k: int| 0 <= k < info2.tokens.len() implies #[trigger] info2.tokens[k]
            == (crate::metadata::TokenId { token_type_id: id, edition: (k + 1) as u64 }) by {
            if k < info.tokens.len() {
                assert(info2.tokens[k] == info.tokens[k]);
            } else {
                assert(info2.tokens[k] == token);
            }
        }
    }
    assert forall|q: int| 0 <= q < types2.len() implies {
        let (tid, inf) = #[trigger] types2[q];
        &&& 1 <= tid < next_id
        &&& type_info_wf(tid, inf)
        &&& crate::assoc::has_key(titles, inf.metadata.title->0@)
        &&& crate::assoc::val_of(titles, inf.metadata.title->0@) == tid
    } by {
        if q != i {
            assert(types2[q] == types[q]);
        }
    }
    assert forall|q: int| 0 <= q < titles.len() implies {
        let (t, tid) = #[trigger] titles[q];
        &&& crate::assoc::has_key(types2, tid)
        &&& crate::assoc::val_of(types2, tid).metadata.title->0@ == t
    } by {
        crate::assoc::lemma_map_binding(types, titles[q].1);
        crate::assoc::lemma_map_binding(types2, titles[q].1);
    }
    assert forall|q: int| 0 <= q < pools2.len() implies {
        let (tid, p) = #[trigger] pools2[q];
        &&& crate::assoc::has_key(types2, tid)
        &&& spec_pool_entries_positive(p)
    } by {
        crate::assoc::lemma_idx_of_unique(pools2, q);
        let tid = pools2[q].0;
        crate::assoc::lemma_map_binding(pools2, tid);
        crate::assoc::lemma_map_binding(pools, tid);
        crate::assoc::lemma_map_binding(types, tid);
        crate::assoc::lemma_map_binding(types2, tid);
        if tid != id {
            assert(crate::assoc::has_key(pools, tid) && crate::assoc::val_of(pools, tid)
                == pools2[q].1);
            let w = crate::assoc::idx_of(pools, tid);
            crate::assoc::lemma_idx_of_unique(pools, w);
            assert(pools[w].0 == tid && pools[w].1 == pools2[q].1);
        } else {
            assert(pools2[q].1 == newpool);
        }
    }
    assert forall|q: int| 0 <= q < types2.len() implies {
        let (tid, inf) = #[trigger] types2[q];
        forall|k: int| 0 <= k < inf.tokens.len() ==> nft_post.has_token(#[trigger] inf.tokens[k])
    } by {
        let inf = types2[q].1;
        assert forall|k: int| 0 <= k < inf.tokens.len() implies nft_post.has_token(
            #[trigger] inf.tokens[k],
        ) by {
            if q != i {
                assert(types2[q] == types[q]);
                assert(nft_pre.has_token(types[q].1.tokens[k]));
                assert(nft_post.has_token(types[q].1.tokens[k]));
            } else {
                if k < info.tokens.len() {
                    assert(inf.tokens[k] == info.tokens[k]);
                    assert(nft_pre.has_token(info.tokens[k]));
                    assert(nft_post.has_token(info.tokens[k]));
                } else {
                    assert(inf.tokens[k] == token);
                    assert(nft_post.has_token(token));
                }
            }
        }
    }
    assert forall|x: crate::metadata::TokenId| #[trigger]
        nft_post.has_token(x) implies crate::assoc::has_key(types2, x.token_type_id) && 1
        <= x.edition <= crate::assoc::val_of(types2, x.token_type_id).tokens.len() by {
        crate::assoc::lemma_map_binding(types, x.token_type_id);
        crate::assoc::lemma_map_binding(types2, x.token_type_id);
        if x == token {
            crate::assoc::lemma_idx_of_unique(types2, i);
        } else {
            assert(nft_pre.has_token(x));
        }
    }
}

/// Rewriting one series record in place — same id, title and minted list —
/// while rebinding its asset pool keeps the series tables well-formed and
/// their agreement with the ledger.
proof fn lemma_tables_set_pool_and_record(
    types: Seq<(u64, TypeInfo)>,
    titles: Seq<(Seq<char>, u64)>,
    pools: Seq<(u64, Seq<AssetInfo>)>,
    next_id: u64,
    i: int,
    info2: TypeInfo,
    pools2: Seq<(u64, Seq<AssetInfo>)>,
    newpool: Seq<AssetInfo>,
    nft: crate::nft_core::NonFungibleToken,
)
    requires
        crate::types_tables_ok(types, titles, pools, next_id),
        crate::cross_tables_ok(types, nft),
        0 <= i < types.len(),
        type_info_wf(types[i].0, info2),
        info2.tokens == types[i].1.tokens,
        info2.metadata.title->0@ == types[i].1.metadata.title->0@,
        crate::assoc::unique_keys(pools2),
        crate::assoc::as_map(pools2) == crate::assoc::as_map(pools).insert(types[i].0, newpool),
        spec_pool_entries_positive(newpool),
    ensures
        crate::types_tables_ok(types.update(i, (types[i].0, info2)), titles, pools2, next_id),
        crate::cross_tables_ok(types.update(i, (types[i].0, info2)), nft),
        crate::assoc::as_map(types.update(i, (types[i].0, info2))) == crate::assoc::as_map(
            types,
        ).insert(types[i].0, info2),
{
    let id = types[i].0;
    let types2 = types.update(i, (id, info2));
    lemma_tables_update_record(types, titles, pools, next_id, i, info2, nft);
    assert forall|q: int| 0 <= q < pools2.len() implies {
        let (tid, p) = #[trigger] pools2[q];
        &&& crate::assoc::has_key(types2, tid)
        &&& spec_pool_entries_positive(p)
    } by {
        crate::assoc::lemma_idx_of_unique(pools2, q);
        let tid = pools2[q].0;
        crate::assoc::lemma_map_binding(pools2, tid);
        crate::assoc::lemma_map_binding(pools, tid);
        crate::assoc::lemma_map_binding(types, tid);
        crate::assoc::lemma_map_binding(types2, tid);
        if tid != id {
            assert(crate::assoc::has_key(pools, tid) && crate::assoc::val_of(pools, tid)
                == pools2[q].1);
            let w = crate::assoc::idx_of(pools, tid);
            crate::assoc::lemma_idx_of_unique(pools, w);
            assert(pools[w].0 == tid && pools[w].1 == pools2[q].1);
        } else {
            assert(pools2[q].1 == newpool);
        }
    }
}

/// Removing a series that minted nothing — its record, its title entry and
/// its pool binding — keeps the series tables well-formed and their
/// agreement with the ledger.
proof fn lemma_tables_delete(
    types: Seq<(u64, TypeInfo)>,
    titles: Seq<(Seq<char>, u64)>,
    pools: Seq<(u64, Seq<AssetInfo>)>,
    next_id: u64,
    i: int,
    j: int,
    pools2: Seq<(u64, Seq<AssetInfo>)>,
    nft: crate::nft_core::NonFungibleToken,
)
    requires
        crate::types_tables_ok(types, titles, pools, next_id),
        crate::cross_tables_ok(types, nft),
        0 <= i < types.len(),
        0 <= j < titles.len(),
        titles[j].1 == types[i].0,
        types[i].1.tokens.len() == 0,
        crate::assoc::unique_keys(pools2),
        crate::assoc::as_map(pools2) == crate::assoc::as_map(pools).remove(types[i].0),
    ensures
        crate::types_tables_ok(types.remove(i), titles.remove(j), pools2, next_id),
        crate::cross_tables_ok(types.remove(i), nft),
{
    let id = types[i].0;
    let types2 = types.remove(i);
    let titles2 = titles.remove(j);
    crate::assoc::lemma_remove_at(types, i);
    crate::assoc::lemma_remove_at(titles, j);
    // the removed title entry was the only one naming this series
    assert forall|q: int| 0 <= q < titles.len() && q != j implies (#[trigger] titles[q]).1
        != id by {
        if titles[q].1 == id {
            assert(crate::assoc::val_of(types, id).metadata.title->0@ == titles[q].0);
            assert(crate::assoc::val_of(types, id).metadata.title->0@ == titles[j].0);
            crate::assoc::lemma_idx_of_unique(titles, q);
            crate::assoc::lemma_idx_of_unique(titles, j);
        }
    }
    assert(titles[j].0 == crate::assoc::val_of(types, id).metadata.title->0@) by {
        crate::assoc::lemma_map_binding(types, id);
        crate::assoc::lemma_idx_of_unique(types, i);
    }
    assert forall|q: int| 0 <= q < types2.len() implies {
        let (tid, inf) = #[trigger] types2[q];
        &&& 1 <= tid < next_id
        &&& type_info_wf(tid, inf)
        &&& crate::assoc::has_key(titles2, inf.metadata.title->0@)
        &&& crate::assoc::val_of(titles2, inf.metadata.title->0@) == tid
    } by {
        let q0 = if q < i {
            q
        } else {
            q + 1
        };
        assert(types2[q] == types[q0]);
        crate::assoc::lemma_map_binding(titles, types[q0].1.metadata.title->0@);
        crate::assoc::lemma_map_binding(titles2, types[q0].1.metadata.title->0@);
        assert(types[q0].0 != id) by {
            crate::assoc::lemma_idx_of_unique(types, q0);
            crate::assoc::lemma_idx_of_unique(types, i);
        }
        assert(types[q0].1.metadata.title->0@ != titles[j].0) by {
            if types[q0].1.metadata.title->0@ == titles[j].0 {
                crate::assoc::lemma_idx_of_unique(titles, j);
            }
        }
    }
    assert forall|q: int| 0 <= q < titles2.len() implies {
        let (t, tid) = #[trigger] titles2[q];
        &&& crate::assoc::has_key(types2, tid)
        &&& crate::assoc::val_of(types2, tid).metadata.title->0@ == t
    } by {
        let q0 = if q < j {
            q
        } else {
            q + 1
        };
        assert(titles2[q] == titles[q0]);
        assert(titles[q0].1 != id);
        crate::assoc::lemma_map_binding(types, titles[q0].1);
        crate::assoc::lemma_map_binding(types2, titles[q0].1);
    }
    assert forall|q: int| 0 <= q < pools2.len() implies {
        let (tid, p) = #[trigger] pools2[q];
        &&& crate::assoc::has_key(types2, tid)
        &&& spec_pool_entries_positive(p)
    } by {
        crate::assoc::lemma_idx_of_unique(pools2, q);
        let tid = pools2[q].0;
        crate::assoc::lemma_map_binding(pools2, tid);
        crate::assoc::lemma_map_binding(pools, tid);
        assert(tid != id);
        assert(crate::assoc::has_key(pools, tid) && crate::assoc::val_of(pools, tid)
            == pools2[q].1);
        let w = crate::assoc::idx_of(pools, tid);
        crate::assoc::lemma_idx_of_unique(pools, w);
        assert(pools[w].0 == tid && pools[w].1 == pools2[q].1);
        crate::assoc::lemma_map_binding(types, tid);
        crate::assoc::lemma_map_binding(types2, tid);
    }
    assert forall|q: int| 0 <= q < types2.len() implies {
        let (tid, inf) = #[trigger] types2[q];
        forall|k: int| 0 <= k < inf.tokens.len() ==> nft.has_token(#[trigger] inf.tokens[k])
    } by {
        let q0 = if q < i {
            q
        } else {
            q + 1
        };
        assert(types2[q] == types[q0]);
    }
    assert forall|x: crate::metadata::TokenId| #[trigger]
        nft.has_token(x) implies crate::assoc::has_key(types2, x.token_type_id) && 1 <= x.edition
        <= crate::assoc::val_of(types2, x.token_type_id).tokens.len() by {
        crate::assoc::lemma_map_binding(types, x.token_type_id);
        crate::assoc::lemma_map_binding(types2, x.token_type_id);
        if x.token_type_id == id {
            crate::assoc::lemma_map_binding(types, id);
            crate::assoc::lemma_idx_of_unique(types, i);
            assert(x.edition <= 0);
        }
    }
}

impl crate::Contract {
    /// Freezes the supply of a series at its current minted count: `copies`
    /// becomes exactly the number of tokens minted so far, permanently.
    /// Only the registry owner may.
    pub fn nft_cap_copies(
        &mut self,
        token_type_title: TokenTypeTitle,
        predecessor_account_id: &AccountId,
    ) -> (r: Result<(), crate::Error>)
        requires
            old(self).wf(),
        ensures
            r is Err <==> (predecessor_account_id@ != old(self).spec_owner() || !old(
                self,
            ).has_title(token_type_title@)),
            match r {
                Ok(()) => {
                    let id = old(self).title_at(token_type_title@);
                    let oldinfo = old(self).type_at(id);
                    &&& final(self).wf()
                    &&& final(self).has_type(id)
                    &&& final(self).type_at(id) == (TypeInfo {
                        metadata: TokenTypeMetadata {
                            copies: Some(oldinfo.tokens.len() as u64),
                            ..oldinfo.metadata
                        },
                        ..oldinfo
                    })
                    &&& final(self).type_map() == old(self).type_map().insert(
                        id,
                        final(self).type_at(id),
                    )
                    &&& final(self).token_type_by_title == old(self).token_type_by_title
                    &&& final(self).token_type_assets_by_id == old(self).token_type_assets_by_id
                    &&& final(self).tokens == old(self).tokens
                    &&& final(self).next_token_type_id == old(self).next_token_type_id
                },
                Err(e) => {
                    &&& *final(self) == *old(self)
                    &&& if predecessor_account_id@ != old(self).spec_owner() {
                        e == crate::Error::Unauthorized
                    } else {
                        e == crate::Error::NotFound
                    }
                },
            },
    {
        let ghost pre = *old(self);
        if !crate::metadata::account_eq(predecessor_account_id, &self.tokens().owner_id) {
            return Err(crate::Error::Unauthorized);
        }
        let j = match self.find_title_index(&token_type_title) {
            Some(j) => j,
            None => {
                return Err(crate::Error::NotFound);
            },
        };
        proof {
            assert(pre.title_pairs()[j as int].0 == token_type_title@);
            assert(pre.has_title(token_type_title@));
            crate::assoc::lemma_idx_of_unique(pre.title_pairs(), j as int);
        }
        let token_type_id = self.token_type_by_title[j].1;
        let i = match self.find_type_index(token_type_id) {
            Some(i) => i,
            None => {
                proof {
                    assert(false);
                }
                return Err(crate::Error::NotFound);
            },
        };
        proof {
            crate::assoc::lemma_idx_of_unique(pre.type_pairs(), i as int);
        }
        let mut token_type = self.token_type_by_id[i].1.duplicate_normalized();
        let num_tokens = token_type.tokens.len();
        token_type.metadata.copies = Some(num_tokens as u64);
        let ghost info2 = token_type@;
        self.token_type_by_id.set(i, (token_type_id, VersionedTokenType::Current(token_type)));
        proof {
            assert(final(self).type_pairs() =~= pre.type_pairs().update(
                i as int,
                (token_type_id, info2),
            ));
            lemma_tables_update_record(
                pre.type_pairs(),
                pre.title_pairs(),
                pre.asset_pairs(),
                pre.next_token_type_id,
                i as int,
                info2,
                pre.nft(),
            );
            crate::assoc::lemma_idx_of_unique(final(self).type_pairs(), i as int);
            assert(info2 =~= (TypeInfo {
                metadata: TokenTypeMetadata {
                    copies: Some(pre.type_at(token_type_id).tokens.len() as u64),
                    ..pre.type_at(token_type_id).metadata
                },
                ..pre.type_at(token_type_id)
            }));
        }
        Ok(())
    }

    /// Updates a series' metadata and royalty table. The description is
    /// replaced outright (clearing included) whenever a metadata patch is
    /// given; the title may move to a new unused one; `copies`, the content
    /// address and the asset pool cannot be changed here. Only the registry
    /// owner may; the attached deposit comes back in full.
    pub fn nft_update_type(
        &mut self,
        token_type_title: TokenTypeTitle,
        metadata: Option<crate::metadata::TokenMetadata>,
        royalty: Option<Vec<(AccountId, u32)>>,
        predecessor_account_id: &AccountId,
        attached_deposit: u128,
    ) -> (r: Result<Option<crate::utils::Refund>, crate::Error>)
        requires
            old(self).wf(),
            match royalty {
                Some(v) => unique_keys(royalty_view(v@)),
                None => true,
            },
        ensures
            r is Err <==> (predecessor_account_id@ != old(self).spec_owner() || !old(
                self,
            ).has_title(token_type_title@) || spec_retitle_conflict(
                *old(self),
                token_type_title@,
                metadata,
            )),
            match r {
                Ok(refund) => {
                    let id = old(self).title_at(token_type_title@);
                    let oldinfo = old(self).type_at(id);
                    let newinfo = final(self).type_at(id);
                    let retitled = spec_retitles(oldinfo, metadata);
                    &&& final(self).wf()
                    &&& final(self).has_type(id)
                    &&& newinfo.metadata.title == (if retitled {
                        metadata->0.title
                    } else {
                        oldinfo.metadata.title
                    })
                    &&& newinfo.metadata.description == (match metadata {
                        Some(m) => m.description,
                        None => oldinfo.metadata.description,
                    })
                    &&& newinfo.metadata.media == oldinfo.metadata.media
                    &&& newinfo.metadata.copies == oldinfo.metadata.copies
                    &&& newinfo.royalty == (match royalty {
                        Some(v) => royalty_view(v@),
                        None => oldinfo.royalty,
                    })
                    &&& newinfo.tokens == oldinfo.tokens
                    &&& newinfo.owner_id == oldinfo.owner_id
                    &&& newinfo.asset_count == oldinfo.asset_count
                    &&& newinfo.cover_asset == oldinfo.cover_asset
                    &&& final(self).type_map() == old(self).type_map().insert(id, newinfo)
                    &&& final(self).has_title(newinfo.metadata.title->0@)
                    &&& final(self).title_at(newinfo.metadata.title->0@) == id
                    &&& (retitled ==> crate::assoc::as_map(final(self).title_pairs())
                        == crate::assoc::as_map(old(self).title_pairs()).remove(
                        token_type_title@,
                    ).insert(metadata->0.title->0@, id))
                    &&& (!retitled ==> final(self).token_type_by_title == old(
                        self,
                    ).token_type_by_title)
                    &&& final(self).token_type_assets_by_id == old(self).token_type_assets_by_id
                    &&& final(self).tokens == old(self).tokens
                    &&& final(self).next_token_type_id == old(self).next_token_type_id
                    &&& match refund {
                        Some(f) => f.account_id@ == predecessor_account_id@ && f.amount
                            == attached_deposit && attached_deposit > 1,
                        None => attached_deposit <= 1,
                    }
                },
                Err(e) => {
                    &&& *final(self) == *old(self)
                    &&& if predecessor_account_id@ != old(self).spec_owner() {
                        e == crate::Error::Unauthorized
                    } else if !old(self).has_title(token_type_title@) {
                        e == crate::Error::NotFound
                    } else {
                        e == crate::Error::AlreadyExists
                    }
                },
            },
    {
        let ghost pre = *old(self);
        if !crate::metadata::account_eq(predecessor_account_id, &self.tokens().owner_id) {
            return Err(crate::Error::Unauthorized);
        }
        let j = match self.find_title_index(&token_type_title) {
            Some(j) => j,
            None => {
                return Err(crate::Error::NotFound);
            },
        };
        proof {
            assert(pre.title_pairs()[j as int].0 == token_type_title@);
            assert(pre.has_title(token_type_title@));
            crate::assoc::lemma_idx_of_unique(pre.title_pairs(), j as int);
        }
        let token_type_id = self.token_type_by_title[j].1;
        let i = match self.find_type_index(token_type_id) {
            Some(i) => i,
            None => {
                proof {
                    assert(false);
                }
                return Err(crate::Error::NotFound);
            },
        };
        proof {
            crate::assoc::lemma_idx_of_unique(pre.type_pairs(), i as int);
        }
        let mut token_type = self.token_type_by_id[i].1.duplicate_normalized();
        let mut retitled = false;
        let mut new_title: Option<TokenTypeTitle> = None;
        match &metadata {
            Some(m) => {
                match (&m.title, &token_type.metadata.title) {
                    (Some(t), Some(current)) => {
                        if !crate::metadata::account_eq(t, current) {
                            match self.find_title_index(t) {
                                Some(c) => {
                                    proof {
                                        assert(pre.title_pairs()[c as int].0 == t@);
                                        assert(pre.has_title(t@));
                                    }
                                    return Err(crate::Error::AlreadyExists);
                                },
                                None => {},
                            }
                            retitled = true;
                            new_title = Some(t.clone());
                            token_type.metadata.title = Some(t.clone());
                        }
                    },
                    _ => {},
                }
                token_type.metadata.description = clone_opt_string(&m.description);
            },
            None => {},
        }
        match royalty {
            Some(v) => {
                token_type.royalty = v;
            },
            None => {},
        }
        let ghost info2 = token_type@;
        if retitled {
            let t = match new_title {
                Some(t) => t,
                None => {
                    proof {
                        assert(false);
                    }
                    return Err(crate::Error::NotFound);
                },
            };
            self.token_type_by_title.remove(j);
            self.token_type_by_title.push((t, token_type_id));
        }
        self.token_type_by_id.set(i, (token_type_id, VersionedTokenType::Current(token_type)));
        proof {
            assert(final(self).type_pairs() =~= pre.type_pairs().update(
                i as int,
                (token_type_id, info2),
            ));
            if retitled {
                assert(final(self).title_pairs() =~= pre.title_pairs().remove(j as int).push(
                    (info2.metadata.title->0@, token_type_id),
                ));
                lemma_tables_retitle(
                    pre.type_pairs(),
                    pre.title_pairs(),
                    pre.asset_pairs(),
                    pre.next_token_type_id,
                    i as int,
                    j as int,
                    info2,
                    pre.nft(),
                );
                crate::assoc::lemma_map_binding(
                    final(self).title_pairs(),
                    info2.metadata.title->0@,
                );
            } else {
                lemma_tables_update_record(
                    pre.type_pairs(),
                    pre.title_pairs(),
                    pre.asset_pairs(),
                    pre.next_token_type_id,
                    i as int,
                    info2,
                    pre.nft(),
                );
                crate::assoc::lemma_map_binding(
                    final(self).title_pairs(),
                    info2.metadata.title->0@,
                );
            }
            crate::assoc::lemma_idx_of_unique(final(self).type_pairs(), i as int);
        }
        if attached_deposit > 1 {
            Ok(Some(crate::utils::Refund {
                account_id: predecessor_account_id.clone(),
                amount: attached_deposit,
            }))
        } else {
            Ok(None)
        }
    }

    /// Deletes a series that has minted nothing yet: its record, its title
    /// and its asset pool all go, and the title becomes reusable. A series
    /// with at least one minted token can never be deleted. Only the
    /// registry owner may; the attached deposit comes back in full.
    pub fn nft_delete_type(
        &mut self,
        token_type_title: TokenTypeTitle,
        predecessor_account_id: &AccountId,
        attached_deposit: u128,
    ) -> (r: Result<Option<crate::utils::Refund>, crate::Error>)
        requires
            old(self).wf(),
        ensures
            r is Err <==> (predecessor_account_id@ != old(self).spec_owner() || !old(
                self,
            ).has_title(token_type_title@) || old(self).type_at(
                old(self).title_at(token_type_title@),
            ).tokens.len() >= 1),
            match r {
                Ok(refund) => {
                    let id = old(self).title_at(token_type_title@);
                    &&& final(self).wf()
                    &&& !final(self).has_type(id)
                    &&& !final(self).has_title(token_type_title@)
                    &&& !final(self).has_assets(id)
                    &&& final(self).type_map() == old(self).type_map().remove(id)
                    &&& crate::assoc::as_map(final(self).title_pairs()) == crate::assoc::as_map(
                        old(self).title_pairs(),
                    ).remove(token_type_title@)
                    &&& final(self).tokens == old(self).tokens
                    &&& final(self).next_token_type_id == old(self).next_token_type_id
                    &&& match refund {
                        Some(f) => f.account_id@ == predecessor_account_id@ && f.amount
                            == attached_deposit && attached_deposit > 1,
                        None => attached_deposit <= 1,
                    }
                },
                Err(e) => {
                    &&& *final(self) == *old(self)
                    &&& if predecessor_account_id@ != old(self).spec_owner() {
                        e == crate::Error::Unauthorized
                    } else if !old(self).has_title(token_type_title@) {
                        e == crate::Error::NotFound
                    } else {
                        e == crate::Error::NotEmpty
                    }
                },
            },
    {
        let ghost pre = *old(self);
        if !crate::metadata::account_eq(predecessor_account_id, &self.tokens().owner_id) {
            return Err(crate::Error::Unauthorized);
        }
        let j = match self.find_title_index(&token_type_title) {
            Some(j) => j,
            None => {
                return Err(crate::Error::NotFound);
            },
        };
        proof {
            assert(pre.title_pairs()[j as int].0 == token_type_title@);
            assert(pre.has_title(token_type_title@));
            crate::assoc::lemma_idx_of_unique(pre.title_pairs(), j as int);
        }
        let token_type_id = self.token_type_by_title[j].1;
        let i = match self.find_type_index(token_type_id) {
            Some(i) => i,
            None => {
                proof {
                    assert(false);
                }
                return Err(crate::Error::NotFound);
            },
        };
        proof {
            crate::assoc::lemma_idx_of_unique(pre.type_pairs(), i as int);
        }
        // a series that minted anything is permanent
        let num_tokens = match &self.token_type_by_id[i].1 {
            VersionedTokenType::Current(t) => t.tokens.len(),
            VersionedTokenType::V1(v1) => v1.tokens.len(),
        };
        if num_tokens >= 1 {
            return Err(crate::Error::NotEmpty);
        }
        self.token_type_by_id.remove(i);
        self.token_type_by_title.remove(j);
        let k_found = self.find_assets_index(token_type_id);
        match k_found {
            Some(k) => {
                proof {
                    assert(pre.asset_pairs()[k as int].0 == token_type_id);
                    crate::assoc::lemma_idx_of_unique(pre.asset_pairs(), k as int);
                }
                self.token_type_assets_by_id.remove(k);
            },
            None => {},
        }
        proof {
            assert(final(self).type_pairs() =~= pre.type_pairs().remove(i as int));
            assert(final(self).title_pairs() =~= pre.title_pairs().remove(j as int));
            crate::assoc::lemma_remove_at(pre.type_pairs(), i as int);
            crate::assoc::lemma_remove_at(pre.title_pairs(), j as int);
            match k_found {
                Some(k) => {
                    assert(final(self).asset_pairs() =~= pre.asset_pairs().remove(k as int));
                    crate::assoc::lemma_remove_at(pre.asset_pairs(), k as int);
                },
                None => {
                    assert(final(self).asset_pairs() == pre.asset_pairs());
                    assert(crate::assoc::as_map(pre.asset_pairs()).remove(token_type_id)
                        =~= crate::assoc::as_map(pre.asset_pairs()));
                },
            }
            lemma_tables_delete(
                pre.type_pairs(),
                pre.title_pairs(),
                pre.asset_pairs(),
                pre.next_token_type_id,
                i as int,
                j as int,
                final(self).asset_pairs(),
                pre.nft(),
            );
            crate::assoc::lemma_map_binding(final(self).type_pairs(), token_type_id);
            crate::assoc::lemma_map_binding(final(self).title_pairs(), token_type_title@);
            crate::assoc::lemma_map_binding(final(self).asset_pairs(), token_type_id);
        }
        if attached_deposit > 1 {
            Ok(Some(crate::utils::Refund {
                account_id: predecessor_account_id.clone(),
                amount: attached_deposit,
            }))
        } else {
            Ok(None)
        }
    }

    /// Repoints an existing single-asset series at a new content address:
    /// the series' `media` becomes the new directory, the one asset's
    /// filename becomes the cover asset, its remaining supply is recomputed
    /// as the cap minus the minted count, and every already minted token's
    /// stored media filename is rewritten to the new asset filename. Only
    /// the registry owner may; the deposit comes back in full.
    pub fn patch_media_and_assets_for_token_type(
        &mut self,
        token_type_title: TokenTypeTitle,
        media: String,
        assets: Vec<AssetDetail>,
        predecessor_account_id: &AccountId,
        attached_deposit: u128,
    ) -> (r: Result<Option<crate::utils::Refund>, crate::Error>)
        requires
            old(self).wf(),
            // this path exists for series that have exactly one asset
            assets@.len() == 1,
            // the series must carry a cap for the supply to be recomputed
            old(self).has_title(token_type_title@) ==> old(self).type_at(
                old(self).title_at(token_type_title@),
            ).metadata.copies is Some,
        ensures
            r is Err <==> (predecessor_account_id@ != old(self).spec_owner() || !old(
                self,
            ).has_title(token_type_title@)),
            match r {
                Ok(refund) => {
                    let id = old(self).title_at(token_type_title@);
                    let oldinfo = old(self).type_at(id);
                    let supply_remaining = oldinfo.metadata.copies->0 - oldinfo.tokens.len();
                    &&& final(self).wf()
                    &&& final(self).has_type(id)
                    &&& final(self).type_at(id) == (TypeInfo {
                        metadata: crate::metadata::TokenTypeMetadata {
                            media: Some(media),
                            ..oldinfo.metadata
                        },
                        cover_asset: Some(assets@[0].filename),
                        ..oldinfo
                    })
                    // the pool holds the one asset with the recomputed
                    // supply, or nothing when the series is minted out
                    &&& final(self).has_assets(id)
                    &&& (supply_remaining > 0 ==> final(self).assets_at(id) =~= seq![
                        (AssetInfo {
                            supply_remaining: supply_remaining as u64,
                            ..assets@[0]@
                        }),
                    ])
                    &&& (supply_remaining <= 0 ==> final(self).assets_at(id) =~= Seq::<
                        AssetInfo,
                    >::empty())
                    // every minted token now points at the new asset
                    &&& forall|k: int|
                        0 <= k < oldinfo.tokens.len() ==> {
                            let t = final(self).nft().token_at(#[trigger] oldinfo.tokens[k]);
                            let om = old(self).nft().token_at(oldinfo.tokens[k]);
                            &&& final(self).nft().has_token(oldinfo.tokens[k])
                            &&& t.owner_id == om.owner_id
                            &&& t.approvals == om.approvals
                            &&& t.next_approval_id == om.next_approval_id
                            &&& crate::metadata::spec_normalize_token_metadata(
                                t.metadata,
                            ).media == Some(assets@[0].filename)
                        }
                    &&& final(self).token_type_by_title == old(self).token_type_by_title
                    &&& final(self).next_token_type_id == old(self).next_token_type_id
                    &&& match refund {
                        Some(f) => f.account_id@ == predecessor_account_id@ && f.amount
                            == attached_deposit && attached_deposit > 1,
                        None => attached_deposit <= 1,
                    }
                },
                Err(e) => {
                    &&& *final(self) == *old(self)
                    &&& if predecessor_account_id@ != old(self).spec_owner() {
                        e == crate::Error::Unauthorized
                    } else {
                        e == crate::Error::NotFound
                    }
                },
            },
    {
        let ghost pre = *old(self);
        if !crate::metadata::account_eq(predecessor_account_id, &self.tokens().owner_id) {
            return Err(crate::Error::Unauthorized);
        }
        let j = match self.find_title_index(&token_type_title) {
            Some(j) => j,
            None => {
                return Err(crate::Error::NotFound);
            },
        };
        proof {
            assert(pre.title_pairs()[j as int].0 == token_type_title@);
            assert(pre.has_title(token_type_title@));
            crate::assoc::lemma_idx_of_unique(pre.title_pairs(), j as int);
        }
        let token_type_id = self.token_type_by_title[j].1;
        let i = match self.find_type_index(token_type_id) {
            Some(i) => i,
            None => {
                proof {
                    assert(false);
                }
                return Err(crate::Error::NotFound);
            },
        };
        proof {
            crate::assoc::lemma_idx_of_unique(pre.type_pairs(), i as int);
        }
        let mut token_type = self.token_type_by_id[i].1.duplicate_normalized();
        let asset_filename = assets[0].filename.clone();
        let extra_filename = assets[0].extra_filename.clone();
        token_type.metadata.media = Some(media);
        token_type.cover_asset = Some(asset_filename.clone());
        let num_minted = token_type.tokens.len();
        let copies = match token_type.metadata.copies {
            Some(c) => c,
            None => {
                proof {
                    assert(false);
                }
                return Err(crate::Error::NotFound);
            },
        };
        let supply_remaining = copies - num_minted as u64;
        // rewrite every minted token's stored media filename
        let token_ids = clone_token_ids(&token_type.tokens);
        let ghost minted_list = pre.type_at(token_type_id).tokens;
        let n = token_ids.len();
        for k in 0..n
            invariant
                n == token_ids@.len(),
                token_ids@ == minted_list,
                minted_list == pre.type_at(token_type_id).tokens,
                asset_filename == assets@[0].filename,
                pre.wf(),
                i < pre.token_type_by_id@.len(),
                pre.type_pairs()[i as int] == (token_type_id, pre.type_at(token_type_id)),
                self.wf(),
                self.nft().owner_id == pre.nft().owner_id,
                self.nft().extra_storage_in_bytes_per_token == pre.nft(
                ).extra_storage_in_bytes_per_token,
                self.token_type_by_title == pre.token_type_by_title,
                self.token_type_by_id == pre.token_type_by_id,
                self.token_type_assets_by_id == pre.token_type_assets_by_id,
                self.next_token_type_id == pre.next_token_type_id,
                self.metadata == pre.metadata,
                self.contract_metadata == pre.contract_metadata,
                forall|x: crate::metadata::TokenId| self.nft().has_token(x) == pre.nft().has_token(
                    x,
                ),
                forall|w: int|
                    0 <= w < k ==> {
                        let t = self.nft().token_at(#[trigger] minted_list[w]);
                        let om = pre.nft().token_at(minted_list[w]);
                        &&& t.owner_id == om.owner_id
                        &&& t.approvals == om.approvals
                        &&& t.next_approval_id == om.next_approval_id
                        &&& crate::metadata::spec_normalize_token_metadata(t.metadata).media
                            == Some(assets@[0].filename)
                    },
                forall|w: int|
                    k <= w < n ==> self.nft().token_at(#[trigger] minted_list[w]) == pre.nft(
                    ).token_at(minted_list[w]),
        {
            let ghost step_pre = *self;
            proof {
                // the minted edition is in the ledger by the invariant
                assert(pre.type_pairs()[i as int].1.tokens[k as int] == minted_list[k as int]);
                assert(pre.nft().has_token(minted_list[k as int]));
                assert(self.nft().has_token(minted_list[k as int]));
            }
            let tid = token_ids[k];
            let nft = self.tokens_mut();
            nft.set_token_media(&tid, &asset_filename);
            proof {
                assert(self.type_pairs() == step_pre.type_pairs());
                crate::lemma_cross_ok_same_domain(
                    self.type_pairs(),
                    step_pre.nft(),
                    self.nft(),
                );
                assert(crate::nft_type::type_info_wf(
                    token_type_id,
                    pre.type_at(token_type_id),
                ));
                assert forall|w: int| 0 <= w < k + 1 implies {
                    let t = self.nft().token_at(#[trigger] minted_list[w]);
                    let om = pre.nft().token_at(minted_list[w]);
                    &&& t.owner_id == om.owner_id
                    &&& t.approvals == om.approvals
                    &&& t.next_approval_id == om.next_approval_id
                    &&& crate::metadata::spec_normalize_token_metadata(t.metadata).media == Some(
                        assets@[0].filename,
                    )
                } by {
                    crate::assoc::lemma_map_binding(self.nft().token_pairs(), minted_list[w]);
                    crate::assoc::lemma_map_binding(step_pre.nft().token_pairs(), minted_list[w]);
                    if w < k {
                        // earlier rewrites survive: this update bound a
                        // different edition
                        assert(minted_list[w] == (crate::metadata::TokenId {
                            token_type_id,
                            edition: (w + 1) as u64,
                        }));
                        assert(minted_list[k as int] == (crate::metadata::TokenId {
                            token_type_id,
                            edition: (k + 1) as u64,
                        }));
                        assert(minted_list[w] != minted_list[k as int]);
                        assert(self.nft().token_map()[minted_list[w]] == step_pre.nft().token_map(
                        )[minted_list[w]]);
                    } else {
                        assert(step_pre.nft().token_at(minted_list[w]) == pre.nft().token_at(
                            minted_list[w],
                        ));
                    }
                }
                // later editions are still untouched
                assert forall|w: int|
                    k + 1 <= w < n implies self.nft().token_at(#[trigger] minted_list[w])
                    == pre.nft().token_at(minted_list[w]) by {
                    crate::assoc::lemma_map_binding(self.nft().token_pairs(), minted_list[w]);
                    crate::assoc::lemma_map_binding(step_pre.nft().token_pairs(), minted_list[w]);
                    assert(minted_list[w] == (crate::metadata::TokenId {
                        token_type_id,
                        edition: (w + 1) as u64,
                    }));
                    assert(minted_list[k as int] == (crate::metadata::TokenId {
                        token_type_id,
                        edition: (k + 1) as u64,
                    }));
                    assert(minted_list[w] != minted_list[k as int]);
                    assert(self.nft().token_map()[minted_list[w]] == step_pre.nft().token_map(
                    )[minted_list[w]]);
                    assert(step_pre.nft().token_at(minted_list[w]) == pre.nft().token_at(
                        minted_list[w],
                    ));
                }
            }
        }
        // rebind the pool: the one asset with the recomputed supply, or
        // nothing when the series is minted out
        let mut new_assets: Vec<AssetDetail> = Vec::new();
        if supply_remaining > 0 {
            new_assets.push(
                AssetDetail { filename: asset_filename, supply_remaining, extra_filename },
            );
        }
        let ghost newpool = assets_view(new_assets@);
        let ghost mid = *self;
        let ghost info2 = token_type@;
        self.token_type_by_id.set(i, (token_type_id, VersionedTokenType::Current(token_type)));
        match self.find_assets_index(token_type_id) {
            Some(ka) => {
                proof {
                    assert(mid.asset_pairs()[ka as int].0 == token_type_id);
                    crate::assoc::lemma_idx_of_unique(mid.asset_pairs(), ka as int);
                }
                self.token_type_assets_by_id.set(ka, (token_type_id, new_assets));
                proof {
                    assert(final(self).asset_pairs() =~= mid.asset_pairs().update(
                        ka as int,
                        (token_type_id, newpool),
                    ));
                    crate::assoc::lemma_update_value(mid.asset_pairs(), ka as int, newpool);
                }
            },
            None => {
                self.token_type_assets_by_id.push((token_type_id, new_assets));
                proof {
                    assert(final(self).asset_pairs() =~= mid.asset_pairs().push(
                        (token_type_id, newpool),
                    ));
                    crate::assoc::lemma_push_fresh(mid.asset_pairs(), token_type_id, newpool);
                }
            },
        }
        proof {
            assert(final(self).type_pairs() =~= mid.type_pairs().update(
                i as int,
                (token_type_id, info2),
            ));
            assert(mid.type_pairs() == pre.type_pairs());
            lemma_tables_set_pool_and_record(
                mid.type_pairs(),
                mid.title_pairs(),
                mid.asset_pairs(),
                mid.next_token_type_id,
                i as int,
                info2,
                final(self).asset_pairs(),
                newpool,
                mid.nft(),
            );
            crate::assoc::lemma_idx_of_unique(final(self).type_pairs(), i as int);
            crate::assoc::lemma_map_binding(final(self).asset_pairs(), token_type_id);
            crate::assoc::lemma_idx_of_unique(pre.type_pairs(), i as int);
            assert(info2 =~= (TypeInfo {
                metadata: crate::metadata::TokenTypeMetadata {
                    media: Some(media),
                    ..pre.type_at(token_type_id).metadata
                },
                cover_asset: Some(assets@[0].filename),
                ..pre.type_at(token_type_id)
            }));
        }
        if attached_deposit > 1 {
            Ok(Some(crate::utils::Refund {
                account_id: predecessor_account_id.clone(),
                amount: attached_deposit,
            }))
        } else {
            Ok(None)
        }
    }

    /// Mints the next edition of a series to `receiver_id`, drawing its
    /// asset generatively: the host's entropy word picks the pool entry as
    /// `seed mod len(pool)`, that entry's supply drops by one (leaving the
    /// pool once empty), and the new token's sequence number is one past
    /// the minted count — asset assignment and numbering are independent.
    /// Only the series owner may, with a deposit covering one token's
    /// storage. Returns the token view, the mint event and the refund.
    pub fn nft_mint_type(
        &mut self,
        token_type_title: TokenTypeTitle,
        receiver_id: AccountId,
        _metadata: Option<crate::metadata::TokenMetadata>,
        random_value: u128,
        predecessor_account_id: &AccountId,
        attached_deposit: u128,
    ) -> (r: Result<(crate::metadata::Token, crate::events::EventLog, Option<crate::utils::Refund>), crate::Error>)
        requires
            old(self).wf(),
        ensures
            r is Ok <==> spec_mint_outcome(
                *old(self),
                token_type_title@,
                predecessor_account_id@,
                attached_deposit,
            ) is Ok,
            match r {
                Ok((token, event, refund)) => {
                    let id = old(self).title_at(token_type_title@);
                    let oldinfo = old(self).type_at(id);
                    let pool = old(self).assets_at(id);
                    let k = (random_value % (pool.len() as u128)) as int;
                    let drawn = pool[k];
                    let token_id = crate::metadata::TokenId {
                        token_type_id: id,
                        edition: (oldinfo.tokens.len() + 1) as u64,
                    };
                    let cost = old(self).nft().extra_storage_in_bytes_per_token as int
                        * crate::utils::STORAGE_PRICE_PER_BYTE as int;
                    &&& final(self).wf()
                    // the ledger gained exactly this token
                    &&& !old(self).nft().has_token(token_id)
                    &&& final(self).nft().has_token(token_id)
                    &&& ({
                        let t = final(self).nft().token_at(token_id);
                        let md = crate::metadata::spec_normalize_token_metadata(t.metadata);
                        &&& t.owner_id == receiver_id@
                        &&& t.approvals.len() == 0
                        &&& t.next_approval_id == 1
                        &&& md.title is None
                        &&& md.description is None
                        &&& md.copies is None
                        &&& (md.media matches Some(f) && f@ == drawn.filename)
                        &&& (drawn.extra_filename.len() > 0 ==> (md.extra matches Some(e) && e@
                            == drawn.extra_filename))
                        &&& (drawn.extra_filename.len() == 0 ==> md.extra is None)
                    })
                    &&& final(self).nft().token_map() == old(self).nft().token_map().insert(
                        token_id,
                        final(self).nft().token_at(token_id),
                    )
                    // the series' minted list gained exactly this edition
                    &&& final(self).has_type(id)
                    &&& final(self).type_at(id) == (TypeInfo {
                        tokens: oldinfo.tokens.push(token_id),
                        ..oldinfo
                    })
                    &&& final(self).type_map() == old(self).type_map().insert(
                        id,
                        final(self).type_at(id),
                    )
                    // the pool lost exactly one unit of the drawn entry
                    &&& final(self).has_assets(id)
                    &&& final(self).assets_at(id) == (if drawn.supply_remaining > 1 {
                        pool.update(
                            k,
                            (AssetInfo {
                                supply_remaining: (drawn.supply_remaining - 1) as u64,
                                ..drawn
                            }),
                        )
                    } else {
                        pool.remove(k)
                    })
                    &&& spec_pool_supply(final(self).assets_at(id)) == spec_pool_supply(pool) - 1
                    &&& crate::assoc::as_map(final(self).asset_pairs()) == crate::assoc::as_map(
                        old(self).asset_pairs(),
                    ).insert(id, final(self).assets_at(id))
                    &&& final(self).token_type_by_title == old(self).token_type_by_title
                    &&& final(self).next_token_type_id == old(self).next_token_type_id
                    &&& final(self).nft().owner_id == old(self).nft().owner_id
                    &&& final(self).nft().extra_storage_in_bytes_per_token == old(
                        self,
                    ).nft().extra_storage_in_bytes_per_token
                    // the returned view, the event, the refund
                    &&& token.token_id == token_id
                    &&& token.owner_id@ == receiver_id@
                    &&& crate::events::is_mint_event(event, receiver_id@, token_id)
                    &&& match refund {
                        Some(f) => f.account_id@ == predecessor_account_id@ && f.amount
                            == attached_deposit - cost && attached_deposit - cost > 1,
                        None => attached_deposit - cost <= 1,
                    }
                },
                Err(e) => {
                    &&& *final(self) == *old(self)
                    &&& Err::<(), crate::Error>(e) == spec_mint_outcome(
                        *old(self),
                        token_type_title@,
                        predecessor_account_id@,
                        attached_deposit,
                    )
                },
            },
    {
        let ghost pre = *old(self);
        if !crate::metadata::account_eq(predecessor_account_id, &self.tokens().owner_id) {
            return Err(crate::Error::Unauthorized);
        }
        let j = match self.find_title_index(&token_type_title) {
            Some(j) => j,
            None => {
                return Err(crate::Error::NotFound);
            },
        };
        proof {
            assert(pre.title_pairs()[j as int].0 == token_type_title@);
            assert(pre.has_title(token_type_title@));
            crate::assoc::lemma_idx_of_unique(pre.title_pairs(), j as int);
        }
        let token_type_id = self.token_type_by_title[j].1;
        let i = match self.find_type_index(token_type_id) {
            Some(i) => i,
            None => {
                proof {
                    assert(false);
                }
                return Err(crate::Error::NotFound);
            },
        };
        proof {
            crate::assoc::lemma_idx_of_unique(pre.type_pairs(), i as int);
        }
        let mut token_type = self.token_type_by_id[i].1.duplicate_normalized();
        if !crate::metadata::account_eq(predecessor_account_id, &token_type.owner_id) {
            return Err(crate::Error::Unauthorized);
        }
        let num_tokens = token_type.tokens.len();
        let max_copies: u64 = match token_type.metadata.copies {
            Some(c) => c,
            None => u64::MAX,
        };
        if num_tokens as u64 == max_copies {
            return Err(crate::Error::SupplyExhausted);
        }
        let k_i = match self.find_assets_index(token_type_id) {
            Some(k_i) => k_i,
            None => {
                return Err(crate::Error::NotFound);
            },
        };
        proof {
            assert(pre.asset_pairs()[k_i as int].0 == token_type_id);
            assert(pre.has_assets(token_type_id));
            crate::assoc::lemma_idx_of_unique(pre.asset_pairs(), k_i as int);
        }
        let pool_len = self.token_type_assets_by_id[k_i].1.len();
        if pool_len == 0 {
            return Err(crate::Error::SupplyExhausted);
        }
        let required_cost = self.tokens().extra_storage_in_bytes_per_token as u128
            * crate::utils::STORAGE_PRICE_PER_BYTE;
        if required_cost > attached_deposit {
            return Err(crate::Error::InsufficientDeposit);
        }
        let ghost pool = pre.assets_at(token_type_id);
        // the draw is `seed mod len(pool)`: deterministic in the seed, so
        // every mint can be replayed
        let random_asset_idx = (random_value % (pool_len as u128)) as usize;
        let asset_detail = self.token_type_assets_by_id[k_i].1[random_asset_idx].duplicate();
        let asset_filename = asset_detail.filename.clone();
        let supply_remaining = asset_detail.supply_remaining;
        let extra_filename = asset_detail.extra_filename.clone();
        let mut new_assets = clone_assets(&self.token_type_assets_by_id[k_i].1);
        if supply_remaining > 1 {
            // supply left: lower it by one
            new_assets.set(
                random_asset_idx,
                AssetDetail {
                    filename: asset_filename.clone(),
                    supply_remaining: supply_remaining - 1,
                    extra_filename: extra_filename.clone(),
                },
            );
        } else {
            // last unit drawn: the entry leaves the pool
            new_assets.remove(random_asset_idx);
        }
        let ghost newpool = assets_view(new_assets@);
        proof {
            if supply_remaining > 1 {
                assert(newpool =~= pool.update(
                    random_asset_idx as int,
                    (AssetInfo { supply_remaining: (supply_remaining - 1) as u64, ..pool[random_asset_idx as int] }),
                ));
                lemma_pool_supply_update(
                    pool,
                    random_asset_idx as int,
                    newpool[random_asset_idx as int],
                );
            } else {
                assert(newpool =~= pool.remove(random_asset_idx as int));
                lemma_pool_supply_remove(pool, random_asset_idx as int);
                assert(pool[random_asset_idx as int].supply_remaining == 1);
            }
        }
        let final_metadata = crate::metadata::TokenMetadata {
            title: None,
            description: None,
            media: Some(asset_filename),
            copies: None,
            extra: if extra_filename.as_str().unicode_len() > 0 {
                Some(extra_filename)
            } else {
                None
            },
        };
        let token_id = crate::metadata::TokenId {
            token_type_id,
            edition: num_tokens as u64 + 1,
        };
        proof {
            // the id is fresh: the ledger holds only editions up to the
            // minted count
            if pre.nft().has_token(token_id) {
                assert(token_id.edition <= pre.type_at(token_type_id).tokens.len());
            }
        }
        token_type.tokens.push(token_id);
        let ghost info2 = token_type@;
        self.token_type_by_id.set(i, (token_type_id, VersionedTokenType::Current(token_type)));
        self.token_type_assets_by_id.set(k_i, (token_type_id, new_assets));
        let ghost mid = *self;
        let nft = self.tokens_mut();
        let minted = nft.internal_mint(
            token_id,
            receiver_id.clone(),
            crate::metadata::VersionedTokenMetadata::Current(final_metadata),
        );
        let token = match minted {
            Ok(token) => token,
            Err(_) => {
                proof {
                    assert(false);
                }
                return Err(crate::Error::AlreadyExists);
            },
        };
        let mut token_ids: Vec<crate::metadata::TokenId> = Vec::new();
        token_ids.push(token_id);
        let event = crate::events::EventLog::NftMint(
            crate::events::MintData { owner_id: receiver_id, token_ids },
        );
        proof {
            assert(final(self).type_pairs() =~= pre.type_pairs().update(
                i as int,
                (token_type_id, info2),
            ));
            assert(final(self).asset_pairs() =~= pre.asset_pairs().update(
                k_i as int,
                (token_type_id, newpool),
            ));
            crate::assoc::lemma_update_value(pre.asset_pairs(), k_i as int, newpool);
            assert forall|x: crate::metadata::TokenId| #[trigger]
                final(self).nft().has_token(x) == (pre.nft().has_token(x) || x == token_id) by {
                crate::assoc::lemma_map_binding(final(self).nft().token_pairs(), x);
                crate::assoc::lemma_map_binding(pre.nft().token_pairs(), x);
            }
            lemma_tables_mint(
                pre.type_pairs(),
                pre.title_pairs(),
                pre.asset_pairs(),
                pre.next_token_type_id,
                i as int,
                info2,
                token_id,
                final(self).asset_pairs(),
                newpool,
                pre.nft(),
                final(self).nft(),
            );
            crate::assoc::lemma_idx_of_unique(final(self).type_pairs(), i as int);
            crate::assoc::lemma_idx_of_unique(final(self).asset_pairs(), k_i as int);
            crate::assoc::lemma_map_binding(final(self).nft().token_pairs(), token_id);
            assert(info2 =~= (TypeInfo {
                tokens: pre.type_at(token_type_id).tokens.push(token_id),
                ..pre.type_at(token_type_id)
            }));
        }
        let refund_amount = attached_deposit - required_cost;
        let refund = if refund_amount > 1 {
            Some(crate::utils::Refund {
                account_id: predecessor_account_id.clone(),
                amount: refund_amount,
            })
        } else {
            None
        };
        Ok((token, event, refund))
    }

    /// Mints one token to each listed receiver, in order. Allowed only for
    /// series created with a single asset, since every draw in the batch
    /// would reuse the same entropy word; capped at 1000 receivers. Only
    /// the registry owner may, with a deposit covering every token's
    /// storage.
    pub fn nft_batch_mint_type(
        &mut self,
        token_type_title: TokenTypeTitle,
        receiver_ids: Vec<AccountId>,
        random_value: u128,
        predecessor_account_id: &AccountId,
        attached_deposit: u128,
    ) -> (r: Result<
        (Vec<crate::metadata::Token>, Vec<crate::events::EventLog>, Option<crate::utils::Refund>),
        crate::Error,
    >)
        requires
            old(self).wf(),
            old(self).nft().extra_storage_in_bytes_per_token < 0x1_0000_0000,
        ensures
            r is Ok <==> spec_batch_mint_outcome(
                *old(self),
                token_type_title@,
                receiver_ids@.len() as int,
                predecessor_account_id@,
                attached_deposit,
            ) is Ok,
            match r {
                Ok((tokens, events, refund)) => {
                    let id = old(self).title_at(token_type_title@);
                    let oldinfo = old(self).type_at(id);
                    let n = receiver_ids@.len() as int;
                    let cost = old(self).nft().extra_storage_in_bytes_per_token as int
                        * crate::utils::STORAGE_PRICE_PER_BYTE as int;
                    &&& final(self).wf()
                    &&& tokens@.len() == n
                    &&& events@.len() == n
                    &&& final(self).has_type(id)
                    &&& final(self).type_at(id).tokens.len() == oldinfo.tokens.len() + n
                    &&& final(self).has_assets(id)
                    &&& spec_pool_supply(final(self).assets_at(id)) == spec_pool_supply(
                        old(self).assets_at(id),
                    ) - n
                    &&& forall|q: int|
                        0 <= q < n ==> {
                            let tid = crate::metadata::TokenId {
                                token_type_id: id,
                                edition: (oldinfo.tokens.len() + q + 1) as u64,
                            };
                            &&& (#[trigger] tokens@[q]).token_id == tid
                            &&& tokens@[q].owner_id@ == receiver_ids@[q]@
                            &&& final(self).nft().has_token(tid)
                            &&& final(self).nft().token_at(tid).owner_id == receiver_ids@[q]@
                            &&& crate::events::is_mint_event(events@[q], receiver_ids@[q]@, tid)
                        }
                    &&& final(self).token_type_by_title == old(self).token_type_by_title
                    &&& final(self).next_token_type_id == old(self).next_token_type_id
                    &&& match refund {
                        Some(f) => f.account_id@ == predecessor_account_id@ && f.amount
                            == attached_deposit - n * cost && attached_deposit - n * cost > 1,
                        None => attached_deposit - n * cost <= 1,
                    }
                },
                Err(e) => {
                    &&& *final(self) == *old(self)
                    &&& Err::<(), crate::Error>(e) == spec_batch_mint_outcome(
                        *old(self),
                        token_type_title@,
                        receiver_ids@.len() as int,
                        predecessor_account_id@,
                        attached_deposit,
                    )
                },
            },
    {
        let ghost pre = *old(self);
        let j = match self.find_title_index(&token_type_title) {
            Some(j) => j,
            None => {
                return Err(crate::Error::NotFound);
            },
        };
        proof {
            assert(pre.title_pairs()[j as int].0 == token_type_title@);
            assert(pre.has_title(token_type_title@));
            crate::assoc::lemma_idx_of_unique(pre.title_pairs(), j as int);
        }
        let token_type_id = self.token_type_by_title[j].1;
        let i = match self.find_type_index(token_type_id) {
            Some(i) => i,
            None => {
                proof {
                    assert(false);
                }
                return Err(crate::Error::NotFound);
            },
        };
        proof {
            crate::assoc::lemma_idx_of_unique(pre.type_pairs(), i as int);
        }
        let token_type = self.token_type_by_id[i].1.duplicate_normalized();
        // one entropy word cannot draw fairly from a pool of several assets
        if token_type.asset_count != 1 {
            return Err(crate::Error::SupplyMismatch);
        }
        if !crate::metadata::account_eq(predecessor_account_id, &self.tokens().owner_id) {
            return Err(crate::Error::Unauthorized);
        }
        let n = receiver_ids.len();
        if n > 1000 {
            return Err(crate::Error::TooManyRecipients);
        }
        if !crate::metadata::account_eq(predecessor_account_id, &token_type.owner_id) {
            return Err(crate::Error::Unauthorized);
        }
        let num_tokens = token_type.tokens.len();
        let max_copies: u64 = match token_type.metadata.copies {
            Some(c) => c,
            None => u64::MAX,
        };
        // the whole batch must fit: no partial batch is ever minted
        if (n as u64) > max_copies - (num_tokens as u64) {
            return Err(crate::Error::SupplyExhausted);
        }
        let k_i = match self.find_assets_index(token_type_id) {
            Some(k_i) => k_i,
            None => {
                return Err(crate::Error::NotFound);
            },
        };
        proof {
            assert(pre.asset_pairs()[k_i as int].0 == token_type_id);
            assert(pre.has_assets(token_type_id));
            crate::assoc::lemma_idx_of_unique(pre.asset_pairs(), k_i as int);
        }
        let ghost pool0 = pre.assets_at(token_type_id);
        let mut pool_supply: u128 = 0;
        let pool_len = self.token_type_assets_by_id[k_i].1.len();
        for q in 0..pool_len
            invariant
                pool_len == self.token_type_assets_by_id@[k_i as int].1@.len(),
                k_i < self.token_type_assets_by_id@.len(),
                pool0 == assets_view(self.token_type_assets_by_id@[k_i as int].1@),
                pool_supply == spec_pool_supply(pool0.take(q as int)),
                pool_supply <= q as u128 * 0xffff_ffff_ffff_ffff,
                q <= pool_len <= u64::MAX,
        {
            proof {
                assert(pool0.take(q as int + 1).drop_last() =~= pool0.take(q as int));
                assert(pool0.take(q as int + 1).last() == pool0[q as int]);
            }
            pool_supply = pool_supply + self.token_type_assets_by_id[k_i].1[q].supply_remaining
                as u128;
        }
        proof {
            assert(pool0.take(pool_len as int) =~= pool0);
        }
        if (n as u128) > pool_supply {
            return Err(crate::Error::SupplyExhausted);
        }
        let cost = self.tokens().extra_storage_in_bytes_per_token as u128
            * crate::utils::STORAGE_PRICE_PER_BYTE;
        proof {
            assert(cost <= 0xffff_ffffu128 * crate::utils::STORAGE_PRICE_PER_BYTE);
            assert((n as u128) * cost <= 1000u128 * (0xffff_ffffu128
                * crate::utils::STORAGE_PRICE_PER_BYTE)) by (nonlinear_arith)
                requires
                    n as u128 <= 1000,
                    0 <= cost <= 0xffff_ffffu128 * crate::utils::STORAGE_PRICE_PER_BYTE,
            ;
        }
        let total_cost = (n as u128) * cost;
        if total_cost > attached_deposit {
            return Err(crate::Error::InsufficientDeposit);
        }
        let ghost old_minted = pre.type_at(token_type_id).tokens.len() as int;
        let mut tokens: Vec<crate::metadata::Token> = Vec::new();
        let mut events: Vec<crate::events::EventLog> = Vec::new();
        for q in 0..n
            invariant
                self.wf(),
                n == receiver_ids@.len(),
                self.nft().owner_id == pre.nft().owner_id,
                self.nft().extra_storage_in_bytes_per_token == pre.nft(
                ).extra_storage_in_bytes_per_token,
                predecessor_account_id@ == pre.spec_owner(),
                self.token_type_by_title == pre.token_type_by_title,
                self.next_token_type_id == pre.next_token_type_id,
                pre.has_title(token_type_title@),
                pre.title_at(token_type_title@) == token_type_id,
                self.has_title(token_type_title@),
                self.title_at(token_type_title@) == token_type_id,
                self.has_type(token_type_id),
                self.type_at(token_type_id) == (TypeInfo {
                    tokens: self.type_at(token_type_id).tokens,
                    ..pre.type_at(token_type_id)
                }),
                self.type_at(token_type_id).tokens.len() == old_minted + q,
                old_minted + n <= spec_max_copies(pre.type_at(token_type_id)),
                spec_max_copies(self.type_at(token_type_id)) == spec_max_copies(
                    pre.type_at(token_type_id),
                ),
                self.type_at(token_type_id).owner_id == predecessor_account_id@,
                self.has_assets(token_type_id),
                spec_pool_supply(self.assets_at(token_type_id)) == spec_pool_supply(pool0) - q,
                n as u128 <= spec_pool_supply(pool0),
                cost == pre.nft().extra_storage_in_bytes_per_token as u128
                    * crate::utils::STORAGE_PRICE_PER_BYTE,
                cost < 0x1_0000_0000 * crate::utils::STORAGE_PRICE_PER_BYTE,
                tokens@.len() == q,
                events@.len() == q,
                forall|w: int|
                    0 <= w < q ==> {
                        let tid = crate::metadata::TokenId {
                            token_type_id,
                            edition: (old_minted + w + 1) as u64,
                        };
                        &&& (#[trigger] tokens@[w]).token_id == tid
                        &&& tokens@[w].owner_id@ == receiver_ids@[w]@
                        &&& self.nft().has_token(tid)
                        &&& self.nft().token_at(tid).owner_id == receiver_ids@[w]@
                        &&& crate::events::is_mint_event(events@[w], receiver_ids@[w]@, tid)
                    },
        {
            let ghost step_pre = *self;
            proof {
                // the pool still has supply, hence an entry, and its
                // entries stay positive by the registry invariant
                let kk = crate::assoc::idx_of(self.asset_pairs(), token_type_id);
                crate::assoc::lemma_idx_of_unique(self.asset_pairs(), kk);
                assert(spec_pool_entries_positive(self.assets_at(token_type_id)));
                if self.assets_at(token_type_id).len() == 0 {
                    assert(spec_pool_supply(self.assets_at(token_type_id)) == 0);
                }
                assert(spec_mint_outcome(
                    *self,
                    token_type_title@,
                    predecessor_account_id@,
                    cost,
                ) is Ok);
            }
            let receiver = receiver_ids[q].clone();
            let minted = self.nft_mint_type(
                token_type_title.clone(),
                receiver,
                None,
                random_value,
                predecessor_account_id,
                cost,
            );
            match minted {
                Ok((token, event, _refund)) => {
                    let ghost tokens_snap = tokens@;
                    tokens.push(token);
                    events.push(event);
                    proof {
                        let tid = crate::metadata::TokenId {
                            token_type_id,
                            edition: (old_minted + q + 1) as u64,
                        };
                        assert forall|w: int| 0 <= w < q + 1 implies {
                            let tw = crate::metadata::TokenId {
                                token_type_id,
                                edition: (old_minted + w + 1) as u64,
                            };
                            &&& (#[trigger] tokens@[w]).token_id == tw
                            &&& tokens@[w].owner_id@ == receiver_ids@[w]@
                            &&& self.nft().has_token(tw)
                            &&& self.nft().token_at(tw).owner_id == receiver_ids@[w]@
                            &&& crate::events::is_mint_event(events@[w], receiver_ids@[w]@, tw)
                        } by {
                            let tw = crate::metadata::TokenId {
                                token_type_id,
                                edition: (old_minted + w + 1) as u64,
                            };
                            if w < q {
                                assert(tokens@[w] == tokens_snap[w]);
                                crate::assoc::lemma_map_binding(step_pre.nft().token_pairs(), tw);
                                crate::assoc::lemma_map_binding(self.nft().token_pairs(), tw);
                            } else {
                                crate::assoc::lemma_map_binding(self.nft().token_pairs(), tw);
                            }
                        }
                    }
                },
                Err(_) => {
                    proof {
                        assert(false);
                    }
                    return Err(crate::Error::SupplyExhausted);
                },
            }
        }
        let refund_amount = attached_deposit - total_cost;
        let refund = if refund_amount > 1 {
            Some(crate::utils::Refund {
                account_id: predecessor_account_id.clone(),
                amount: refund_amount,
            })
        } else {
            None
        };
        Ok((tokens, events, refund))
    }

    /// Position of the series record of `id`, if it exists.
    pub fn find_type_index(&self, token_type_id: u64) -> (r: Option<usize>)
        ensures
            match r {
                Some(i) => i < self.token_type_by_id@.len() && self.token_type_by_id@[i as int].0
                    == token_type_id,
                None => !self.has_type(token_type_id),
            },
    {
        let n = self.token_type_by_id.len();
        for i in 0..n
            invariant
                n == self.token_type_by_id@.len(),
                forall|j: int| 0 <= j < i ==> (#[trigger] self.token_type_by_id@[j]).0
                    != token_type_id,
        {
            if self.token_type_by_id[i].0 == token_type_id {
                return Some(i);
            }
        }
        proof {
            if self.has_type(token_type_id) {
                let j = crate::assoc::idx_of(self.type_pairs(), token_type_id);
                assert(self.token_type_by_id@[j].0 == token_type_id);
            }
        }
        None
    }

    /// Position of the title entry of `title`, if a series carries it.
    pub fn find_title_index(&self, title: &TokenTypeTitle) -> (r: Option<usize>)
        ensures
            match r {
                Some(i) => i < self.token_type_by_title@.len()
                    && self.token_type_by_title@[i as int].0@ == title@,
                None => !self.has_title(title@),
            },
    {
        let n = self.token_type_by_title.len();
        for i in 0..n
            invariant
                n == self.token_type_by_title@.len(),
                forall|j: int| 0 <= j < i ==> (#[trigger] self.token_type_by_title@[j]).0@
                    != title@,
        {
            if crate::metadata::account_eq(&self.token_type_by_title[i].0, title) {
                return Some(i);
            }
        }
        proof {
            if self.has_title(title@) {
                let j = crate::assoc::idx_of(self.title_pairs(), title@);
                assert(self.token_type_by_title@[j].0@ == title@);
            }
        }
        None
    }

    /// Position of the asset pool of `id`, if the series still has one.
    pub fn find_assets_index(&self, token_type_id: u64) -> (r: Option<usize>)
        ensures
            match r {
                Some(i) => i < self.token_type_assets_by_id@.len()
                    && self.token_type_assets_by_id@[i as int].0 == token_type_id,
                None => !self.has_assets(token_type_id),
            },
    {
        let n = self.token_type_assets_by_id.len();
        for i in 0..n
            invariant
                n == self.token_type_assets_by_id@.len(),
                forall|j: int| 0 <= j < i ==> (#[trigger] self.token_type_assets_by_id@[j]).0
                    != token_type_id,
        {
            if self.token_type_assets_by_id[i].0 == token_type_id {
                return Some(i);
            }
        }
        proof {
            if self.has_assets(token_type_id) {
                let j = crate::assoc::idx_of(self.asset_pairs(), token_type_id);
                assert(self.token_type_assets_by_id@[j].0 == token_type_id);
            }
        }
        None
    }
}

} // verus!
