//! Registry of uniquely identified digital assets ("tokens") organized into
//! named collections ("series" / "types"), with delegated transfer rights,
//! royalty payout computation and generative asset assignment at mint time.
//!
//! The crate holds the host-independent core: the ownership and transfer
//! state machine, the series minting engine with its supply accounting, and
//! the royalty engine. Host-provided values (caller identity, attached
//! deposit, entropy, promise outcomes) enter as plain parameters; observable
//! side effects (events, refunds, scheduled calls) leave as plain values.
use vstd::prelude::*;

pub mod approval;
pub mod assoc;
pub mod contract_source;
pub mod enumeration;
pub mod events;
pub mod laws;
pub mod metadata;
pub mod nft_core;
pub mod nft_type;
pub mod royalty;
pub mod text;
pub mod utils;

verus! {

/// Delimiter between the series id and the edition number in the display
/// form of a token id, e.g. `42:2` where `42` is the series and `2` the edition.
pub const TOKEN_DELIMETER: char = ':';

/// Delimiter between a series title and the edition fraction in a resolved
/// token title, e.g. `Title — 2/10`.
pub const TITLE_DELIMETER: &'static str = " — ";

/// Delimiter between the edition number and the cap in a resolved token
/// title, e.g. `Title — 2/10`.
pub const EDITION_DELIMETER: &'static str = "/";

/// Delimiter between a series' base content address and a filename in a
/// resolved media or extra path, e.g. `abcd1234/cat.jpg`.
pub const FILE_PATH_DELIMETER: &'static str = "/";

/// The stable failure kinds of every operation of the registry.
#[derive(Clone, Copy, Debug, PartialEq, Eq, Structural)]
pub enum Error {
    /// A token or series was not found.
    NotFound,
    /// The caller is not the required principal.
    Unauthorized,
    /// A series with the same title already exists.
    AlreadyExists,
    /// The asset pool of a new series does not sum to its `copies` cap.
    SupplyMismatch,
    /// The series has already minted `copies` tokens.
    SupplyExhausted,
    /// A stale or incorrect approval id was supplied.
    ApprovalMismatch,
    /// A transfer whose receiver already owns the token.
    InvalidTransfer,
    /// The attached payment is below the computed storage cost.
    InsufficientDeposit,
    /// The royalty fan-out exceeds the caller's stated budget.
    TooManyRecipients,
    /// Deletion of a series that still holds minted tokens.
    NotEmpty,
}

impl Error {
    /// The stable, matchable kind string of this failure.
    pub fn kind(&self) -> (r: &'static str)
        ensures
            r@ == self.spec_kind(),
    {
        match self {
            Error::NotFound => "NotFound",
            Error::Unauthorized => "Unauthorized",
            Error::AlreadyExists => "AlreadyExists",
            Error::SupplyMismatch => "SupplyMismatch",
            Error::SupplyExhausted => "SupplyExhausted",
            Error::ApprovalMismatch => "ApprovalMismatch",
            Error::InvalidTransfer => "InvalidTransfer",
            Error::InsufficientDeposit => "InsufficientDeposit",
            Error::TooManyRecipients => "TooManyRecipients",
            Error::NotEmpty => "NotEmpty",
        }
    }

    pub open spec fn spec_kind(self) -> Seq<char> {
        match self {
            Error::NotFound => "NotFound"@,
            Error::Unauthorized => "Unauthorized"@,
            Error::AlreadyExists => "AlreadyExists"@,
            Error::SupplyMismatch => "SupplyMismatch"@,
            Error::SupplyExhausted => "SupplyExhausted"@,
            Error::ApprovalMismatch => "ApprovalMismatch"@,
            Error::InvalidTransfer => "InvalidTransfer"@,
            Error::InsufficientDeposit => "InsufficientDeposit"@,
            Error::TooManyRecipients => "TooManyRecipients"@,
            Error::NotEmpty => "NotEmpty"@,
        }
    }
}

/// The registry: the asset ledger, contract-level metadata, and the series
/// tables — titles to ids, ids to records, ids to remaining asset pools.
pub struct Contract {
    pub tokens: crate::nft_core::VersionedNonFungibleToken,
    pub metadata: crate::metadata::NFTContractMetadata,
    pub contract_metadata: crate::contract_source::VersionedContractSourceMetadata,
    pub token_type_by_title: Vec<(crate::nft_type::TokenTypeTitle, crate::nft_type::TokenTypeId)>,
    pub token_type_by_id: Vec<(crate::nft_type::TokenTypeId, crate::nft_type::VersionedTokenType)>,
    /// Kept parallel with `token_type_by_id`; consumed by minting. A series
    /// persisted before pools were introduced has no entry here.
    pub token_type_assets_by_id: Vec<(crate::nft_type::TokenTypeId, crate::nft_type::TokenTypeAssets)>,
    /// The id the next created series receives; ids are never reused, even
    /// after a deletion.
    pub next_token_type_id: u64,
}

impl Contract {
    /// The ledger, normalized to the current shape.
    pub open spec fn nft(self) -> crate::nft_core::NonFungibleToken {
        match self.tokens {
            crate::nft_core::VersionedNonFungibleToken::Current(n) => n,
        }
    }

    /// The account that administers the registry.
    pub open spec fn spec_owner(self) -> Seq<char> {
        self.nft().owner_id@
    }

    /// The series table as key-value pairs.
    pub open spec fn type_pairs(self) -> Seq<(u64, crate::nft_type::TypeInfo)> {
        self.token_type_by_id@.map_values(
            |p: (u64, crate::nft_type::VersionedTokenType)| (p.0, p.1@),
        )
    }

    /// The series table as a map.
    pub open spec fn type_map(self) -> Map<u64, crate::nft_type::TypeInfo> {
        crate::assoc::as_map(self.type_pairs())
    }

    /// Whether a series with this id exists.
    pub open spec fn has_type(self, id: u64) -> bool {
        crate::assoc::has_key(self.type_pairs(), id)
    }

    /// The content of the series with this id.
    pub open spec fn type_at(self, id: u64) -> crate::nft_type::TypeInfo {
        crate::assoc::val_of(self.type_pairs(), id)
    }

    /// The title table as pairs keyed by the view of the title.
    pub open spec fn title_pairs(self) -> Seq<(Seq<char>, u64)> {
        self.token_type_by_title@.map_values(|p: (String, u64)| (p.0@, p.1))
    }

    /// Whether a series with this title exists.
    pub open spec fn has_title(self, title: Seq<char>) -> bool {
        crate::assoc::has_key(self.title_pairs(), title)
    }

    /// The id of the series with this title.
    pub open spec fn title_at(self, title: Seq<char>) -> u64 {
        crate::assoc::val_of(self.title_pairs(), title)
    }

    /// The pool table as pairs of id and pool content.
    pub open spec fn asset_pairs(self) -> Seq<(u64, Seq<crate::nft_type::AssetInfo>)> {
        self.token_type_assets_by_id@.map_values(
            |p: (u64, Vec<crate::nft_type::AssetDetail>)| (p.0, crate::nft_type::assets_view(p.1@)),
        )
    }

    /// Whether the series with this id still has its asset pool.
    pub open spec fn has_assets(self, id: u64) -> bool {
        crate::assoc::has_key(self.asset_pairs(), id)
    }

    /// The asset pool of the series with this id.
    pub open spec fn assets_at(self, id: u64) -> Seq<crate::nft_type::AssetInfo> {
        crate::assoc::val_of(self.asset_pairs(), id)
    }

    /// The series tables are well-formed; see [`types_tables_ok`].
    pub open spec fn types_ok(self) -> bool {
        types_tables_ok(
            self.type_pairs(),
            self.title_pairs(),
            self.asset_pairs(),
            self.next_token_type_id,
        )
    }

    /// The series tables and the ledger agree; see [`cross_tables_ok`].
    pub open spec fn cross_ok(self) -> bool {
        cross_tables_ok(self.type_pairs(), self.nft())
    }

    /// The registry invariant.
    pub open spec fn wf(self) -> bool {
        &&& self.nft().wf()
        &&& self.types_ok()
        &&& self.cross_ok()
        &&& self.next_token_type_id >= 1
        &&& crate::metadata::spec_contract_metadata_valid(self.metadata)
    }

    /// An empty registry administered by `owner_id`, described by `metadata`
    /// and carrying source references for the deployed code.
    pub fn new(
        owner_id: crate::metadata::AccountId,
        metadata: crate::metadata::NFTContractMetadata,
        commit_sha: String,
    ) -> (r: Contract)
        requires
            crate::metadata::spec_contract_metadata_valid(metadata),
        ensures
            r.wf(),
            r.spec_owner() == owner_id@,
            r.metadata == metadata,
            r.nft().tokens@.len() == 0,
            r.type_pairs().len() == 0,
            r.title_pairs().len() == 0,
            r.asset_pairs().len() == 0,
            r.next_token_type_id == 1,
            ({
                let s = crate::contract_source::spec_normalize_source_metadata(r.contract_metadata);
                &&& (s.version matches Some(v) && v@ == "v2.1.0"@)
                &&& s.commit_hash == Some(commit_sha)
                &&& (s.link matches Some(l) && l@ == "https://github.com/satori-hq/nft-series"@)
            }),
    {
        let source_metadata = crate::contract_source::ContractSourceMetadata {
            version: Some("v2.1.0".to_owned()),
            commit_hash: Some(commit_sha),
            link: Some("https://github.com/satori-hq/nft-series".to_owned()),
        };
        Contract {
            tokens: crate::nft_core::VersionedNonFungibleToken::Current(
                crate::nft_core::NonFungibleToken::new(owner_id),
            ),
            metadata,
            contract_metadata: crate::contract_source::VersionedContractSourceMetadata::Current(
                source_metadata,
            ),
            token_type_by_title: Vec::new(),
            token_type_by_id: Vec::new(),
            token_type_assets_by_id: Vec::new(),
            next_token_type_id: 1,
        }
    }

    /// An empty registry with this library's stock descriptive metadata
    /// and an example commit hash.
    pub fn new_default_meta(owner_id: crate::metadata::AccountId) -> (r: Contract)
        ensures
            r.wf(),
            r.spec_owner() == owner_id@,
            r.metadata.name@ == "Sonar by Satori"@,
            r.metadata.symbol@ == "SONAR"@,
            r.nft().tokens@.len() == 0,
            r.type_pairs().len() == 0,
    {
        Contract::new(
            owner_id,
            crate::metadata::NFTContractMetadata {
                spec: crate::metadata::NFT_METADATA_SPEC.to_owned(),
                name: "Sonar by Satori".to_owned(),
                symbol: "SONAR".to_owned(),
                icon: Some(DATA_IMAGE_SVG_NEAR_ICON.to_owned()),
                base_uri: None,
                reference: None,
                reference_hash: None,
            },
            "b245d8f7fbe72c250cbabbd16544477f9958be2e".to_owned(),
        )
    }

    /// The ledger, normalized to the current shape.
    pub fn tokens(&self) -> (r: &crate::nft_core::NonFungibleToken)
        ensures
            *r == self.nft(),
    {
        match &self.tokens {
            crate::nft_core::VersionedNonFungibleToken::Current(data) => data,
        }
    }

    /// Mutable access to the ledger, normalized to the current shape.
    pub fn tokens_mut(&mut self) -> (r: &mut crate::nft_core::NonFungibleToken)
        ensures
            *r == old(self).nft(),
            final(self).tokens == crate::nft_core::VersionedNonFungibleToken::Current(*final(r)),
            final(self).metadata == old(self).metadata,
            final(self).contract_metadata == old(self).contract_metadata,
            final(self).token_type_by_title == old(self).token_type_by_title,
            final(self).token_type_by_id == old(self).token_type_by_id,
            final(self).token_type_assets_by_id == old(self).token_type_assets_by_id,
            final(self).next_token_type_id == old(self).next_token_type_id,
    {
        match &mut self.tokens {
            crate::nft_core::VersionedNonFungibleToken::Current(data) => data,
        }
    }
}

/// Superseded registry shape, kept so that states persisted under it can
/// be read and normalized.
pub struct ContractV1 {
    pub tokens: crate::nft_core::NonFungibleTokenV1,
    pub metadata: crate::metadata::NFTContractMetadata,
    pub token_type_by_title: Vec<(crate::nft_type::TokenTypeTitle, crate::nft_type::TokenTypeId)>,
    pub token_type_by_id: Vec<(crate::nft_type::TokenTypeId, crate::nft_type::TokenTypeV1)>,
}

/// Tagged union of every persisted registry shape.
pub enum VersionedContract {
    Current(Contract),
}

/// The series tables are well-formed: distinct ids below the counter,
/// distinct titles, each series well-formed and reachable under exactly its
/// own title, and each pool bound to an existing series with every entry
/// still carrying supply.
pub open spec fn types_tables_ok(
    types: Seq<(u64, crate::nft_type::TypeInfo)>,
    titles: Seq<(Seq<char>, u64)>,
    pools: Seq<(u64, Seq<crate::nft_type::AssetInfo>)>,
    next_id: u64,
) -> bool {
    &&& crate::assoc::unique_keys(types)
    &&& crate::assoc::unique_keys(titles)
    &&& crate::assoc::unique_keys(pools)
    &&& forall|i: int|
        0 <= i < types.len() ==> {
            let (id, info) = #[trigger] types[i];
            &&& 1 <= id < next_id
            &&& crate::nft_type::type_info_wf(id, info)
            &&& crate::assoc::has_key(titles, info.metadata.title->0@)
            &&& crate::assoc::val_of(titles, info.metadata.title->0@) == id
        }
    &&& forall|i: int|
        0 <= i < titles.len() ==> {
            let (title, id) = #[trigger] titles[i];
            &&& crate::assoc::has_key(types, id)
            &&& crate::assoc::val_of(types, id).metadata.title->0@ == title
        }
    &&& forall|i: int|
        0 <= i < pools.len() ==> {
            let (id, pool) = #[trigger] pools[i];
            &&& crate::assoc::has_key(types, id)
            &&& crate::nft_type::spec_pool_entries_positive(pool)
        }
}

/// The series tables and the ledger agree: every minted id a series lists
/// exists in the ledger, and every ledger token belongs to an existing
/// series within its minted range.
pub open spec fn cross_tables_ok(
    types: Seq<(u64, crate::nft_type::TypeInfo)>,
    nft: crate::nft_core::NonFungibleToken,
) -> bool {
    &&& forall|i: int|
        0 <= i < types.len() ==> {
            let (id, info) = #[trigger] types[i];
            forall|k: int| 0 <= k < info.tokens.len() ==> nft.has_token(#[trigger] info.tokens[k])
        }
    &&& forall|x: crate::metadata::TokenId|
        #[trigger] nft.has_token(x) ==> crate::assoc::has_key(types, x.token_type_id) && 1
            <= x.edition <= crate::assoc::val_of(types, x.token_type_id).tokens.len()
}

/// Reassignments and approval changes leave the ownership table's key set
/// as it was, so the agreement between series tables and ledger survives
/// them.
pub proof fn lemma_cross_ok_same_domain(
    types: Seq<(u64, crate::nft_type::TypeInfo)>,
    pre: crate::nft_core::NonFungibleToken,
    post: crate::nft_core::NonFungibleToken,
)
    requires
        cross_tables_ok(types, pre),
        forall|x: crate::metadata::TokenId| post.has_token(x) == pre.has_token(x),
    ensures
        cross_tables_ok(types, post),
{
}

/// Stock display icon of the registry.
pub const DATA_IMAGE_SVG_NEAR_ICON: &'static str =
    "data:image/svg+xml,%3Csvg width='89' height='87' viewBox='0 0 89 87' fill='none' xmlns='http://www.w3.org/2000/svg'%3E%3Cpath d='M17.5427 48.1358C16.0363 48.1994 14.5323 47.9631 13.1165 47.4402C11.7006 46.9174 10.4007 46.1182 9.29096 45.0884C8.18118 44.0586 7.2833 42.8184 6.64855 41.4384C6.0138 40.0585 5.65465 38.5659 5.59156 37.0459C5.52847 35.5259 5.76267 34.0083 6.28084 32.5796C6.79901 31.151 7.59098 29.8393 8.61153 28.7194C9.63208 27.5996 10.8612 26.6936 12.2288 26.0531C13.5963 25.4126 15.0755 25.0502 16.5819 24.9865C24.9751 24.6329 35.6235 28.7963 45.0454 33.5128H45.1584C45.3247 33.5017 45.4826 33.4353 45.6073 33.3239C45.732 33.2125 45.8166 33.0624 45.8476 32.8973C45.8787 32.7322 45.8544 32.5613 45.7788 32.4115C45.7032 32.2618 45.5804 32.1416 45.4298 32.0699C34.3631 26.937 21.7648 22.4372 12.0376 23.1957C10.3305 23.3283 8.66598 23.7988 7.13906 24.5805C5.61215 25.3622 4.25275 26.4397 3.13852 27.7515C2.02429 29.0633 1.17706 30.5837 0.645141 32.2259C0.113223 33.8681 -0.0929378 35.5999 0.0384375 37.3225C0.169813 39.0451 0.636138 40.7247 1.41081 42.2655C2.18547 43.8062 3.25329 45.1779 4.55332 46.3022C5.85334 47.4265 7.36013 48.2815 8.98759 48.8182C10.6151 49.3549 12.3313 49.563 14.0385 49.4304C15.6964 49.2805 17.3083 48.7998 18.7805 48.016C18.3708 48.0818 17.9574 48.1218 17.5427 48.1358Z' fill='%23D5D4D8'/%3E%3Cpath d='M70.6208 62.6276C69.1906 61.7674 67.6059 61.2014 65.9579 60.9622C66.2954 61.1347 66.6237 61.3251 66.9414 61.5326C69.4762 63.2327 71.2378 65.8793 71.8388 68.8901C72.4398 71.9009 71.8309 75.0293 70.146 77.587C68.4612 80.1448 65.8383 81.9225 62.8545 82.5289C59.8708 83.1353 56.7704 82.5209 54.2356 80.8208C47.2384 76.1328 41.0438 66.4373 36.1491 57.0271C36.0056 56.9422 35.8383 56.9077 35.6734 56.9291C35.5084 56.9504 35.3551 57.0264 35.2374 57.1451C35.1198 57.2637 35.0446 57.4184 35.0234 57.5849C35.0022 57.7514 35.0364 57.9202 35.1205 58.065C41.0947 68.7699 48.6853 79.8968 56.9655 85.0525C58.4248 85.9573 60.0463 86.5631 61.7376 86.8355C63.4289 87.1079 65.1567 87.0415 66.8226 86.6401C68.4884 86.2386 70.0596 85.51 71.4464 84.4959C72.8332 83.4818 74.0084 82.2019 74.905 80.7295C75.8016 79.2571 76.4021 77.6208 76.672 75.9143C76.9419 74.2077 76.8761 72.4641 76.4783 70.7832C76.0805 69.1023 75.3584 67.5169 74.3534 66.1175C73.3484 64.7182 72.08 63.5323 70.6208 62.6276Z' fill='%23D5D4D8'/%3E%3Cpath d='M85.8925 28.0491C83.6519 25.3945 80.4581 23.7464 77.0135 23.4673C73.5688 23.1881 70.1553 24.3008 67.5235 26.5606C66.3246 27.6147 65.3366 28.8904 64.6127 30.319C64.8388 30.1023 65.0705 29.8913 65.3192 29.6917C66.498 28.7232 67.8557 28.0006 69.3135 27.5659C70.7713 27.1312 72.3001 26.9929 73.8113 27.1592C75.3224 27.3255 76.7859 27.7929 78.1165 28.5345C79.4472 29.276 80.6187 30.2769 81.5629 31.4789C82.5072 32.681 83.2054 34.0603 83.6171 35.5369C84.0289 37.0134 84.1459 38.5578 83.9613 40.0803C83.7768 41.6028 83.2944 43.0732 82.5421 44.4061C81.7899 45.739 80.7828 46.9079 79.5792 47.8449C73.0173 53.0861 62.058 56.029 51.6922 57.8084L51.6074 57.8825C51.4778 57.9889 51.3873 58.136 51.3504 58.3005C51.3135 58.4649 51.3324 58.637 51.404 58.7893C51.4762 58.9429 51.5971 59.0678 51.7476 59.1442C51.8981 59.2207 52.0695 59.2443 52.2348 59.2114C64.1662 56.7875 76.9906 52.9664 84.4174 46.5845C87.0482 44.3235 88.6815 41.1008 88.9581 37.625C89.2348 34.1492 88.1321 30.7048 85.8925 28.0491Z' fill='%23D5D4D8'/%3E%3Cpath d='M56.649 8.35602C56.0177 6.7294 55.0717 5.24598 53.866 3.99237C52.6603 2.73876 51.2192 1.7401 49.6268 1.05467C48.0344 0.369244 46.3227 0.0107821 44.5915 0.000239517C42.8603 -0.010303 41.1443 0.327284 39.5439 0.99327C37.9434 1.65926 36.4905 2.6403 35.2699 3.87914C34.0493 5.11797 33.0856 6.58976 32.4349 8.20857C31.7842 9.82738 31.4596 11.5608 31.4802 13.3075C31.5007 15.0543 31.8659 16.7795 32.5544 18.3822C33.1795 19.8541 34.0751 21.1932 35.194 22.3288C35.047 22.0266 34.9114 21.7186 34.7927 21.3992C34.2388 19.9674 33.9729 18.4387 34.0104 16.9022C34.048 15.3657 34.3881 13.8521 35.0112 12.4496C35.6342 11.047 36.5277 9.78363 37.6394 8.73301C38.7512 7.68238 40.0591 6.86554 41.4868 6.33006C42.9146 5.79458 44.4337 5.55116 45.9556 5.61402C47.4776 5.67688 48.9719 6.04475 50.3515 6.69618C51.7311 7.34761 52.9684 8.26957 53.9914 9.40836C55.0144 10.5472 55.8025 11.88 56.3099 13.3292C59.2207 21.2395 58.599 32.6858 57.0842 43.1569C57.0842 43.2139 57.1351 43.271 57.1577 43.3337C57.2187 43.4914 57.3302 43.624 57.4746 43.7103C57.6189 43.7966 57.7876 43.8318 57.954 43.8101C58.1204 43.7885 58.2748 43.7113 58.3927 43.5909C58.5106 43.4704 58.5852 43.3136 58.6046 43.1455C60.0063 30.9406 60.368 17.4526 56.649 8.35602Z' fill='%23D5D4D8'/%3E%3Cpath d='M37.6695 71.65C37.6148 72.0889 37.5298 72.5234 37.4152 72.9503C36.5737 75.8831 34.6186 78.362 31.9753 79.8479C29.3319 81.3338 26.2141 81.7065 23.2999 80.8849C20.3856 80.0633 17.9108 78.1139 16.4135 75.4606C14.9162 72.8074 14.5177 69.6649 15.3045 66.7168C17.5653 58.5327 24.8168 49.573 32.1984 41.9706C32.2366 41.8076 32.2203 41.6364 32.1519 41.4837C32.0835 41.331 31.967 41.2054 31.8205 41.1266C31.6739 41.0478 31.5057 41.0202 31.342 41.048C31.1782 41.0759 31.0282 41.1576 30.9154 41.2805C22.6748 50.3258 14.5245 61.0193 12.2298 70.5892C11.8279 72.2676 11.7575 74.0095 12.0227 75.7153C12.288 77.4212 12.8835 79.0576 13.7755 80.5312C14.6675 82.0048 15.8383 83.2867 17.2213 84.3036C18.6042 85.3206 20.1721 86.0528 21.8354 86.4584C23.4988 86.8639 25.225 86.9349 26.9155 86.6673C28.6061 86.3997 30.2278 85.7987 31.6882 84.8987C33.1485 83.9986 34.4189 82.8172 35.4268 81.4217C36.4346 80.0263 37.1602 78.4442 37.5621 76.7658C37.9426 75.0857 37.9792 73.3449 37.6695 71.65Z' fill='%23D5D4D8'/%3E%3C/svg%3E%0A";

} // verus!
