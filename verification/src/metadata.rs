//! Data model of tokens and their metadata: token identity, per-token and
//! per-series metadata, the versioned wrappers the registry persists, and the
//! contract-level metadata record.
use vstd::prelude::*;

verus! {

/// An account identifier of the hosting execution environment, carried here
/// as a plain string.
pub type AccountId = String;

/// A token is permanently bound to one series: it is identified by the
/// numeric id of its series and its 1-based edition number within it. The
/// display form is `{token_type_id}:{edition}`.
#[derive(Clone, Copy, Debug, PartialEq, Eq, Hash, Structural)]
pub struct TokenId {
    /// Numeric id of the owning series.
    pub token_type_id: u64,
    /// 1-based sequence number, assigned at mint time, never reused.
    pub edition: u64,
}

/// Compares two account ids.
pub fn account_eq(a: &AccountId, b: &AccountId) -> (r: bool)
    ensures
        r == (a@ == b@),
{
    *a == *b
}

/// The display form of a token id, `{token_type_id}:{edition}`.
pub open spec fn spec_token_id_text(id: TokenId) -> Seq<char> {
    crate::text::spec_decimal(id.token_type_id as nat) + seq![crate::TOKEN_DELIMETER]
        + crate::text::spec_decimal(id.edition as nat)
}

impl TokenId {
    /// Renders the display form `{token_type_id}:{edition}`.
    pub fn to_text(&self) -> (r: String)
        ensures
            r@ == spec_token_id_text(*self),
    {
        proof {
            reveal_strlit(":");
        }
        let mut s = crate::text::u64_to_decimal(self.token_type_id);
        s.append(":");
        s.append(crate::text::u64_to_decimal(self.edition).as_str());
        s
    }
}

/// Copies a byte string. Unlike the derived `Clone`, the copy is known to
/// equal the original.
pub fn clone_bytes(v: &Vec<u8>) -> (r: Vec<u8>)
    ensures
        r@ == v@,
{
    let mut out: Vec<u8> = Vec::new();
    let n = v.len();
    for i in 0..n
        invariant
            n == v@.len(),
            out@ =~= v@.take(i as int),
    {
        out.push(v[i]);
        proof {
            assert(out@ =~= v@.take(i as int + 1));
        }
    }
    proof {
        assert(out@ =~= v@);
    }
    out
}

/// Copies an optional string. Unlike the derived `Clone`, the copy is known
/// to equal the original.
pub fn clone_opt_string(o: &Option<String>) -> (r: Option<String>)
    ensures
        r == *o,
{
    match o {
        Some(s) => Some(s.clone()),
        None => None,
    }
}

/// Superseded per-token metadata shape, kept so that records written under
/// it can still be read and normalized.
#[derive(Debug, Clone, PartialEq, Eq)]
pub struct TokenMetadataV1 {
    pub title: Option<String>,
    pub description: Option<String>,
    pub media: Option<String>,
    pub copies: Option<u64>,
}

/// Per-token metadata. When stored, `media` and `extra` hold bare filenames
/// within the owning series' content directory; the full paths are resolved
/// at read time against the series' base content address.
#[derive(Debug, Clone, PartialEq, Eq)]
pub struct TokenMetadata {
    /// `None` in storage; resolved at read time from the series title,
    /// the edition number and the series' `copies` cap.
    pub title: Option<String>,
    /// `None` in storage; resolved at read time from the series description.
    pub description: Option<String>,
    /// Filename of the media asset drawn for this token.
    pub media: Option<String>,
    /// `None` in storage; resolved at read time from the series' cap.
    pub copies: Option<u64>,
    /// Filename of the extra (off-chain) asset drawn for this token, if any.
    pub extra: Option<String>,
}

impl TokenMetadata {
    /// Copies the record. Unlike the derived `Clone`, the copy is known to
    /// equal the original.
    pub fn duplicate(&self) -> (r: TokenMetadata)
        ensures
            r == *self,
    {
        TokenMetadata {
            title: clone_opt_string(&self.title),
            description: clone_opt_string(&self.description),
            media: clone_opt_string(&self.media),
            copies: self.copies,
            extra: clone_opt_string(&self.extra),
        }
    }
}

/// Tagged union of every per-token metadata shape ever persisted.
#[derive(Debug, Clone, PartialEq, Eq)]
pub enum VersionedTokenMetadata {
    Current(TokenMetadata),
}

impl VersionedTokenMetadata {
    /// Copies the record. Unlike the derived `Clone`, the copy is known to
    /// equal the original.
    pub fn duplicate(&self) -> (r: VersionedTokenMetadata)
        ensures
            r == *self,
    {
        match self {
            VersionedTokenMetadata::Current(m) => VersionedTokenMetadata::Current(m.duplicate()),
        }
    }
}

/// Normalizes a persisted per-token metadata record to the current shape.
pub fn versioned_token_metadata_to_token_metadata(versioned: VersionedTokenMetadata) -> (r:
    TokenMetadata)
    ensures
        r == spec_normalize_token_metadata(versioned),
{
    match versioned {
        VersionedTokenMetadata::Current(current) => current,
    }
}

/// The current shape that a persisted per-token metadata record denotes.
pub open spec fn spec_normalize_token_metadata(versioned: VersionedTokenMetadata) -> TokenMetadata {
    match versioned {
        VersionedTokenMetadata::Current(current) => current,
    }
}

/// Metadata of a series, used as the base for every token minted in it.
#[derive(Debug, Clone, PartialEq, Eq)]
pub struct TokenTypeMetadata {
    /// Title of the series; the unique name under which it is registered.
    pub title: Option<String>,
    /// Free-form description.
    pub description: Option<String>,
    /// Base content address of the directory holding the series' assets.
    pub media: Option<String>,
    /// Total number of copies (minted plus still mintable); the supply cap.
    pub copies: Option<u64>,
}

/// Tagged union of every per-series metadata shape ever persisted.
#[derive(Debug, Clone, PartialEq, Eq)]
pub enum VersionedTokenTypeMetadata {
    Current(TokenTypeMetadata),
}

/// Superseded token view shape.
#[derive(Debug, Clone, PartialEq, Eq)]
pub struct TokenV1 {
    pub token_id: TokenId,
    pub owner_id: AccountId,
    pub metadata: Option<TokenMetadataV1>,
    pub approved_account_ids: Option<Vec<(AccountId, u64)>>,
}

/// The view of a single token handed out by read operations: identity,
/// owner, resolved metadata and the current approval map.
#[derive(Debug, Clone, PartialEq, Eq)]
pub struct Token {
    pub token_id: TokenId,
    pub owner_id: AccountId,
    pub metadata: Option<TokenMetadata>,
    pub approved_account_ids: Option<Vec<(AccountId, u64)>>,
}

/// Tagged union of every token view shape.
#[derive(Debug, Clone, PartialEq, Eq)]
pub enum VersionedToken {
    Current(Token),
}

/// Normalizes a token view to the current shape.
pub fn versioned_token_to_token(versioned_token: VersionedToken) -> (r: Token)
    ensures
        versioned_token == VersionedToken::Current(r),
{
    match versioned_token {
        VersionedToken::Current(current) => current,
    }
}

/// The metadata specification version this registry implements.
pub const NFT_METADATA_SPEC: &'static str = "nft-1.0.0";

/// Metadata of the registry itself.
#[derive(Debug, Clone, PartialEq, Eq)]
pub struct NFTContractMetadata {
    /// Must equal [`NFT_METADATA_SPEC`].
    pub spec: String,
    /// Human-readable name of the registry.
    pub name: String,
    /// Ticker-style symbol.
    pub symbol: String,
    /// Data URL of a display icon.
    pub icon: Option<String>,
    /// Gateway known to serve the content addresses used in `media` fields.
    pub base_uri: Option<String>,
    /// URL to a JSON file with further information.
    pub reference: Option<String>,
    /// SHA-256 hash (32 bytes) of the JSON behind `reference`.
    pub reference_hash: Option<Vec<u8>>,
}

/// What a well-formed contract metadata record looks like: the right
/// specification version, `reference` and its hash present together, and a
/// 32-byte hash when present.
pub open spec fn spec_contract_metadata_valid(m: NFTContractMetadata) -> bool {
    &&& m.spec@ == NFT_METADATA_SPEC@
    &&& m.reference is Some <==> m.reference_hash is Some
    &&& m.reference_hash is Some ==> m.reference_hash->0@.len() == 32
}

impl NFTContractMetadata {
    /// Copies the record. Unlike the derived `Clone`, the copy is known to
    /// match the original field by field.
    pub fn duplicate(&self) -> (r: NFTContractMetadata)
        ensures
            r.spec == self.spec,
            r.name == self.name,
            r.symbol == self.symbol,
            r.icon == self.icon,
            r.base_uri == self.base_uri,
            r.reference == self.reference,
            match (r.reference_hash, self.reference_hash) {
                (Some(a), Some(b)) => a@ == b@,
                (None, None) => true,
                _ => false,
            },
            spec_contract_metadata_valid(r) == spec_contract_metadata_valid(*self),
    {
        NFTContractMetadata {
            spec: self.spec.clone(),
            name: self.name.clone(),
            symbol: self.symbol.clone(),
            icon: clone_opt_string(&self.icon),
            base_uri: clone_opt_string(&self.base_uri),
            reference: clone_opt_string(&self.reference),
            reference_hash: match &self.reference_hash {
                Some(h) => Some(clone_bytes(h)),
                None => None,
            },
        }
    }

    /// Checks the record: the result is `true` exactly when the record is
    /// well-formed. Constructors demand a well-formed record up front.
    pub fn assert_valid(&self) -> (r: bool)
        ensures
            r <==> spec_contract_metadata_valid(*self),
    {
        let spec_expected: String = NFT_METADATA_SPEC.to_owned();
        if !(self.spec == spec_expected) {
            return false;
        }
        match (&self.reference, &self.reference_hash) {
            (Some(_), None) => false,
            (None, Some(_)) => false,
            (None, None) => true,
            (Some(_), Some(h)) => h.len() == 32,
        }
    }
}

impl crate::Contract {
    /// Updates the gateway URL against which `media` content addresses are
    /// resolved. Only the registry owner may; the deposit comes back in
    /// full. A missing patch value leaves the field as it is.
    pub fn patch_base_uri(
        &mut self,
        base_uri: Option<String>,
        predecessor_account_id: &AccountId,
        attached_deposit: u128,
    ) -> (r: Result<Option<crate::utils::Refund>, crate::Error>)
        requires
            old(self).wf(),
        ensures
            r is Err <==> predecessor_account_id@ != old(self).spec_owner(),
            match r {
                Ok(refund) => {
                    &&& final(self).wf()
                    &&& final(self).metadata.base_uri == (match base_uri {
                        Some(b) => Some(b),
                        None => old(self).metadata.base_uri,
                    })
                    &&& final(self).metadata.spec == old(self).metadata.spec
                    &&& final(self).metadata.name == old(self).metadata.name
                    &&& final(self).metadata.symbol == old(self).metadata.symbol
                    &&& final(self).metadata.icon == old(self).metadata.icon
                    &&& final(self).metadata.reference == old(self).metadata.reference
                    &&& final(self).tokens == old(self).tokens
                    &&& final(self).token_type_by_title == old(self).token_type_by_title
                    &&& final(self).token_type_by_id == old(self).token_type_by_id
                    &&& final(self).token_type_assets_by_id == old(self).token_type_assets_by_id
                    &&& final(self).next_token_type_id == old(self).next_token_type_id
                    &&& match refund {
                        Some(f) => f.account_id@ == predecessor_account_id@ && f.amount
                            == attached_deposit && attached_deposit > 1,
                        None => attached_deposit <= 1,
                    }
                },
                Err(e) => *final(self) == *old(self) && e == crate::Error::Unauthorized,
            },
    {
        if !account_eq(predecessor_account_id, &self.tokens().owner_id) {
            return Err(crate::Error::Unauthorized);
        }
        match base_uri {
            Some(b) => {
                let mut updated = self.metadata.duplicate();
                updated.base_uri = Some(b);
                self.metadata = updated;
            },
            None => {},
        }
        if attached_deposit > 1 {
            Ok(Some(crate::utils::Refund {
                account_id: predecessor_account_id.clone(),
                amount: attached_deposit,
            }))
        } else {
            Ok(None)
        }
    }

    /// The registry's descriptive metadata.
    pub fn nft_metadata(&self) -> (r: NFTContractMetadata)
        ensures
            r.spec == self.metadata.spec,
            r.name == self.metadata.name,
            r.symbol == self.metadata.symbol,
            r.icon == self.metadata.icon,
            r.base_uri == self.metadata.base_uri,
            r.reference == self.metadata.reference,
            match (r.reference_hash, self.metadata.reference_hash) {
                (Some(a), Some(b)) => a@ == b@,
                (None, None) => true,
                _ => false,
            },
    {
        self.metadata.duplicate()
    }
}

} // verus!
