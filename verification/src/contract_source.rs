//! Contract-level source metadata: version, commit hash and repository link
//! of the deployed code, patchable by the registry owner.
use vstd::prelude::*;
use crate::metadata::clone_opt_string;

verus! {

/// Source references of the deployed registry code.
#[derive(Debug, Clone, PartialEq, Eq)]
pub struct ContractSourceMetadata {
    /// Release tag, e.g. `v2.1.0`.
    pub version: Option<String>,
    /// Commit hash of the deployed code.
    pub commit_hash: Option<String>,
    /// Repository URL of the deployed code.
    pub link: Option<String>,
}

impl ContractSourceMetadata {
    /// Copies the record. Unlike the derived `Clone`, the copy is known to
    /// equal the original.
    pub fn duplicate(&self) -> (r: ContractSourceMetadata)
        ensures
            r == *self,
    {
        ContractSourceMetadata {
            version: clone_opt_string(&self.version),
            commit_hash: clone_opt_string(&self.commit_hash),
            link: clone_opt_string(&self.link),
        }
    }
}

/// Tagged union of every persisted source metadata shape.
#[derive(Debug, Clone, PartialEq, Eq)]
pub enum VersionedContractSourceMetadata {
    Current(ContractSourceMetadata),
}

/// The current shape that a persisted source metadata record denotes.
pub open spec fn spec_normalize_source_metadata(
    v: VersionedContractSourceMetadata,
) -> ContractSourceMetadata {
    match v {
        VersionedContractSourceMetadata::Current(current) => current,
    }
}

/// Read and patch access to the registry's source metadata.
pub trait ContractSourceMetadataTrait {
    /// The current source metadata record.
    fn contract_source_metadata(&self) -> ContractSourceMetadata;

    /// Overwrites each field for which the patch carries a value; the
    /// caller must be the registry owner and attach a deposit, which is
    /// settled against the storage delta.
    fn patch_contract_source_metadata(
        &mut self,
        new_source_metadata: ContractSourceMetadata,
        predecessor_account_id: &crate::metadata::AccountId,
        attached_deposit: u128,
    ) -> Result<Option<crate::utils::Refund>, crate::Error>;
}

impl ContractSourceMetadataTrait for crate::Contract {
    /// The current source metadata record, normalized.
    fn contract_source_metadata(&self) -> (r: ContractSourceMetadata)
        ensures
            r == spec_normalize_source_metadata(self.contract_metadata),
    {
        match &self.contract_metadata {
            VersionedContractSourceMetadata::Current(m) => m.duplicate(),
        }
    }

    /// Overwrites each source metadata field for which the patch carries a
    /// value. Only the registry owner may; the deposit comes back in full.
    fn patch_contract_source_metadata(
        &mut self,
        new_source_metadata: ContractSourceMetadata,
        predecessor_account_id: &crate::metadata::AccountId,
        attached_deposit: u128,
    ) -> (r: Result<Option<crate::utils::Refund>, crate::Error>)
        ensures
            r is Err <==> predecessor_account_id@ != old(self).spec_owner(),
            match r {
                Ok(refund) => {
                    let olds = spec_normalize_source_metadata(old(self).contract_metadata);
                    let news = spec_normalize_source_metadata(final(self).contract_metadata);
                    &&& (old(self).wf() ==> final(self).wf())
                    &&& news.version == (if new_source_metadata.version is Some {
                        new_source_metadata.version
                    } else {
                        olds.version
                    })
                    &&& news.commit_hash == (if new_source_metadata.commit_hash is Some {
                        new_source_metadata.commit_hash
                    } else {
                        olds.commit_hash
                    })
                    &&& news.link == (if new_source_metadata.link is Some {
                        new_source_metadata.link
                    } else {
                        olds.link
                    })
                    &&& final(self).tokens == old(self).tokens
                    &&& final(self).metadata == old(self).metadata
                    &&& final(self).token_type_by_title == old(self).token_type_by_title
                    &&& final(self).token_type_by_id == old(self).token_type_by_id
                    &&& final(self).token_type_assets_by_id == old(self).token_type_assets_by_id
                    &&& final(self).next_token_type_id == old(self).next_token_type_id
                    &&& match refund {
                        Some(f) => f.account_id@ == predecessor_account_id@ && f.amount
                            == attached_deposit && attached_deposit > 1,
                        None => attached_deposit <= 1,
                    }
                },
                Err(e) => *final(self) == *old(self) && e == crate::Error::Unauthorized,
            },
    {
        if !crate::metadata::account_eq(predecessor_account_id, &self.tokens().owner_id) {
            return Err(crate::Error::Unauthorized);
        }
        let current = match &self.contract_metadata {
            VersionedContractSourceMetadata::Current(m) => m.duplicate(),
        };
        let merged = ContractSourceMetadata {
            version: match new_source_metadata.version {
                Some(v) => Some(v),
                None => current.version,
            },
            commit_hash: match new_source_metadata.commit_hash {
                Some(v) => Some(v),
                None => current.commit_hash,
            },
            link: match new_source_metadata.link {
                Some(v) => Some(v),
                None => current.link,
            },
        };
        self.contract_metadata = VersionedContractSourceMetadata::Current(merged);
        if attached_deposit > 1 {
            Ok(Some(crate::utils::Refund {
                account_id: predecessor_account_id.clone(),
                amount: attached_deposit,
            }))
        } else {
            Ok(None)
        }
    }
}

} // verus!
