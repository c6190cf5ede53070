//! Read-only enumeration helpers: supply counts and paged listings of
//! tokens and series. Thin iteration over the core tables.
use vstd::prelude::*;
use crate::assoc::{has_key, idx_of, lemma_idx_of_unique, val_of};
use crate::metadata::{AccountId, Token, TokenId};
use crate::nft_type::{TokenTypeJson, TokenTypeTitle};
use crate::{Contract, Error};

verus! {

impl Contract {
    /// How many tokens have been minted across all series.
    pub fn nft_total_supply(&self) -> (r: u128)
        ensures
            r == self.nft().tokens@.len(),
    {
        self.tokens().tokens.len() as u128
    }

    /// How many tokens `account_id` owns, across all series.
    pub fn nft_supply_for_owner(&self, account_id: AccountId) -> (r: u128)
        requires
            self.wf(),
        ensures
            has_key(self.nft().index_pairs(), account_id@) ==> r == val_of(
                self.nft().index_pairs(),
                account_id@,
            ).len(),
            !has_key(self.nft().index_pairs(), account_id@) ==> r == 0,
    {
        let nft = self.tokens();
        match nft.find_owner_entry(&account_id) {
            Some(i) => {
                proof {
                    lemma_idx_of_unique(self.nft().index_pairs(), i as int);
                }
                nft.tokens_per_owner[i].token_ids.len() as u128
            },
            None => 0,
        }
    }

    /// The public view of the series carrying `token_type_title`.
    pub fn nft_get_type(&self, token_type_title: TokenTypeTitle) -> (r: Result<TokenTypeJson, Error>)
        requires
            self.wf(),
        ensures
            r is Ok <==> self.has_title(token_type_title@),
            match r {
                Ok(json) => {
                    let info = self.type_at(self.title_at(token_type_title@));
                    &&& json.metadata == info.metadata
                    &&& json.owner_id@ == info.owner_id
                    &&& crate::nft_type::royalty_view(json.royalty@) == info.royalty
                },
                Err(e) => e == Error::NotFound,
            },
    {
        let j = match self.find_title_index(&token_type_title) {
            Some(j) => j,
            None => {
                return Err(Error::NotFound);
            },
        };
        proof {
            assert(self.title_pairs()[j as int].0 == token_type_title@);
            assert(self.has_title(token_type_title@));
            lemma_idx_of_unique(self.title_pairs(), j as int);
        }
        let token_type_id = self.token_type_by_title[j].1;
        let i = match self.find_type_index(token_type_id) {
            Some(i) => i,
            None => {
                proof {
                    assert(false);
                }
                return Err(Error::NotFound);
            },
        };
        proof {
            lemma_idx_of_unique(self.type_pairs(), i as int);
        }
        let token_type = self.token_type_by_id[i].1.duplicate_normalized();
        Ok(TokenTypeJson {
            metadata: token_type.metadata,
            owner_id: token_type.owner_id,
            royalty: token_type.royalty,
        })
    }

    /// The delimiters a reader needs to parse display ids and titles.
    pub fn nft_get_type_format(&self) -> (r: (char, &'static str, &'static str))
        ensures
            r.0 == crate::TOKEN_DELIMETER,
            r.1@ == crate::TITLE_DELIMETER@,
            r.2@ == crate::EDITION_DELIMETER@,
    {
        (crate::TOKEN_DELIMETER, crate::TITLE_DELIMETER, crate::EDITION_DELIMETER)
    }

    /// How many tokens the series carrying `token_type_title` has minted.
    pub fn nft_supply_for_type(&self, token_type_title: TokenTypeTitle) -> (r: Result<u64, Error>)
        requires
            self.wf(),
        ensures
            r is Ok <==> self.has_title(token_type_title@),
            match r {
                Ok(n) => n == self.type_at(self.title_at(token_type_title@)).tokens.len(),
                Err(e) => e == Error::NotFound,
            },
    {
        let j = match self.find_title_index(&token_type_title) {
            Some(j) => j,
            None => {
                return Err(Error::NotFound);
            },
        };
        proof {
            assert(self.title_pairs()[j as int].0 == token_type_title@);
            assert(self.has_title(token_type_title@));
            lemma_idx_of_unique(self.title_pairs(), j as int);
        }
        let token_type_id = self.token_type_by_title[j].1;
        let i = match self.find_type_index(token_type_id) {
            Some(i) => i,
            None => {
                proof {
                    assert(false);
                }
                return Err(Error::NotFound);
            },
        };
        proof {
            lemma_idx_of_unique(self.type_pairs(), i as int);
        }
        match &self.token_type_by_id[i].1 {
            crate::nft_type::VersionedTokenType::Current(t) => Ok(t.tokens.len() as u64),
            crate::nft_type::VersionedTokenType::V1(v1) => Ok(v1.tokens.len() as u64),
        }
    }

    /// The public views of all series, from `from_index`, at most `limit`.
    pub fn nft_get_types(&self, from_index: Option<u128>, limit: Option<u64>) -> (r: Vec<
        TokenTypeJson,
    >)
        requires
            self.wf(),
        ensures
            r@.len() <= self.type_pairs().len(),
    {
        let start: u128 = match from_index {
            Some(s) => s,
            None => 0,
        };
        let max: u64 = match limit {
            Some(l) => l,
            None => u64::MAX,
        };
        let mut out: Vec<TokenTypeJson> = Vec::new();
        let n = self.token_type_by_id.len();
        for i in 0..n
            invariant
                n == self.token_type_by_id@.len(),
                out@.len() <= i,
        {
            if (i as u128) >= start && (out.len() as u64) < max {
                let token_type = self.token_type_by_id[i].1.duplicate_normalized();
                out.push(
                    TokenTypeJson {
                        metadata: token_type.metadata,
                        owner_id: token_type.owner_id,
                        royalty: token_type.royalty,
                    },
                );
            }
        }
        proof {
            assert(self.type_pairs().len() == self.token_type_by_id@.len());
        }
        out
    }

    /// The ids of all minted tokens, from `from_index`, at most `limit`.
    pub fn nft_token_ids(&self, from_index: Option<u128>, limit: Option<u64>) -> (r: Vec<TokenId>)
        requires
            self.wf(),
        ensures
            r@.len() <= self.nft().tokens@.len(),
            forall|q: int| 0 <= q < r@.len() ==> self.nft().has_token(#[trigger] r@[q]),
    {
        let start: u128 = match from_index {
            Some(s) => s,
            None => 0,
        };
        let max: u64 = match limit {
            Some(l) => l,
            None => u64::MAX,
        };
        let nft = self.tokens();
        let mut out: Vec<TokenId> = Vec::new();
        let n = nft.tokens.len();
        for i in 0..n
            invariant
                *nft == self.nft(),
                n == self.nft().tokens@.len(),
                out@.len() <= i,
                forall|q: int| 0 <= q < out@.len() ==> self.nft().has_token(#[trigger] out@[q]),
        {
            if (i as u128) >= start && (out.len() as u64) < max {
                proof {
                    assert(self.nft().token_pairs()[i as int].0 == self.nft(
                    ).tokens@[i as int].token_id);
                    assert(self.nft().has_token(self.nft().tokens@[i as int].token_id));
                }
                out.push(nft.tokens[i].token_id);
            }
        }
        out
    }

    /// The views of all minted tokens, from `from_index`, at most `limit`.
    pub fn nft_tokens(&self, from_index: Option<u128>, limit: Option<u64>) -> (r: Vec<Token>)
        requires
            self.wf(),
        ensures
            r@.len() <= self.nft().tokens@.len(),
    {
        let ids = self.nft_token_ids(from_index, limit);
        let mut out: Vec<Token> = Vec::new();
        let n = ids.len();
        for i in 0..n
            invariant
                self.wf(),
                n == ids@.len(),
                n <= self.nft().tokens@.len(),
                out@.len() <= i,
                forall|q: int| 0 <= q < ids@.len() ==> self.nft().has_token(#[trigger] ids@[q]),
        {
            match self.nft_token(ids[i]) {
                Some(token) => {
                    out.push(token);
                },
                None => {
                    proof {
                        assert(false);
                    }
                },
            }
        }
        out
    }

    /// The views of all tokens `account_id` owns, from `from_index`, at
    /// most `limit`.
    pub fn nft_tokens_for_owner(
        &self,
        account_id: AccountId,
        from_index: Option<u128>,
        limit: Option<u64>,
    ) -> (r: Vec<Token>)
        requires
            self.wf(),
        ensures
            forall|q: int|
                0 <= q < r@.len() ==> (#[trigger] r@[q]).owner_id@ == account_id@ && self.nft(
                ).has_token(r@[q].token_id),
    {
        let start: u128 = match from_index {
            Some(s) => s,
            None => 0,
        };
        let max: u64 = match limit {
            Some(l) => l,
            None => u64::MAX,
        };
        let nft = self.tokens();
        let mut out: Vec<Token> = Vec::new();
        let i = match nft.find_owner_entry(&account_id) {
            Some(i) => i,
            None => {
                return out;
            },
        };
        proof {
            lemma_idx_of_unique(self.nft().index_pairs(), i as int);
        }
        let n = nft.tokens_per_owner[i].token_ids.len();
        for k in 0..n
            invariant
                *nft == self.nft(),
                self.wf(),
                i < self.nft().tokens_per_owner@.len(),
                self.nft().tokens_per_owner@[i as int].account_id@ == account_id@,
                n == self.nft().tokens_per_owner@[i as int].token_ids@.len(),
                forall|q: int|
                    0 <= q < out@.len() ==> (#[trigger] out@[q]).owner_id@ == account_id@
                        && self.nft().has_token(out@[q].token_id),
        {
            let tid = nft.tokens_per_owner[i].token_ids[k];
            proof {
                assert(crate::nft_core::index_entry_sound(
                    self.nft(),
                    self.nft().tokens_per_owner@[i as int],
                ));
                assert(self.nft().has_token(tid) && self.nft().token_at(tid).owner_id
                    == account_id@);
            }
            if (k as u128) >= start && (out.len() as u64) < max {
                match self.nft_token(tid) {
                    Some(token) => {
                        out.push(token);
                    },
                    None => {
                        proof {
                            assert(false);
                        }
                    },
                }
            }
        }
        out
    }

    /// The views of all tokens of the series carrying `token_type_title`,
    /// from `from_index`, at most `limit`.
    pub fn nft_tokens_by_type(
        &self,
        token_type_title: TokenTypeTitle,
        from_index: Option<u128>,
        limit: Option<u64>,
    ) -> (r: Result<Vec<Token>, Error>)
        requires
            self.wf(),
        ensures
            r is Ok <==> self.has_title(token_type_title@),
            match r {
                Ok(tokens) => forall|q: int|
                    0 <= q < tokens@.len() ==> self.nft().has_token(
                        (#[trigger] tokens@[q]).token_id,
                    ) && tokens@[q].token_id.token_type_id == self.title_at(token_type_title@),
                Err(e) => e == Error::NotFound,
            },
    {
        let start: u128 = match from_index {
            Some(s) => s,
            None => 0,
        };
        let max: u64 = match limit {
            Some(l) => l,
            None => u64::MAX,
        };
        let j = match self.find_title_index(&token_type_title) {
            Some(j) => j,
            None => {
                return Err(Error::NotFound);
            },
        };
        proof {
            assert(self.title_pairs()[j as int].0 == token_type_title@);
            assert(self.has_title(token_type_title@));
            lemma_idx_of_unique(self.title_pairs(), j as int);
        }
        let token_type_id = self.token_type_by_title[j].1;
        let i = match self.find_type_index(token_type_id) {
            Some(i) => i,
            None => {
                proof {
                    assert(false);
                }
                return Err(Error::NotFound);
            },
        };
        proof {
            lemma_idx_of_unique(self.type_pairs(), i as int);
        }
        let token_type = self.token_type_by_id[i].1.duplicate_normalized();
        let mut out: Vec<Token> = Vec::new();
        let n = token_type.tokens.len();
        for k in 0..n
            invariant
                self.wf(),
                i < self.token_type_by_id@.len(),
                self.type_pairs()[i as int].0 == token_type_id,
                self.type_pairs()[i as int].1 == self.type_at(token_type_id),
                token_type@ == self.type_at(token_type_id),
                n == token_type.tokens@.len(),
                forall|q: int|
                    0 <= q < out@.len() ==> self.nft().has_token((#[trigger] out@[q]).token_id)
                        && out@[q].token_id.token_type_id == token_type_id,
        {
            let tid = token_type.tokens[k];
            proof {
                assert(self.type_at(token_type_id).tokens[k as int] == tid);
                assert(self.nft().has_token(tid));
                assert(crate::nft_type::type_info_wf(token_type_id, self.type_at(token_type_id)));
            }
            if (k as u128) >= start && (out.len() as u64) < max {
                match self.nft_token(tid) {
                    Some(token) => {
                        out.push(token);
                    },
                    None => {
                        proof {
                            assert(false);
                        }
                    },
                }
            }
        }
        Ok(out)
    }
}

} // verus!
