//! The asset ledger: the ownership table mapping token identifiers to their
//! owner, per-token approval maps with their monotonic approval-id counters,
//! and the auxiliary owner-to-token index kept for enumeration.
use vstd::prelude::*;
use crate::assoc::{as_map, has_key, idx_of, lemma_idx_of_unique, lemma_map_binding,
    lemma_push_fresh, lemma_remove_at, lemma_update_value, unique_keys, val_of};
use crate::metadata::{AccountId, TokenId, VersionedTokenMetadata};

verus! {

/// Everything the ledger stores about one token: its owner, its persisted
/// metadata, its approval map and the next approval id to hand out.
#[derive(Debug, Clone, PartialEq, Eq)]
pub struct TokenRecord {
    pub token_id: TokenId,
    pub owner_id: AccountId,
    pub metadata: VersionedTokenMetadata,
    /// Delegations: account to the approval id it was granted. The account
    /// may transfer the token until the entry is cleared or superseded.
    pub approved_account_ids: Vec<(AccountId, u64)>,
    /// Strictly above every id in `approved_account_ids`; never reset, so
    /// stale approval ids can never come back to life.
    pub next_approval_id: u64,
}

/// The mathematical content of a token record: the owner as a character
/// sequence, the approval map keyed by account views, and the counter.
#[verifier::ext_equal]
pub ghost struct TokenInfo {
    pub owner_id: Seq<char>,
    pub metadata: VersionedTokenMetadata,
    pub approvals: Seq<(Seq<char>, u64)>,
    pub next_approval_id: u64,
}

/// The approval map of a record, keyed by the view of the account.
pub open spec fn approvals_view(s: Seq<(AccountId, u64)>) -> Seq<(Seq<char>, u64)> {
    s.map_values(|p: (AccountId, u64)| (p.0@, p.1))
}

impl View for TokenRecord {
    type V = TokenInfo;

    open spec fn view(&self) -> TokenInfo {
        TokenInfo {
            owner_id: self.owner_id@,
            metadata: self.metadata,
            approvals: approvals_view(self.approved_account_ids@),
            next_approval_id: self.next_approval_id,
        }
    }
}

/// A well-formed token record: approved accounts pairwise distinct, every
/// granted id below the record's counter, and the counter at least 1.
pub open spec fn info_wf(t: TokenInfo) -> bool {
    &&& unique_keys(t.approvals)
    &&& forall|i: int| 0 <= i < t.approvals.len() ==> (#[trigger] t.approvals[i]).1
        < t.next_approval_id
    &&& t.next_approval_id >= 1
}

/// One entry of the owner-to-token enumeration index.
#[derive(Debug, Clone, PartialEq, Eq)]
pub struct OwnerTokens {
    pub account_id: AccountId,
    pub token_ids: Vec<TokenId>,
}

/// Superseded ledger shape, kept so that states persisted under it can be
/// read and normalized.
#[derive(Debug, Clone, PartialEq, Eq)]
pub struct NonFungibleTokenV1 {
    pub owner_id: AccountId,
    pub extra_storage_in_bytes_per_token: u64,
    pub tokens: Vec<TokenRecord>,
    pub tokens_per_owner: Vec<OwnerTokens>,
}

/// The asset ledger.
#[derive(Debug, Clone, PartialEq, Eq)]
pub struct NonFungibleToken {
    /// The account that administers the whole registry.
    pub owner_id: AccountId,
    /// Storage-cost model: bytes charged for one newly minted token.
    pub extra_storage_in_bytes_per_token: u64,
    /// The ownership table, one record per minted token.
    pub tokens: Vec<TokenRecord>,
    /// Owner-to-token index: one entry per account that owns at least one
    /// token, holding exactly the tokens it owns.
    pub tokens_per_owner: Vec<OwnerTokens>,
}

/// Tagged union of every persisted ledger shape.
#[derive(Debug, Clone, PartialEq, Eq)]
pub enum VersionedNonFungibleToken {
    Current(NonFungibleToken),
}

impl NonFungibleToken {
    /// The ownership table as key-value pairs.
    pub open spec fn token_pairs(self) -> Seq<(TokenId, TokenInfo)> {
        self.tokens@.map_values(|r: TokenRecord| (r.token_id, r@))
    }

    /// The ownership table as a map.
    pub open spec fn token_map(self) -> Map<TokenId, TokenInfo> {
        as_map(self.token_pairs())
    }

    /// Whether a token with this id has been minted.
    pub open spec fn has_token(self, id: TokenId) -> bool {
        has_key(self.token_pairs(), id)
    }

    /// The content of the token with this id.
    pub open spec fn token_at(self, id: TokenId) -> TokenInfo {
        val_of(self.token_pairs(), id)
    }

    /// The owner index as pairs keyed by the view of the account.
    pub open spec fn index_pairs(self) -> Seq<(Seq<char>, Seq<TokenId>)> {
        self.tokens_per_owner@.map_values(|o: OwnerTokens| (o.account_id@, o.token_ids@))
    }

    /// The ownership table is well-formed: ids pairwise distinct and every
    /// record well-formed.
    pub open spec fn tokens_wf(self) -> bool {
        &&& unique_keys(self.token_pairs())
        &&& forall|i: int| 0 <= i < self.tokens@.len() ==> info_wf((#[trigger] self.tokens@[i])@)
    }

    /// The owner index is consistent with the ownership table: accounts
    /// pairwise distinct, no empty or duplicated entries, every indexed
    /// token exists and is owned by the account it is indexed under, and
    /// every token is indexed under its owner.
    pub open spec fn index_wf(self) -> bool {
        &&& unique_keys(self.index_pairs())
        &&& index_entries_shape_ok(self.tokens_per_owner@)
        &&& forall|i: int|
            0 <= i < self.tokens_per_owner@.len() ==> index_entry_sound(
                self,
                #[trigger] self.tokens_per_owner@[i],
            )
        &&& forall|i: int|
            0 <= i < self.tokens@.len() ==> {
                let r = #[trigger] self.tokens@[i];
                has_key(self.index_pairs(), r.owner_id@) && val_of(
                    self.index_pairs(),
                    r.owner_id@,
                ).contains(r.token_id)
            }
    }

    /// The ledger invariant.
    pub open spec fn wf(self) -> bool {
        self.tokens_wf() && self.index_wf()
    }
}

/// A duplicate-free token list.
pub open spec fn list_dupfree(l: Seq<TokenId>) -> bool {
    forall|j: int, k: int| 0 <= j < k < l.len() ==> #[trigger] l[j] != #[trigger] l[k]
}

/// Every index entry is non-empty and duplicate-free.
pub open spec fn index_entries_shape_ok(s: Seq<OwnerTokens>) -> bool {
    forall|i: int|
        0 <= i < s.len() ==> list_dupfree((#[trigger] s[i]).token_ids@) && s[i].token_ids@.len() > 0
}

/// One index entry is sound against the ownership table: every listed token
/// exists and is owned by the entry's account.
pub open spec fn index_entry_sound(nft: NonFungibleToken, o: OwnerTokens) -> bool {
    forall|j: int|
        0 <= j < o.token_ids@.len() ==> nft.has_token(#[trigger] o.token_ids@[j]) && nft.token_at(
            o.token_ids@[j],
        ).owner_id == o.account_id@
}

/// Removing one position from a duplicate-free list removes exactly that
/// element.
pub proof fn lemma_list_remove(l: Seq<TokenId>, p: int)
    requires
        list_dupfree(l),
        0 <= p < l.len(),
    ensures
        list_dupfree(l.remove(p)),
        !l.remove(p).contains(l[p]),
        forall|x: TokenId| x != l[p] ==> (#[trigger] l.remove(p).contains(x) <==> l.contains(x)),
        l.remove(p).len() == l.len() - 1,
{
    let m = l.remove(p);
    assert forall|j: int, k: int| 0 <= j < k < m.len() implies #[trigger] m[j] != #[trigger] m[k] by {
        let j0 = if j < p { j } else { j + 1 };
        let k0 = if k < p { k } else { k + 1 };
        assert(m[j] == l[j0] && m[k] == l[k0]);
    }
    assert forall|q: int| 0 <= q < m.len() implies #[trigger] m[q] != l[p] by {
        let q0 = if q < p { q } else { q + 1 };
        assert(m[q] == l[q0] && q0 != p);
    }
    if m.contains(l[p]) {
        let q = choose|q: int| 0 <= q < m.len() && m[q] == l[p];
        assert(false);
    }
    assert forall|x: TokenId| x != l[p] implies (#[trigger] m.contains(x) <==> l.contains(x)) by {
        if m.contains(x) {
            let q = choose|q: int| 0 <= q < m.len() && m[q] == x;
            let q0 = if q < p { q } else { q + 1 };
            assert(l[q0] == x);
        }
        if l.contains(x) {
            let q0 = choose|q0: int| 0 <= q0 < l.len() && l[q0] == x;
            let q = if q0 < p { q0 } else { q0 - 1 };
            assert(m[q] == x);
        }
    }
}

/// Appending a fresh element to a duplicate-free list adds exactly that
/// element.
pub proof fn lemma_list_push(l: Seq<TokenId>, t: TokenId)
    requires
        list_dupfree(l),
        !l.contains(t),
    ensures
        list_dupfree(l.push(t)),
        l.push(t).contains(t),
        forall|x: TokenId| x != t ==> (#[trigger] l.push(t).contains(x) <==> l.contains(x)),
        l.push(t).len() == l.len() + 1,
{
    let m = l.push(t);
    assert forall|j: int, k: int| 0 <= j < k < m.len() implies #[trigger] m[j] != #[trigger] m[k] by {
        if k < l.len() {
            assert(m[j] == l[j] && m[k] == l[k]);
        } else {
            assert(m[k] == t && m[j] == l[j]);
            if l[j] == t {
                assert(l.contains(t));
            }
        }
    }
    assert(m[l.len() as int] == t);
    assert forall|x: TokenId| x != t implies (#[trigger] m.contains(x) <==> l.contains(x)) by {
        if m.contains(x) {
            let q = choose|q: int| 0 <= q < m.len() && m[q] == x;
            assert(q < l.len() && l[q] == x);
        }
        if l.contains(x) {
            let q = choose|q: int| 0 <= q < l.len() && l[q] == x;
            assert(m[q] == x);
        }
    }
}

impl NonFungibleToken {
    /// Position of the record of `token_id`, if the token exists.
    pub fn find_token_index(&self, token_id: &TokenId) -> (r: Option<usize>)
        ensures
            match r {
                Some(i) => i < self.tokens@.len() && self.tokens@[i as int].token_id == *token_id,
                None => !self.has_token(*token_id),
            },
    {
        let n = self.tokens.len();
        for i in 0..n
            invariant
                n == self.tokens@.len(),
                forall|j: int| 0 <= j < i ==> (#[trigger] self.tokens@[j]).token_id != *token_id,
        {
            if self.tokens[i].token_id == *token_id {
                return Some(i);
            }
        }
        proof {
            if self.has_token(*token_id) {
                let j = idx_of(self.token_pairs(), *token_id);
                assert(self.tokens@[j].token_id == *token_id);
            }
        }
        None
    }

    /// Position of the index entry of `account`, if the account owns tokens.
    pub fn find_owner_entry(&self, account: &AccountId) -> (r: Option<usize>)
        ensures
            match r {
                Some(i) => i < self.tokens_per_owner@.len()
                    && self.tokens_per_owner@[i as int].account_id@ == account@,
                None => !has_key(self.index_pairs(), account@),
            },
    {
        let n = self.tokens_per_owner.len();
        for i in 0..n
            invariant
                n == self.tokens_per_owner@.len(),
                forall|j: int|
                    0 <= j < i ==> (#[trigger] self.tokens_per_owner@[j]).account_id@ != account@,
        {
            if crate::metadata::account_eq(&self.tokens_per_owner[i].account_id, account) {
                return Some(i);
            }
        }
        proof {
            if has_key(self.index_pairs(), account@) {
                let j = idx_of(self.index_pairs(), account@);
                assert(self.tokens_per_owner@[j].account_id@ == account@);
            }
        }
        None
    }
}

/// Position of `account` in an approval map, if approved.
pub fn find_approval(approvals: &Vec<(AccountId, u64)>, account: &AccountId) -> (r: Option<usize>)
    ensures
        match r {
            Some(i) => i < approvals@.len() && approvals@[i as int].0@ == account@,
            None => !has_key(approvals_view(approvals@), account@),
        },
{
    let n = approvals.len();
    for i in 0..n
        invariant
            n == approvals@.len(),
            forall|j: int| 0 <= j < i ==> (#[trigger] approvals@[j]).0@ != account@,
    {
        if crate::metadata::account_eq(&approvals[i].0, account) {
            return Some(i);
        }
    }
    proof {
        if has_key(approvals_view(approvals@), account@) {
            let j = idx_of(approvals_view(approvals@), account@);
            assert(approvals@[j].0@ == account@);
        }
    }
    None
}

/// Position of `token_id` in an index entry's token list, if present.
pub fn find_token_in_list(token_ids: &Vec<TokenId>, token_id: &TokenId) -> (r: Option<usize>)
    ensures
        match r {
            Some(i) => i < token_ids@.len() && token_ids@[i as int] == *token_id,
            None => !token_ids@.contains(*token_id),
        },
{
    let n = token_ids.len();
    for i in 0..n
        invariant
            n == token_ids@.len(),
            forall|j: int| 0 <= j < i ==> #[trigger] token_ids@[j] != *token_id,
    {
        if token_ids[i] == *token_id {
            return Some(i);
        }
    }
    None
}

/// Copies an approval map. Unlike the derived `Clone`, the copy is known to
/// equal the original.
pub fn clone_approvals(v: &Vec<(AccountId, u64)>) -> (r: Vec<(AccountId, u64)>)
    ensures
        r@ == v@,
{
    let mut out: Vec<(AccountId, u64)> = Vec::new();
    let n = v.len();
    for i in 0..n
        invariant
            n == v@.len(),
            out@ =~= v@.take(i as int),
    {
        let account = v[i].0.clone();
        out.push((account, v[i].1));
        proof {
            assert(out@ =~= v@.take(i as int + 1));
        }
    }
    proof {
        assert(out@ =~= v@);
    }
    out
}

/// What holds of a `from` entry's token list after one token left it.
pub open spec fn list_shrunk_by(oldl: Seq<TokenId>, newl: Seq<TokenId>, t: TokenId) -> bool {
    &&& newl.len() == oldl.len() - 1
    &&& !newl.contains(t)
    &&& forall|x: TokenId| x != t ==> (#[trigger] newl.contains(x) <==> oldl.contains(x))
}

/// What holds of a `to` entry's token list after one token joined it.
pub open spec fn list_grown_by(
    had: bool,
    oldl: Seq<TokenId>,
    newl: Seq<TokenId>,
    t: TokenId,
) -> bool {
    &&& newl.len() == if had {
        oldl.len() + 1
    } else {
        1
    }
    &&& newl.contains(t)
    &&& forall|x: TokenId| x != t ==> (#[trigger] newl.contains(x) <==> had && oldl.contains(x))
}

impl NonFungibleToken {
    /// Removes `token_id` from `from`'s entry of the owner index, dropping
    /// the entry entirely when it becomes empty to bound storage.
    fn owner_index_remove(&mut self, from: &AccountId, token_id: &TokenId)
        requires
            unique_keys(old(self).index_pairs()),
            index_entries_shape_ok(old(self).tokens_per_owner@),
            has_key(old(self).index_pairs(), from@),
            val_of(old(self).index_pairs(), from@).contains(*token_id),
        ensures
            final(self).tokens == old(self).tokens,
            final(self).owner_id == old(self).owner_id,
            final(self).extra_storage_in_bytes_per_token == old(
                self,
            ).extra_storage_in_bytes_per_token,
            unique_keys(final(self).index_pairs()),
            index_entries_shape_ok(final(self).tokens_per_owner@),
            ({
                let oldl = val_of(old(self).index_pairs(), from@);
                if oldl.len() == 1 {
                    as_map(final(self).index_pairs()) == as_map(old(self).index_pairs()).remove(
                        from@,
                    )
                } else {
                    &&& has_key(final(self).index_pairs(), from@)
                    &&& as_map(final(self).index_pairs()) == as_map(old(self).index_pairs()).insert(
                        from@,
                        val_of(final(self).index_pairs(), from@),
                    )
                    &&& list_shrunk_by(oldl, val_of(final(self).index_pairs(), from@), *token_id)
                }
            }),
    {
        let i = match self.find_owner_entry(from) {
            Some(i) => i,
            None => {
                proof {
                    assert(false);
                }
                return ;
            },
        };
        proof {
            lemma_idx_of_unique(self.index_pairs(), i as int);
        }
        let p = match find_token_in_list(&self.tokens_per_owner[i].token_ids, token_id) {
            Some(p) => p,
            None => {
                proof {
                    assert(false);
                }
                return ;
            },
        };
        let ghost oldl = self.tokens_per_owner@[i as int].token_ids@;
        if self.tokens_per_owner[i].token_ids.len() == 1 {
            self.tokens_per_owner.remove(i);
            proof {
                assert(oldl.contains(oldl[p as int]));
                assert(final(self).index_pairs() =~= old(self).index_pairs().remove(i as int));
                lemma_remove_at(old(self).index_pairs(), i as int);
            }
        } else {
            let mut list = self.tokens_per_owner[i].token_ids.clone();
            list.remove(p);
            let account = self.tokens_per_owner[i].account_id.clone();
            self.tokens_per_owner.set(i, OwnerTokens { account_id: account, token_ids: list });
            proof {
                lemma_list_remove(oldl, p as int);
                assert(final(self).index_pairs() =~= old(self).index_pairs().update(
                    i as int,
                    (from@, oldl.remove(p as int)),
                ));
                lemma_update_value(old(self).index_pairs(), i as int, oldl.remove(p as int));
                lemma_idx_of_unique(final(self).index_pairs(), i as int);
                assert forall|q: int|
                    0 <= q < final(self).tokens_per_owner@.len() implies list_dupfree(
                    (#[trigger] final(self).tokens_per_owner@[q]).token_ids@,
                ) && final(self).tokens_per_owner@[q].token_ids@.len() > 0 by {
                    if q != i {
                        assert(final(self).tokens_per_owner@[q] == old(self).tokens_per_owner@[q]);
                    }
                }
            }
        }
    }

    /// Adds `token_id` to `to`'s entry of the owner index, creating the
    /// entry when the account owned nothing yet.
    fn owner_index_add(&mut self, to: &AccountId, token_id: &TokenId)
        requires
            unique_keys(old(self).index_pairs()),
            index_entries_shape_ok(old(self).tokens_per_owner@),
            has_key(old(self).index_pairs(), to@) ==> !val_of(
                old(self).index_pairs(),
                to@,
            ).contains(*token_id),
        ensures
            final(self).tokens == old(self).tokens,
            final(self).owner_id == old(self).owner_id,
            final(self).extra_storage_in_bytes_per_token == old(
                self,
            ).extra_storage_in_bytes_per_token,
            unique_keys(final(self).index_pairs()),
            index_entries_shape_ok(final(self).tokens_per_owner@),
            has_key(final(self).index_pairs(), to@),
            as_map(final(self).index_pairs()) == as_map(old(self).index_pairs()).insert(
                to@,
                val_of(final(self).index_pairs(), to@),
            ),
            list_grown_by(
                has_key(old(self).index_pairs(), to@),
                val_of(old(self).index_pairs(), to@),
                val_of(final(self).index_pairs(), to@),
                *token_id,
            ),
    {
        match self.find_owner_entry(to) {
            Some(i) => {
                proof {
                    lemma_idx_of_unique(self.index_pairs(), i as int);
                }
                let ghost oldl = self.tokens_per_owner@[i as int].token_ids@;
                let mut list = self.tokens_per_owner[i].token_ids.clone();
                list.push(token_id.clone());
                let account = self.tokens_per_owner[i].account_id.clone();
                self.tokens_per_owner.set(i, OwnerTokens { account_id: account, token_ids: list });
                proof {
                    lemma_list_push(oldl, *token_id);
                    assert(final(self).index_pairs() =~= old(self).index_pairs().update(
                        i as int,
                        (to@, oldl.push(*token_id)),
                    ));
                    lemma_update_value(old(self).index_pairs(), i as int, oldl.push(*token_id));
                    lemma_idx_of_unique(final(self).index_pairs(), i as int);
                    assert forall|q: int|
                        0 <= q < final(self).tokens_per_owner@.len() implies list_dupfree(
                        (#[trigger] final(self).tokens_per_owner@[q]).token_ids@,
                    ) && final(self).tokens_per_owner@[q].token_ids@.len() > 0 by {
                        if q != i {
                            assert(final(self).tokens_per_owner@[q] == old(
                                self,
                            ).tokens_per_owner@[q]);
                        }
                    }
                }
            },
            None => {
                let mut list: Vec<TokenId> = Vec::new();
                list.push(token_id.clone());
                self.tokens_per_owner.push(OwnerTokens { account_id: to.clone(), token_ids: list });
                proof {
                    assert(final(self).index_pairs() =~= old(self).index_pairs().push(
                        (to@, seq![*token_id]),
                    ));
                    lemma_push_fresh(old(self).index_pairs(), to@, seq![*token_id]);
                    lemma_idx_of_unique(
                        final(self).index_pairs(),
                        old(self).index_pairs().len() as int,
                    );
                    assert(seq![*token_id][0] == *token_id);
                    assert forall|q: int|
                        0 <= q < final(self).tokens_per_owner@.len() implies list_dupfree(
                        (#[trigger] final(self).tokens_per_owner@[q]).token_ids@,
                    ) && final(self).tokens_per_owner@[q].token_ids@.len() > 0 by {
                        if q < old(self).tokens_per_owner@.len() {
                            assert(final(self).tokens_per_owner@[q] == old(
                                self,
                            ).tokens_per_owner@[q]);
                        }
                    }
                }
            },
        }
    }

    /// Reassigns `token_id` from `from` to `to` without any safety check or
    /// event: updates the owner and moves the token between the two owners'
    /// index entries. The approval map and its counter travel unchanged.
    pub fn internal_transfer_unguarded(
        &mut self,
        token_id: &TokenId,
        from: &AccountId,
        to: &AccountId,
    )
        requires
            old(self).wf(),
            old(self).has_token(*token_id),
            old(self).token_at(*token_id).owner_id == from@,
            from@ != to@,
        ensures
            final(self).wf(),
            final(self).token_map() == old(self).token_map().insert(
                *token_id,
                (TokenInfo { owner_id: to@, ..old(self).token_at(*token_id) }),
            ),
            final(self).tokens@.len() == old(self).tokens@.len(),
            final(self).owner_id == old(self).owner_id,
            final(self).extra_storage_in_bytes_per_token == old(
                self,
            ).extra_storage_in_bytes_per_token,
    {
        let ghost pre = *old(self);
        let i = match self.find_token_index(token_id) {
            Some(i) => i,
            None => {
                proof {
                    assert(false);
                }
                return ;
            },
        };
        proof {
            lemma_idx_of_unique(pre.token_pairs(), i as int);
            assert(pre.tokens@[i as int]@ == pre.token_at(*token_id));
        }
        self.owner_index_remove(from, token_id);
        let ghost mid1 = *self;
        proof {
            // `to`'s binding was untouched by the removal, and in `pre` it
            // cannot list a token owned by `from`.
            lemma_map_binding(pre.index_pairs(), to@);
            lemma_map_binding(mid1.index_pairs(), to@);
            if has_key(pre.index_pairs(), to@) {
                let j = idx_of(pre.index_pairs(), to@);
                lemma_idx_of_unique(pre.index_pairs(), j);
                if val_of(pre.index_pairs(), to@).contains(*token_id) {
                    assert(index_entry_sound(pre, pre.tokens_per_owner@[j]));
                    let q = choose|q: int|
                        0 <= q < pre.tokens_per_owner@[j].token_ids@.len()
                            && pre.tokens_per_owner@[j].token_ids@[q] == *token_id;
                    assert(pre.token_at(*token_id).owner_id == to@);
                }
            }
            assert(has_key(mid1.index_pairs(), to@) ==> !val_of(mid1.index_pairs(), to@).contains(
                *token_id,
            ));
        }
        self.owner_index_add(to, token_id);
        let metadata = self.tokens[i].metadata.duplicate();
        let approvals = clone_approvals(&self.tokens[i].approved_account_ids);
        let next_approval_id = self.tokens[i].next_approval_id;
        let tid = self.tokens[i].token_id;
        self.tokens.set(
            i,
            TokenRecord {
                token_id: tid,
                owner_id: to.clone(),
                metadata,
                approved_account_ids: approvals,
                next_approval_id,
            },
        );
        proof {
            assert(final(self).tokens@[i as int]@ =~= TokenInfo {
                owner_id: to@,
                ..pre.tokens@[i as int]@
            });
            lemma_transfer_unguarded_restores_wf(pre, mid1, *self, *token_id, from@, to@, i as int);
        }
    }
}

/// Whether `sender` may move the token described by `t`, and with which
/// failure it is turned away otherwise. The owner always may; anyone else
/// needs a live approval, and a supplied expected approval id must match
/// the recorded one exactly.
pub open spec fn spec_transfer_check(
    t: TokenInfo,
    sender: Seq<char>,
    receiver: Seq<char>,
    approval_id: Option<u64>,
) -> Result<(), crate::Error> {
    if t.owner_id != sender && !has_key(t.approvals, sender) {
        Err(crate::Error::Unauthorized)
    } else if t.owner_id != sender && (approval_id matches Some(id) && val_of(t.approvals, sender)
        != id) {
        Err(crate::Error::ApprovalMismatch)
    } else if t.owner_id == receiver {
        Err(crate::Error::InvalidTransfer)
    } else {
        Ok(())
    }
}

/// The failure a transfer request is turned away with, if any: an absent
/// token first, then authorization, then the no-op check.
pub open spec fn spec_transfer_outcome(
    nft: NonFungibleToken,
    sender: Seq<char>,
    receiver: Seq<char>,
    token_id: TokenId,
    approval_id: Option<u64>,
) -> Result<(), crate::Error> {
    if !nft.has_token(token_id) {
        Err(crate::Error::NotFound)
    } else {
        spec_transfer_check(nft.token_at(token_id), sender, receiver, approval_id)
    }
}

impl NonFungibleToken {
    /// Empties the approval map of the record at position `i`, leaving its
    /// counter untouched, and hands the map back.
    pub(crate) fn take_approvals(&mut self, i: usize) -> (r: Vec<(AccountId, u64)>)
        requires
            old(self).wf(),
            i < old(self).tokens@.len(),
        ensures
            final(self).wf(),
            r@ == old(self).tokens@[i as int].approved_account_ids@,
            final(self).token_map() == old(self).token_map().insert(
                old(self).tokens@[i as int].token_id,
                (TokenInfo { approvals: Seq::empty(), ..old(self).tokens@[i as int]@ }),
            ),
            final(self).tokens@.len() == old(self).tokens@.len(),
            final(self).tokens@[i as int].token_id == old(self).tokens@[i as int].token_id,
            forall|q: int|
                0 <= q < old(self).tokens@.len() && q != i ==> final(self).tokens@[q] == old(
                    self,
                ).tokens@[q],
            final(self).tokens_per_owner == old(self).tokens_per_owner,
            final(self).owner_id == old(self).owner_id,
            final(self).extra_storage_in_bytes_per_token == old(
                self,
            ).extra_storage_in_bytes_per_token,
    {
        let ghost pre = *old(self);
        let taken = clone_approvals(&self.tokens[i].approved_account_ids);
        let metadata = self.tokens[i].metadata.duplicate();
        let owner_id = self.tokens[i].owner_id.clone();
        let next_approval_id = self.tokens[i].next_approval_id;
        let tid = self.tokens[i].token_id;
        self.tokens.set(
            i,
            TokenRecord {
                token_id: tid,
                owner_id,
                metadata,
                approved_account_ids: Vec::new(),
                next_approval_id,
            },
        );
        proof {
            lemma_record_update_same_owner(pre, *self, i as int);
            assert(final(self).tokens@[i as int]@ =~= (TokenInfo {
                approvals: Seq::empty(),
                ..pre.tokens@[i as int]@
            }));
        }
        taken
    }

    /// Replaces the approval map of the record at position `i`, leaving its
    /// counter untouched.
    pub(crate) fn put_approvals(&mut self, i: usize, approvals: Vec<(AccountId, u64)>)
        requires
            old(self).wf(),
            i < old(self).tokens@.len(),
            unique_keys(approvals_view(approvals@)),
            forall|q: int| 0 <= q < approvals@.len() ==> (#[trigger] approvals@[q]).1 < old(
                self,
            ).tokens@[i as int].next_approval_id,
        ensures
            final(self).wf(),
            final(self).token_map() == old(self).token_map().insert(
                old(self).tokens@[i as int].token_id,
                (TokenInfo { approvals: approvals_view(approvals@), ..old(self).tokens@[i as int]@ }),
            ),
            final(self).tokens@.len() == old(self).tokens@.len(),
            final(self).tokens_per_owner == old(self).tokens_per_owner,
            final(self).owner_id == old(self).owner_id,
            final(self).extra_storage_in_bytes_per_token == old(
                self,
            ).extra_storage_in_bytes_per_token,
    {
        let ghost pre = *old(self);
        let metadata = self.tokens[i].metadata.duplicate();
        let owner_id = self.tokens[i].owner_id.clone();
        let next_approval_id = self.tokens[i].next_approval_id;
        let tid = self.tokens[i].token_id;
        self.tokens.set(
            i,
            TokenRecord {
                token_id: tid,
                owner_id,
                metadata,
                approved_account_ids: approvals,
                next_approval_id,
            },
        );
        proof {
            lemma_record_update_same_owner(pre, *self, i as int);
            assert(final(self).tokens@[i as int]@ =~= (TokenInfo {
                approvals: approvals_view(approvals@),
                ..pre.tokens@[i as int]@
            }));
        }
    }

    /// Moves `token_id` from its current owner to `receiver_id` after
    /// checking that `sender_id` is allowed to: the owner always is, any
    /// other account only with a live approval whose id matches the expected
    /// one when that is supplied. Approvals are always cleared on success.
    /// Returns the previous owner, its approval map (the undo record a
    /// two-phase transfer consumes at resolution), and the transfer event.
    pub fn internal_transfer(
        &mut self,
        sender_id: &AccountId,
        receiver_id: &AccountId,
        token_id: &TokenId,
        approval_id: Option<u64>,
        memo: Option<String>,
    ) -> (r: Result<(AccountId, Vec<(AccountId, u64)>, crate::events::EventLog), crate::Error>)
        requires
            old(self).wf(),
        ensures
            final(self).owner_id == old(self).owner_id,
            final(self).extra_storage_in_bytes_per_token == old(
                self,
            ).extra_storage_in_bytes_per_token,
            r is Ok <==> spec_transfer_outcome(
                *old(self),
                sender_id@,
                receiver_id@,
                *token_id,
                approval_id,
            ) is Ok,
            match r {
                Ok((prev_owner, prev_approvals, event)) => {
                    &&& final(self).wf()
                    &&& prev_owner@ == old(self).token_at(*token_id).owner_id
                    &&& approvals_view(prev_approvals@) == old(self).token_at(*token_id).approvals
                    &&& final(self).token_map() == old(self).token_map().insert(
                        *token_id,
                        (TokenInfo {
                            owner_id: receiver_id@,
                            approvals: Seq::empty(),
                            ..old(self).token_at(*token_id)
                        }),
                    )
                    &&& final(self).tokens@.len() == old(self).tokens@.len()
                    &&& crate::events::is_transfer_event(event, prev_owner@, receiver_id@, *token_id)
                },
                Err(e) => {
                    &&& *final(self) == *old(self)
                    &&& Err::<(), crate::Error>(e) == spec_transfer_outcome(
                        *old(self),
                        sender_id@,
                        receiver_id@,
                        *token_id,
                        approval_id,
                    )
                },
            },
    {
        let ghost pre = *old(self);
        let i = match self.find_token_index(token_id) {
            Some(i) => i,
            None => {
                return Err(crate::Error::NotFound);
            },
        };
        proof {
            lemma_idx_of_unique(pre.token_pairs(), i as int);
            assert(pre.tokens@[i as int]@ == pre.token_at(*token_id));
        }
        if !crate::metadata::account_eq(sender_id, &self.tokens[i].owner_id) {
            // not the owner: a live approval is required
            let p = match find_approval(&self.tokens[i].approved_account_ids, sender_id) {
                Some(p) => p,
                None => {
                    return Err(crate::Error::Unauthorized);
                },
            };
            proof {
                lemma_idx_of_unique(
                    approvals_view(pre.tokens@[i as int].approved_account_ids@),
                    p as int,
                );
            }
            if let Some(expected) = approval_id {
                if self.tokens[i].approved_account_ids[p].1 != expected {
                    return Err(crate::Error::ApprovalMismatch);
                }
            }
        }
        if crate::metadata::account_eq(receiver_id, &self.tokens[i].owner_id) {
            return Err(crate::Error::InvalidTransfer);
        }
        let previous_owner_id = self.tokens[i].owner_id.clone();
        // approvals are always cleared on transfer; only an explicit
        // rollback restores them
        let previous_approvals = self.take_approvals(i);
        let ghost mid = *self;
        proof {
            assert(mid.has_token(*token_id) && mid.token_at(*token_id) =~= (TokenInfo {
                approvals: Seq::empty(),
                ..pre.token_at(*token_id)
            })) by {
                lemma_map_binding(mid.token_pairs(), *token_id);
            }
        }
        self.internal_transfer_unguarded(token_id, &previous_owner_id, receiver_id);
        let mut token_ids: Vec<TokenId> = Vec::new();
        token_ids.push(*token_id);
        let event = crate::events::EventLog::NftTransfer(
            crate::events::TransferData {
                old_owner_id: previous_owner_id.clone(),
                new_owner_id: receiver_id.clone(),
                token_ids,
            },
        );
        proof {
            assert(final(self).token_map() =~= pre.token_map().insert(
                *token_id,
                (TokenInfo {
                    owner_id: receiver_id@,
                    approvals: Seq::empty(),
                    ..pre.token_at(*token_id)
                }),
            ));
        }
        Ok((previous_owner_id, previous_approvals, event))
    }
}

/// After a record was rewritten in place with the same token id and owner —
/// only its approval map or counter changed, to another well-formed one —
/// the ledger invariant holds again.
proof fn lemma_record_update_same_owner(pre: NonFungibleToken, post: NonFungibleToken, i: int)
    requires
        pre.wf(),
        0 <= i < pre.tokens@.len(),
        post.tokens@.len() == pre.tokens@.len(),
        post.tokens@[i].token_id == pre.tokens@[i].token_id,
        post.tokens@[i].owner_id@ == pre.tokens@[i].owner_id@,
        info_wf(post.tokens@[i]@),
        forall|q: int| 0 <= q < pre.tokens@.len() && q != i ==> post.tokens@[q] == pre.tokens@[q],
        post.tokens_per_owner == pre.tokens_per_owner,
    ensures
        post.wf(),
        post.token_map() == pre.token_map().insert(pre.tokens@[i].token_id, post.tokens@[i]@),
{
    let token_id = pre.tokens@[i].token_id;
    lemma_idx_of_unique(pre.token_pairs(), i);
    assert(post.token_pairs() =~= pre.token_pairs().update(i, (token_id, post.tokens@[i]@)));
    lemma_update_value(pre.token_pairs(), i, post.tokens@[i]@);
    assert(post.tokens_wf()) by {
        assert forall|q: int| 0 <= q < post.tokens@.len() implies info_wf(
            (#[trigger] post.tokens@[q])@,
        ) by {
            if q != i {
                assert(post.tokens@[q] == pre.tokens@[q]);
                assert(info_wf(pre.tokens@[q]@));
            }
        }
    }
    assert(post.index_pairs() == pre.index_pairs());
    assert forall|q: int| 0 <= q < post.tokens_per_owner@.len() implies index_entry_sound(
        post,
        #[trigger] post.tokens_per_owner@[q],
    ) by {
        let o = post.tokens_per_owner@[q];
        assert(index_entry_sound(pre, o));
        assert forall|j: int| 0 <= j < o.token_ids@.len() implies post.has_token(
            #[trigger] o.token_ids@[j],
        ) && post.token_at(o.token_ids@[j]).owner_id == o.account_id@ by {
            let x = o.token_ids@[j];
            lemma_map_binding(pre.token_pairs(), x);
            lemma_map_binding(post.token_pairs(), x);
            if x == token_id {
                assert(post.token_map()[x] == post.tokens@[i]@);
            } else {
                assert(post.token_map()[x] == pre.token_map()[x]);
            }
        }
    }
    assert forall|q: int| 0 <= q < post.tokens@.len() implies {
        let r = #[trigger] post.tokens@[q];
        has_key(post.index_pairs(), r.owner_id@) && val_of(post.index_pairs(), r.owner_id@).contains(
            r.token_id,
        )
    } by {
        let r = post.tokens@[q];
        if q == i {
            let r0 = pre.tokens@[i];
            assert(has_key(pre.index_pairs(), r0.owner_id@) && val_of(
                pre.index_pairs(),
                r0.owner_id@,
            ).contains(r0.token_id));
        } else {
            assert(r == pre.tokens@[q]);
        }
    }
}

/// After an unguarded reassignment — the owner updated at one record, the
/// token moved out of `from`'s index entry and into `to`'s — the ledger
/// invariant holds again, and the ownership table changed by exactly that
/// one owner.
proof fn lemma_transfer_unguarded_restores_wf(
    pre: NonFungibleToken,
    mid: NonFungibleToken,
    post: NonFungibleToken,
    token_id: TokenId,
    from: Seq<char>,
    to: Seq<char>,
    i: int,
)
    requires
        pre.wf(),
        0 <= i < pre.tokens@.len(),
        pre.tokens@[i].token_id == token_id,
        pre.tokens@[i].owner_id@ == from,
        from != to,
        // the ownership table changed only at position i, owner only
        post.tokens@.len() == pre.tokens@.len(),
        post.tokens@[i].token_id == token_id,
        post.tokens@[i]@ == (TokenInfo { owner_id: to, ..pre.tokens@[i]@ }),
        forall|q: int| 0 <= q < pre.tokens@.len() && q != i ==> post.tokens@[q] == pre.tokens@[q],
        // the index went through `mid` (token removed from `from`)
        mid.tokens == pre.tokens,
        unique_keys(mid.index_pairs()),
        index_entries_shape_ok(mid.tokens_per_owner@),
        ({
            let oldl = val_of(pre.index_pairs(), from);
            if oldl.len() == 1 {
                as_map(mid.index_pairs()) == as_map(pre.index_pairs()).remove(from)
            } else {
                &&& has_key(mid.index_pairs(), from)
                &&& as_map(mid.index_pairs()) == as_map(pre.index_pairs()).insert(
                    from,
                    val_of(mid.index_pairs(), from),
                )
                &&& list_shrunk_by(oldl, val_of(mid.index_pairs(), from), token_id)
            }
        }),
        // and then the token joined `to`
        unique_keys(post.index_pairs()),
        index_entries_shape_ok(post.tokens_per_owner@),
        has_key(post.index_pairs(), to),
        as_map(post.index_pairs()) == as_map(mid.index_pairs()).insert(
            to,
            val_of(post.index_pairs(), to),
        ),
        list_grown_by(
            has_key(mid.index_pairs(), to),
            val_of(mid.index_pairs(), to),
            val_of(post.index_pairs(), to),
            token_id,
        ),
    ensures
        post.wf(),
        post.token_map() == pre.token_map().insert(
            token_id,
            (TokenInfo { owner_id: to, ..pre.token_at(token_id) }),
        ),
{
    lemma_idx_of_unique(pre.token_pairs(), i);
    assert(pre.token_at(token_id) == pre.tokens@[i]@);
    let newinfo = TokenInfo { owner_id: to, ..pre.tokens@[i]@ };
    assert(post.token_pairs() =~= pre.token_pairs().update(i, (token_id, newinfo)));
    lemma_update_value(pre.token_pairs(), i, newinfo);
    assert(post.tokens_wf()) by {
        assert forall|q: int| 0 <= q < post.tokens@.len() implies info_wf(
            (#[trigger] post.tokens@[q])@,
        ) by {
            if q != i {
                assert(post.tokens@[q] == pre.tokens@[q]);
                assert(info_wf(pre.tokens@[q]@));
            } else {
                assert(info_wf(pre.tokens@[i]@));
            }
        }
    }
    let oldf = val_of(pre.index_pairs(), from);
    let dropped = oldf.len() == 1;
    assert(has_key(pre.index_pairs(), from) && oldf.contains(token_id)) by {
        assert(pre.tokens@[i].owner_id@ == from);
    }
    lemma_map_binding(pre.index_pairs(), from);
    lemma_map_binding(pre.index_pairs(), to);
    lemma_map_binding(mid.index_pairs(), from);
    lemma_map_binding(mid.index_pairs(), to);
    lemma_map_binding(post.index_pairs(), from);
    lemma_map_binding(post.index_pairs(), to);
    // value of bindings other than from/to is unchanged pre -> post
    assert forall|a: Seq<char>|
        a != from && a != to implies (has_key(post.index_pairs(), a) <==> has_key(
        pre.index_pairs(),
        a,
    )) && (has_key(pre.index_pairs(), a) ==> val_of(post.index_pairs(), a) == val_of(
        pre.index_pairs(),
        a,
    )) by {
        lemma_map_binding(pre.index_pairs(), a);
        lemma_map_binding(mid.index_pairs(), a);
        lemma_map_binding(post.index_pairs(), a);
    }
    // each entry of the new index is sound
    assert forall|q: int| 0 <= q < post.tokens_per_owner@.len() implies index_entry_sound(
        post,
        #[trigger] post.tokens_per_owner@[q],
    ) by {
        lemma_idx_of_unique(post.index_pairs(), q);
        let o = post.tokens_per_owner@[q];
        let a = o.account_id@;
        assert(has_key(post.index_pairs(), a) && val_of(post.index_pairs(), a) == o.token_ids@);
        assert forall|j: int| 0 <= j < o.token_ids@.len() implies post.has_token(
            #[trigger] o.token_ids@[j],
        ) && post.token_at(o.token_ids@[j]).owner_id == a by {
            let x = o.token_ids@[j];
            assert(o.token_ids@.contains(x));
            lemma_map_binding(post.token_pairs(), x);
            lemma_map_binding(pre.token_pairs(), x);
            if a == to {
                if x == token_id {
                    assert(post.token_map()[x] == newinfo);
                } else {
                    assert(has_key(mid.index_pairs(), to) && val_of(mid.index_pairs(), to).contains(
                        x,
                    ));
                    lemma_map_binding(mid.index_pairs(), to);
                    lemma_map_binding(pre.index_pairs(), to);
                    assert(has_key(pre.index_pairs(), to) && val_of(pre.index_pairs(), to).contains(
                        x,
                    ));
                    entry_sound_at(pre, to, x);
                    assert(post.token_map()[x] == pre.token_map()[x]);
                }
            } else if a == from {
                assert(!dropped && x != token_id && oldf.contains(x)) by {
                    lemma_map_binding(mid.index_pairs(), from);
                    lemma_map_binding(post.index_pairs(), from);
                }
                entry_sound_at(pre, from, x);
                assert(post.token_map()[x] == pre.token_map()[x]);
            } else {
                assert(has_key(pre.index_pairs(), a) && val_of(pre.index_pairs(), a) == o.token_ids@);
                entry_sound_at(pre, a, x);
                assert(x != token_id) by {
                    if x == token_id {
                        assert(pre.token_at(x).owner_id == from);
                    }
                }
                assert(post.token_map()[x] == pre.token_map()[x]);
            }
        }
    }
    // every token is indexed under its owner
    assert forall|q: int| 0 <= q < post.tokens@.len() implies {
        let r = #[trigger] post.tokens@[q];
        has_key(post.index_pairs(), r.owner_id@) && val_of(post.index_pairs(), r.owner_id@).contains(
            r.token_id,
        )
    } by {
        let r = post.tokens@[q];
        lemma_map_binding(post.index_pairs(), r.owner_id@);
        if q == i {
            assert(r.owner_id@ == to);
            assert(val_of(post.index_pairs(), to).contains(token_id));
        } else {
            let r0 = pre.tokens@[q];
            assert(r == r0);
            assert(has_key(pre.index_pairs(), r0.owner_id@) && val_of(
                pre.index_pairs(),
                r0.owner_id@,
            ).contains(r0.token_id));
            assert(r0.token_id != token_id) by {
                assert(pre.token_pairs()[q].0 == r0.token_id);
                assert(pre.token_pairs()[i].0 == token_id);
            }
            lemma_map_binding(pre.index_pairs(), r0.owner_id@);
            lemma_map_binding(mid.index_pairs(), r0.owner_id@);
            if r0.owner_id@ == from {
                if dropped {
                    // `from`'s old entry held only `token_id`
                    let w1 = choose|w: int| 0 <= w < oldf.len() && oldf[w] == r0.token_id;
                    let w2 = choose|w: int| 0 <= w < oldf.len() && oldf[w] == token_id;
                    assert(w1 == 0 && w2 == 0);
                    assert(false);
                } else {
                    assert(val_of(mid.index_pairs(), from).contains(r0.token_id));
                    assert(val_of(post.index_pairs(), from) == val_of(mid.index_pairs(), from));
                }
            } else if r0.owner_id@ == to {
                assert(val_of(mid.index_pairs(), to) == val_of(pre.index_pairs(), to));
                assert(val_of(post.index_pairs(), to).contains(r0.token_id));
            } else {
            }
        }
    }
    assert(post.token_map() == pre.token_map().insert(token_id, newinfo));
    assert(newinfo =~= TokenInfo { owner_id: to, ..pre.token_at(token_id) });
}

impl NonFungibleToken {
    /// Mints `token_id` to `token_owner_id` with the given metadata, without
    /// checking the caller: records ownership, stores the metadata, indexes
    /// the token under its owner, and hands back the token view with an
    /// empty approval map. Fails with `AlreadyExists` when the id is taken.
    pub fn internal_mint(
        &mut self,
        token_id: TokenId,
        token_owner_id: AccountId,
        token_metadata: VersionedTokenMetadata,
    ) -> (r: Result<crate::metadata::Token, crate::Error>)
        requires
            old(self).wf(),
        ensures
            final(self).owner_id == old(self).owner_id,
            final(self).extra_storage_in_bytes_per_token == old(
                self,
            ).extra_storage_in_bytes_per_token,
            r is Ok <==> !old(self).has_token(token_id),
            match r {
                Ok(token) => {
                    &&& final(self).wf()
                    &&& final(self).token_map() == old(self).token_map().insert(
                        token_id,
                        (TokenInfo {
                            owner_id: token_owner_id@,
                            metadata: token_metadata,
                            approvals: Seq::empty(),
                            next_approval_id: 1,
                        }),
                    )
                    &&& final(self).tokens@.len() == old(self).tokens@.len() + 1
                    &&& token.token_id == token_id
                    &&& token.owner_id@ == token_owner_id@
                    &&& token.metadata == Some(
                        crate::metadata::spec_normalize_token_metadata(token_metadata),
                    )
                    &&& (token.approved_account_ids matches Some(a) && a@.len() == 0)
                },
                Err(e) => {
                    &&& *final(self) == *old(self)
                    &&& e == crate::Error::AlreadyExists
                },
            },
    {
        let ghost pre = *old(self);
        match self.find_token_index(&token_id) {
            Some(_) => {
                return Err(crate::Error::AlreadyExists);
            },
            None => {},
        }
        let returned_metadata = crate::metadata::versioned_token_metadata_to_token_metadata(
            token_metadata.duplicate(),
        );
        let record = TokenRecord {
            token_id,
            owner_id: token_owner_id.clone(),
            metadata: token_metadata,
            approved_account_ids: Vec::new(),
            next_approval_id: 1,
        };
        let ghost newinfo = record@;
        self.tokens.push(record);
        proof {
            // the new owner's entry, if any, cannot already list the token
            lemma_map_binding(pre.index_pairs(), token_owner_id@);
            if has_key(pre.index_pairs(), token_owner_id@) && val_of(
                pre.index_pairs(),
                token_owner_id@,
            ).contains(token_id) {
                entry_sound_at(pre, token_owner_id@, token_id);
            }
        }
        self.owner_index_add(&token_owner_id, &token_id);
        proof {
            lemma_mint_restores_wf(pre, *self, token_id, token_owner_id@, newinfo);
            assert(newinfo =~= (TokenInfo {
                owner_id: token_owner_id@,
                metadata: token_metadata,
                approvals: Seq::empty(),
                next_approval_id: 1,
            }));
        }
        let token = crate::metadata::Token {
            token_id,
            owner_id: token_owner_id,
            metadata: Some(returned_metadata),
            approved_account_ids: Some(Vec::new()),
        };
        Ok(token)
    }
}

/// After a mint — a fresh record appended, the token added to its owner's
/// index entry — the ledger invariant holds again, and the ownership table
/// gained exactly that binding.
proof fn lemma_mint_restores_wf(
    pre: NonFungibleToken,
    post: NonFungibleToken,
    token_id: TokenId,
    owner: Seq<char>,
    newinfo: TokenInfo,
)
    requires
        pre.wf(),
        !pre.has_token(token_id),
        post.tokens@.len() == pre.tokens@.len() + 1,
        post.tokens@[post.tokens@.len() - 1].token_id == token_id,
        post.tokens@[post.tokens@.len() - 1].owner_id@ == owner,
        post.tokens@[post.tokens@.len() - 1]@ == newinfo,
        info_wf(newinfo),
        forall|q: int| 0 <= q < pre.tokens@.len() ==> post.tokens@[q] == pre.tokens@[q],
        unique_keys(post.index_pairs()),
        index_entries_shape_ok(post.tokens_per_owner@),
        has_key(post.index_pairs(), owner),
        as_map(post.index_pairs()) == as_map(pre.index_pairs()).insert(
            owner,
            val_of(post.index_pairs(), owner),
        ),
        list_grown_by(
            has_key(pre.index_pairs(), owner),
            val_of(pre.index_pairs(), owner),
            val_of(post.index_pairs(), owner),
            token_id,
        ),
    ensures
        post.wf(),
        post.token_map() == pre.token_map().insert(token_id, newinfo),
{
    let n = pre.tokens@.len() as int;
    assert(post.token_pairs() =~= pre.token_pairs().push((token_id, newinfo)));
    lemma_push_fresh(pre.token_pairs(), token_id, newinfo);
    assert(post.tokens_wf()) by {
        assert forall|q: int| 0 <= q < post.tokens@.len() implies info_wf(
            (#[trigger] post.tokens@[q])@,
        ) by {
            if q < n {
                assert(post.tokens@[q] == pre.tokens@[q]);
                assert(info_wf(pre.tokens@[q]@));
            }
        }
    }
    // each entry of the new index is sound
    assert forall|q: int| 0 <= q < post.tokens_per_owner@.len() implies index_entry_sound(
        post,
        #[trigger] post.tokens_per_owner@[q],
    ) by {
        lemma_idx_of_unique(post.index_pairs(), q);
        let o = post.tokens_per_owner@[q];
        let a = o.account_id@;
        assert(has_key(post.index_pairs(), a) && val_of(post.index_pairs(), a) == o.token_ids@);
        lemma_map_binding(pre.index_pairs(), a);
        lemma_map_binding(post.index_pairs(), a);
        assert forall|j: int| 0 <= j < o.token_ids@.len() implies post.has_token(
            #[trigger] o.token_ids@[j],
        ) && post.token_at(o.token_ids@[j]).owner_id == a by {
            let x = o.token_ids@[j];
            assert(o.token_ids@.contains(x));
            lemma_map_binding(pre.token_pairs(), x);
            lemma_map_binding(post.token_pairs(), x);
            if a == owner {
                if x == token_id {
                    assert(post.token_map()[x] == newinfo);
                } else {
                    assert(has_key(pre.index_pairs(), owner) && val_of(
                        pre.index_pairs(),
                        owner,
                    ).contains(x));
                    entry_sound_at(pre, owner, x);
                    assert(post.token_map()[x] == pre.token_map()[x]);
                }
            } else {
                assert(has_key(pre.index_pairs(), a) && val_of(pre.index_pairs(), a) == o.token_ids@);
                entry_sound_at(pre, a, x);
                assert(x != token_id);
                assert(post.token_map()[x] == pre.token_map()[x]);
            }
        }
    }
    // every token is indexed under its owner
    assert forall|q: int| 0 <= q < post.tokens@.len() implies {
        let r = #[trigger] post.tokens@[q];
        has_key(post.index_pairs(), r.owner_id@) && val_of(post.index_pairs(), r.owner_id@).contains(
            r.token_id,
        )
    } by {
        let r = post.tokens@[q];
        lemma_map_binding(pre.index_pairs(), r.owner_id@);
        lemma_map_binding(post.index_pairs(), r.owner_id@);
        if q == n {
            assert(val_of(post.index_pairs(), owner).contains(token_id));
        } else {
            let r0 = pre.tokens@[q];
            assert(r == r0);
            assert(has_key(pre.index_pairs(), r0.owner_id@) && val_of(
                pre.index_pairs(),
                r0.owner_id@,
            ).contains(r0.token_id));
            assert(r0.token_id != token_id) by {
                assert(pre.token_pairs()[q].0 == r0.token_id);
            }
            if r0.owner_id@ == owner {
                assert(val_of(post.index_pairs(), owner).contains(r0.token_id));
            }
        }
    }
}

/// The per-token storage estimate, in bytes: a worst-case record with
/// 64-character token and account names — the identifier, the owner, the
/// metadata fields with their length prefixes, one enumeration index entry,
/// one approval entry and the approval counter.
pub open spec fn spec_min_token_storage_cost() -> int {
    ((64 + 4) + (64 + 4) + ((64 + 4) + (64 + 4) + (64 + 4) + 8 + (6 + 4)) + ((64 + 4) + (64 + 4)) + (
    64 + 12) + 8) as int
}

impl NonFungibleTokenV1 {
    /// An empty ledger in the superseded shape.
    pub fn new(owner_id: AccountId) -> (r: NonFungibleTokenV1)
        ensures
            r.owner_id == owner_id,
            r.tokens@.len() == 0,
            r.tokens_per_owner@.len() == 0,
    {
        NonFungibleTokenV1 {
            owner_id,
            extra_storage_in_bytes_per_token: 0,
            tokens: Vec::new(),
            tokens_per_owner: Vec::new(),
        }
    }
}

impl NonFungibleToken {
    /// An empty ledger administered by `owner_id`, with its per-token
    /// storage cost measured.
    pub fn new(owner_id: AccountId) -> (r: NonFungibleToken)
        ensures
            r.wf(),
            r.owner_id == owner_id,
            r.tokens@.len() == 0,
            r.tokens_per_owner@.len() == 0,
            r.extra_storage_in_bytes_per_token == spec_min_token_storage_cost(),
    {
        let mut this = NonFungibleToken {
            owner_id,
            extra_storage_in_bytes_per_token: 0,
            tokens: Vec::new(),
            tokens_per_owner: Vec::new(),
        };
        this.measure_min_token_storage_cost();
        this
    }

    /// Fixes the bytes charged for one newly minted token. The measure is a
    /// worst-case record with 64-character names: identifier and owner,
    /// the metadata fields with their length prefixes, one enumeration
    /// index entry, one approval entry and the approval counter.
    fn measure_min_token_storage_cost(&mut self)
        ensures
            final(self).extra_storage_in_bytes_per_token == spec_min_token_storage_cost(),
            final(self).tokens == old(self).tokens,
            final(self).tokens_per_owner == old(self).tokens_per_owner,
            final(self).owner_id == old(self).owner_id,
    {
        let id_cost: u64 = 64 + 4;
        let owner_cost: u64 = 64 + 4;
        let metadata_cost: u64 = (64 + 4) + (64 + 4) + (64 + 4) + 8 + (6 + 4);
        let enumeration_cost: u64 = (64 + 4) + (64 + 4);
        let approval_cost: u64 = 64 + 12;
        let counter_cost: u64 = 8;
        self.extra_storage_in_bytes_per_token = id_cost + owner_cost + metadata_cost
            + enumeration_cost + approval_cost + counter_cost;
    }
}

impl NonFungibleToken {
    /// Grants `account_id` the next approval id on the record at position
    /// `i`, superseding any earlier grant, and bumps the counter — even when
    /// re-approving the same account, so stale ids can never match again.
    /// Returns the granted id and whether the account is newly approved.
    pub(crate) fn approve_record(&mut self, i: usize, account_id: &AccountId) -> (r: (u64, bool))
        requires
            old(self).wf(),
            i < old(self).tokens@.len(),
            old(self).tokens@[i as int].next_approval_id < u64::MAX,
        ensures
            final(self).wf(),
            ({
                let tid = old(self).tokens@[i as int].token_id;
                let oldinfo = old(self).tokens@[i as int]@;
                let newinfo = final(self).token_at(tid);
                &&& r.0 == oldinfo.next_approval_id
                &&& r.1 == !has_key(oldinfo.approvals, account_id@)
                &&& final(self).has_token(tid)
                &&& newinfo.owner_id == oldinfo.owner_id
                &&& newinfo.metadata == oldinfo.metadata
                &&& newinfo.next_approval_id == oldinfo.next_approval_id + 1
                &&& as_map(newinfo.approvals) == as_map(oldinfo.approvals).insert(
                    account_id@,
                    oldinfo.next_approval_id,
                )
                &&& newinfo.approvals.len() as int == if r.1 {
                    oldinfo.approvals.len() as int + 1
                } else {
                    oldinfo.approvals.len() as int
                }
                &&& final(self).token_map() == old(self).token_map().insert(tid, newinfo)
            }),
            forall|x: TokenId| final(self).has_token(x) == old(self).has_token(x),
            final(self).tokens_per_owner == old(self).tokens_per_owner,
            final(self).owner_id == old(self).owner_id,
            final(self).extra_storage_in_bytes_per_token == old(
                self,
            ).extra_storage_in_bytes_per_token,
    {
        let ghost pre = *old(self);
        let ghost tid = pre.tokens@[i as int].token_id;
        let ghost oldview = approvals_view(pre.tokens@[i as int].approved_account_ids@);
        let approval_id = self.tokens[i].next_approval_id;
        let mut new_approvals = clone_approvals(&self.tokens[i].approved_account_ids);
        let newly_added: bool;
        match find_approval(&new_approvals, account_id) {
            Some(p) => {
                proof {
                    lemma_idx_of_unique(oldview, p as int);
                }
                new_approvals.set(p, (account_id.clone(), approval_id));
                newly_added = false;
                proof {
                    assert(approvals_view(new_approvals@) =~= oldview.update(
                        p as int,
                        (account_id@, approval_id),
                    ));
                    lemma_update_value(oldview, p as int, approval_id);
                }
            },
            None => {
                new_approvals.push((account_id.clone(), approval_id));
                newly_added = true;
                proof {
                    assert(approvals_view(new_approvals@) =~= oldview.push(
                        (account_id@, approval_id),
                    ));
                    lemma_push_fresh(oldview, account_id@, approval_id);
                }
            },
        }
        let metadata = self.tokens[i].metadata.duplicate();
        let owner_id = self.tokens[i].owner_id.clone();
        let token_id = self.tokens[i].token_id;
        self.tokens.set(
            i,
            TokenRecord {
                token_id,
                owner_id,
                metadata,
                approved_account_ids: new_approvals,
                next_approval_id: approval_id + 1,
            },
        );
        proof {
            lemma_record_update_same_owner(pre, *self, i as int);
            lemma_idx_of_unique(pre.token_pairs(), i as int);
            lemma_map_binding(final(self).token_pairs(), tid);
            lemma_idx_of_unique(final(self).token_pairs(), i as int);
            assert forall|x: TokenId| final(self).has_token(x) == pre.has_token(x) by {
                lemma_map_binding(final(self).token_pairs(), x);
                lemma_map_binding(pre.token_pairs(), x);
            }
        }
        (approval_id, newly_added)
    }

    /// Removes `account_id`'s grant from the record at position `i`, if any;
    /// the counter stays. Returns whether a grant was removed.
    pub(crate) fn revoke_record(&mut self, i: usize, account_id: &AccountId) -> (r: bool)
        requires
            old(self).wf(),
            i < old(self).tokens@.len(),
        ensures
            final(self).wf(),
            ({
                let tid = old(self).tokens@[i as int].token_id;
                let oldinfo = old(self).tokens@[i as int]@;
                let newinfo = final(self).token_at(tid);
                &&& r == has_key(oldinfo.approvals, account_id@)
                &&& final(self).has_token(tid)
                &&& newinfo.owner_id == oldinfo.owner_id
                &&& newinfo.metadata == oldinfo.metadata
                &&& newinfo.next_approval_id == oldinfo.next_approval_id
                &&& as_map(newinfo.approvals) == as_map(oldinfo.approvals).remove(account_id@)
                &&& final(self).token_map() == old(self).token_map().insert(tid, newinfo)
            }),
            forall|x: TokenId| final(self).has_token(x) == old(self).has_token(x),
            final(self).tokens_per_owner == old(self).tokens_per_owner,
            final(self).owner_id == old(self).owner_id,
            final(self).extra_storage_in_bytes_per_token == old(
                self,
            ).extra_storage_in_bytes_per_token,
    {
        let ghost pre = *old(self);
        let ghost tid = pre.tokens@[i as int].token_id;
        let ghost oldview = approvals_view(pre.tokens@[i as int].approved_account_ids@);
        let mut new_approvals = clone_approvals(&self.tokens[i].approved_account_ids);
        let removed: bool;
        match find_approval(&new_approvals, account_id) {
            Some(p) => {
                proof {
                    lemma_idx_of_unique(oldview, p as int);
                }
                new_approvals.remove(p);
                removed = true;
                proof {
                    assert(approvals_view(new_approvals@) =~= oldview.remove(p as int));
                    lemma_remove_at(oldview, p as int);
                }
            },
            None => {
                removed = false;
                proof {
                    lemma_map_binding(oldview, account_id@);
                    assert(as_map(oldview).remove(account_id@) =~= as_map(oldview));
                }
            },
        }
        let metadata = self.tokens[i].metadata.duplicate();
        let owner_id = self.tokens[i].owner_id.clone();
        let token_id = self.tokens[i].token_id;
        self.tokens.set(
            i,
            TokenRecord {
                token_id,
                owner_id,
                metadata,
                approved_account_ids: new_approvals,
                next_approval_id: self.tokens[i].next_approval_id,
            },
        );
        proof {
            lemma_record_update_same_owner(pre, *self, i as int);
            lemma_idx_of_unique(pre.token_pairs(), i as int);
            lemma_map_binding(final(self).token_pairs(), tid);
            lemma_idx_of_unique(final(self).token_pairs(), i as int);
            assert forall|x: TokenId| final(self).has_token(x) == pre.has_token(x) by {
                lemma_map_binding(final(self).token_pairs(), x);
                lemma_map_binding(pre.token_pairs(), x);
            }
        }
        removed
    }
}

/// What came back from the receiver notified by a two-phase transfer: the
/// call failed outright, or returned a serialized value.
#[derive(Debug, Clone, PartialEq, Eq)]
pub enum TransferCallOutcome {
    Failed,
    Returned(Vec<u8>),
}

/// JSON insignificant whitespace.
pub open spec fn spec_json_ws(b: u8) -> bool {
    b == 0x20 || b == 0x09 || b == 0x0a || b == 0x0d
}

/// The first position at or after `i` holding a non-whitespace byte (or the
/// end).
pub open spec fn first_non_ws(b: Seq<u8>, i: int) -> int
    decreases b.len() - i,
{
    if i >= b.len() || !spec_json_ws(b[i]) {
        i
    } else {
        first_non_ws(b, i + 1)
    }
}

/// The position after the last non-whitespace byte strictly before `j` (or
/// 0).
pub open spec fn last_non_ws(b: Seq<u8>, j: int) -> int
    decreases j,
{
    if j <= 0 || !spec_json_ws(b[j - 1]) {
        j
    } else {
        last_non_ws(b, j - 1)
    }
}

pub proof fn lemma_last_non_ws_le(b: Seq<u8>, j: int)
    ensures
        last_non_ws(b, j) <= j,
    decreases j,
{
    if !(j <= 0 || !spec_json_ws(b[j - 1])) {
        lemma_last_non_ws_le(b, j - 1);
    }
}

/// The value a serialized JSON boolean denotes: the bytes of `true` or
/// `false` amid insignificant whitespace, and nothing else.
pub open spec fn spec_parse_json_bool(b: Seq<u8>) -> Option<bool> {
    let i = first_non_ws(b, 0);
    let j = last_non_ws(b, b.len() as int);
    if i < j && b.subrange(i, j) == seq![0x74u8, 0x72u8, 0x75u8, 0x65u8] {
        Some(true)
    } else if i < j && b.subrange(i, j) == seq![0x66u8, 0x61u8, 0x6cu8, 0x73u8, 0x65u8] {
        Some(false)
    } else {
        None
    }
}

/// Whether `b` is JSON insignificant whitespace.
pub fn is_json_ws(b: u8) -> (r: bool)
    ensures
        r == spec_json_ws(b),
{
    b == 0x20 || b == 0x09 || b == 0x0a || b == 0x0d
}

/// Reads a serialized JSON boolean: the bytes of `true` or `false` amid
/// insignificant whitespace. Anything else reads as nothing.
pub fn parse_json_bool(bytes: &Vec<u8>) -> (r: Option<bool>)
    ensures
        r == spec_parse_json_bool(bytes@),
{
    let n = bytes.len();
    let mut lo: usize = 0;
    while lo < n && is_json_ws(bytes[lo])
        invariant
            lo <= n,
            n == bytes@.len(),
            first_non_ws(bytes@, 0) == first_non_ws(bytes@, lo as int),
        decreases n - lo,
    {
        proof {
            assert(first_non_ws(bytes@, lo as int) == first_non_ws(bytes@, lo as int + 1));
        }
        lo = lo + 1;
    }
    proof {
        assert(first_non_ws(bytes@, lo as int) == lo as int);
    }
    let mut hi: usize = n;
    while hi > lo && is_json_ws(bytes[hi - 1])
        invariant
            lo <= hi <= n,
            n == bytes@.len(),
            last_non_ws(bytes@, n as int) == last_non_ws(bytes@, hi as int),
        decreases hi,
    {
        proof {
            assert(last_non_ws(bytes@, hi as int) == last_non_ws(bytes@, hi as int - 1));
        }
        hi = hi - 1;
    }
    let ghost i = first_non_ws(bytes@, 0);
    let ghost j = last_non_ws(bytes@, bytes@.len() as int);
    proof {
        if hi > lo {
            assert(j == hi as int);
        } else {
            lemma_last_non_ws_le(bytes@, hi as int);
            assert(j <= lo as int);
        }
    }
    if hi > lo && hi - lo == 4 {
        if bytes[lo] == 0x74 && bytes[lo + 1] == 0x72 && bytes[lo + 2] == 0x75 && bytes[lo + 3]
            == 0x65 {
            proof {
                assert(bytes@.subrange(i, j) =~= seq![0x74u8, 0x72u8, 0x75u8, 0x65u8]);
            }
            return Some(true);
        }
        proof {
            assert(bytes@.subrange(i, j).len() == 4);
            let lit = seq![0x74u8, 0x72u8, 0x75u8, 0x65u8];
            if bytes@.subrange(i, j) == lit {
                assert(bytes@[i] == lit[0] && bytes@[i + 1] == lit[1] && bytes@[i + 2] == lit[2]
                    && bytes@[i + 3] == lit[3]);
            }
        }
        return None;
    }
    if hi > lo && hi - lo == 5 {
        if bytes[lo] == 0x66 && bytes[lo + 1] == 0x61 && bytes[lo + 2] == 0x6c && bytes[lo + 3]
            == 0x73 && bytes[lo + 4] == 0x65 {
            proof {
                assert(bytes@.subrange(i, j) =~= seq![0x66u8, 0x61u8, 0x6cu8, 0x73u8, 0x65u8]);
            }
            return Some(false);
        }
        proof {
            assert(bytes@.subrange(i, j).len() == 5);
            let lit = seq![0x66u8, 0x61u8, 0x6cu8, 0x73u8, 0x65u8];
            if bytes@.subrange(i, j) == lit {
                assert(bytes@[i] == lit[0] && bytes@[i + 1] == lit[1] && bytes@[i + 2] == lit[2]
                    && bytes@[i + 3] == lit[3] && bytes@[i + 4] == lit[4]);
            }
        }
        return None;
    }
    proof {
        if i < j {
            assert(bytes@.subrange(i, j).len() == j - i);
        }
    }
    None
}

/// Whether the receiver's answer demands the transfer be rolled back: an
/// outright failure, an explicit `true`, and anything unreadable all do —
/// the fail-safe default.
pub open spec fn spec_must_revert(outcome: TransferCallOutcome) -> bool {
    match outcome {
        TransferCallOutcome::Failed => true,
        TransferCallOutcome::Returned(v) => match spec_parse_json_bool(v@) {
            Some(b) => b,
            None => true,
        },
    }
}

/// Reads the receiver's answer, defaulting to "roll back" for anything but
/// a readable `false`.
pub fn must_revert_of_outcome(outcome: &TransferCallOutcome) -> (r: bool)
    ensures
        r == spec_must_revert(*outcome),
{
    match outcome {
        TransferCallOutcome::Failed => true,
        TransferCallOutcome::Returned(v) => match parse_json_bool(v) {
            Some(b) => b,
            None => true,
        },
    }
}

impl NonFungibleToken {
    /// Resolves a two-phase transfer once the receiver's answer is in.
    /// Returns whether the transfer stands, and any storage refund owed.
    ///
    /// When the answer demands a rollback, the state in the meantime decides:
    /// if the receiver still holds the token, ownership returns to the
    /// previous owner, the receiver is refunded for approvals it set in the
    /// window, and the previous owner's pre-transfer approval map is
    /// restored exactly; if the token moved on, the transfer is irreversible
    /// and stands; if the token is gone, only the previous owner's old
    /// approval storage is refunded.
    pub fn nft_resolve_transfer(
        &mut self,
        previous_owner_id: AccountId,
        receiver_id: AccountId,
        token_id: TokenId,
        approved_account_ids: Option<Vec<(AccountId, u64)>>,
        outcome: TransferCallOutcome,
    ) -> (r: (bool, Option<crate::utils::Refund>))
        requires
            old(self).wf(),
            previous_owner_id@ != receiver_id@,
            // the undo record stems from this token's earlier transfer
            match approved_account_ids {
                Some(v) => unique_keys(approvals_view(v@))
                    && crate::utils::spec_approvals_storage(approvals_view(v@)) <= u64::MAX,
                None => true,
            },
            match approved_account_ids {
                Some(v) => old(self).has_token(token_id) ==> (forall|q: int|
                    0 <= q < v@.len() ==> (#[trigger] v@[q]).1 < old(self).token_at(
                        token_id,
                    ).next_approval_id),
                None => true,
            },
            old(self).has_token(token_id) ==> crate::utils::spec_approvals_storage(
                old(self).token_at(token_id).approvals,
            ) <= u64::MAX,
        ensures
            final(self).owner_id == old(self).owner_id,
            final(self).extra_storage_in_bytes_per_token == old(
                self,
            ).extra_storage_in_bytes_per_token,
            ({
                let revert = spec_must_revert(outcome);
                if !revert {
                    // the receiver kept the token: the transfer is final
                    r.0 == true && *final(self) == *old(self) && r.1 is None
                } else if !old(self).has_token(token_id) {
                    // destroyed in the window: nothing to reverse; refund
                    // the previous owner its old approval storage
                    &&& r.0 == true
                    &&& *final(self) == *old(self)
                    &&& match approved_account_ids {
                        Some(v) => (r.1 matches Some(f) && f.account_id@ == previous_owner_id@
                            && f.amount == crate::utils::spec_approvals_storage(approvals_view(v@))
                            * crate::utils::STORAGE_PRICE_PER_BYTE),
                        None => r.1 is None,
                    }
                } else if old(self).token_at(token_id).owner_id != receiver_id@ {
                    // moved on in the window: irreversible, stands
                    r.0 == true && *final(self) == *old(self) && r.1 is None
                } else {
                    // still held by the receiver: reverse it
                    &&& r.0 == false
                    &&& final(self).wf()
                    &&& final(self).token_map() == old(self).token_map().insert(
                        token_id,
                        (TokenInfo {
                            owner_id: previous_owner_id@,
                            approvals: match approved_account_ids {
                                Some(v) => approvals_view(v@),
                                None => old(self).token_at(token_id).approvals,
                            },
                            ..old(self).token_at(token_id)
                        }),
                    )
                    &&& (r.1 matches Some(f) && f.account_id@ == receiver_id@ && f.amount
                        == crate::utils::spec_approvals_storage(
                        old(self).token_at(token_id).approvals,
                    ) * crate::utils::STORAGE_PRICE_PER_BYTE)
                }
            }),
    {
        let ghost pre = *old(self);
        let must_revert = must_revert_of_outcome(&outcome);
        if !must_revert {
            return (true, None);
        }
        // check that the receiver did not already transfer or burn it
        let i = match self.find_token_index(&token_id) {
            Some(i) => i,
            None => {
                // burned: refund storage for the old approvals and stop
                match approved_account_ids {
                    Some(v) => {
                        let f = crate::utils::refund_approved_account_ids(previous_owner_id, &v);
                        return (true, Some(f));
                    },
                    None => {
                        return (true, None);
                    },
                }
            },
        };
        proof {
            lemma_idx_of_unique(pre.token_pairs(), i as int);
            assert(pre.tokens@[i as int]@ == pre.token_at(token_id));
        }
        if !crate::metadata::account_eq(&self.tokens[i].owner_id, &receiver_id) {
            // not owned by the receiver anymore: cannot return it
            return (true, None);
        }
        // revert any approvals the receiver set in the window, refunding it
        let receiver_refund = crate::utils::refund_approved_account_ids(
            receiver_id.clone(),
            &self.tokens[i].approved_account_ids,
        );
        self.internal_transfer_unguarded(&token_id, &receiver_id, &previous_owner_id);
        let ghost mid = *self;
        proof {
            lemma_map_binding(mid.token_pairs(), token_id);
        }
        // restore the approvals the previous owner had set before the call
        match approved_account_ids {
            Some(v) => {
                let j = match self.find_token_index(&token_id) {
                    Some(j) => j,
                    None => {
                        proof {
                            assert(false);
                        }
                        return (true, None);
                    },
                };
                proof {
                    lemma_idx_of_unique(mid.token_pairs(), j as int);
                    assert(mid.tokens@[j as int]@ == mid.token_at(token_id));
                }
                self.put_approvals(j, v);
                proof {
                    assert(final(self).token_map() =~= pre.token_map().insert(
                        token_id,
                        (TokenInfo {
                            owner_id: previous_owner_id@,
                            approvals: approvals_view(v@),
                            ..pre.token_at(token_id)
                        }),
                    ));
                }
            },
            None => {
                proof {
                    assert(final(self).token_map() =~= pre.token_map().insert(
                        token_id,
                        (TokenInfo {
                            owner_id: previous_owner_id@,
                            approvals: pre.token_at(token_id).approvals,
                            ..pre.token_at(token_id)
                        }),
                    ));
                }
            },
        }
        (false, Some(receiver_refund))
    }
}

/// What the receiving side of a two-phase transfer implements: notified
/// with the transfer's context, it answers whether the token should be
/// returned to the sender. The host carries the answer back as a
/// [`TransferCallOutcome`].
pub trait NonFungibleTokenReceiver {
    /// Returns `true` if the token should be returned to the sender.
    fn nft_on_transfer(
        &mut self,
        sender_id: AccountId,
        previous_owner_id: AccountId,
        token_id: TokenId,
        msg: String,
    ) -> bool;
}

/// Everything the host needs to finish a two-phase transfer: the arguments
/// of the receiver notification, and the undo record the resolution step
/// consumes.
#[derive(Debug, Clone, PartialEq, Eq)]
pub struct TransferCallReceipt {
    /// Who asked for the transfer.
    pub sender_id: AccountId,
    /// Who held the token before — ownership returns here on rollback.
    pub previous_owner_id: AccountId,
    /// Who holds the token now and is notified.
    pub receiver_id: AccountId,
    pub token_id: TokenId,
    /// Handed to the receiver unchanged.
    pub msg: String,
    /// The approval map cleared by the transfer, restored on rollback.
    pub approved_account_ids: Vec<(AccountId, u64)>,
}

impl crate::Contract {
    /// Moves `token_id` to `receiver_id` on behalf of `predecessor`, who
    /// must be the owner or hold a live approval (matching the expected id
    /// when one is supplied), with exactly one currency unit attached. All
    /// approvals on the token are cleared.
    pub fn nft_transfer(
        &mut self,
        receiver_id: AccountId,
        token_id: TokenId,
        approval_id: Option<u64>,
        memo: Option<String>,
        predecessor_account_id: &AccountId,
        attached_deposit: u128,
    ) -> (r: Result<crate::events::EventLog, crate::Error>)
        requires
            old(self).wf(),
        ensures
            r is Ok <==> (attached_deposit == 1 && spec_transfer_outcome(
                old(self).nft(),
                predecessor_account_id@,
                receiver_id@,
                token_id,
                approval_id,
            ) is Ok),
            match r {
                Ok(event) => {
                    let oldinfo = old(self).nft().token_at(token_id);
                    &&& final(self).wf()
                    &&& final(self).nft().token_map() == old(self).nft().token_map().insert(
                        token_id,
                        (TokenInfo {
                            owner_id: receiver_id@,
                            approvals: Seq::empty(),
                            ..oldinfo
                        }),
                    )
                    &&& crate::events::is_transfer_event(
                        event,
                        oldinfo.owner_id,
                        receiver_id@,
                        token_id,
                    )
                    &&& final(self).token_type_by_id == old(self).token_type_by_id
                    &&& final(self).token_type_by_title == old(self).token_type_by_title
                    &&& final(self).token_type_assets_by_id == old(self).token_type_assets_by_id
                    &&& final(self).next_token_type_id == old(self).next_token_type_id
                    &&& final(self).nft().owner_id == old(self).nft().owner_id
                },
                Err(e) => {
                    &&& *final(self) == *old(self)
                    &&& if attached_deposit != 1 {
                        e == crate::Error::InsufficientDeposit
                    } else {
                        Err::<(), crate::Error>(e) == spec_transfer_outcome(
                            old(self).nft(),
                            predecessor_account_id@,
                            receiver_id@,
                            token_id,
                            approval_id,
                        )
                    }
                },
            },
    {
        let ghost pre = *old(self);
        if !crate::utils::assert_one_yocto(attached_deposit) {
            return Err(crate::Error::InsufficientDeposit);
        }
        let nft = self.tokens_mut();
        let moved = nft.internal_transfer(
            predecessor_account_id,
            &receiver_id,
            &token_id,
            approval_id,
            memo,
        );
        match moved {
            Ok((_prev_owner, _prev_approvals, event)) => {
                proof {
                    assert forall|x: TokenId| final(self).nft().has_token(x) == pre.nft().has_token(
                        x,
                    ) by {
                        lemma_map_binding(final(self).nft().token_pairs(), x);
                        lemma_map_binding(pre.nft().token_pairs(), x);
                    }
                    crate::lemma_cross_ok_same_domain(
                        final(self).type_pairs(),
                        pre.nft(),
                        final(self).nft(),
                    );
                }
                Ok(event)
            },
            Err(e) => Err(e),
        }
    }

    /// Starts a two-phase transfer: moves the token exactly as
    /// [`Self::nft_transfer`] does, then hands back the receipt with which
    /// the host notifies the receiver and later runs the resolution step.
    pub fn nft_transfer_call(
        &mut self,
        receiver_id: AccountId,
        token_id: TokenId,
        approval_id: Option<u64>,
        memo: Option<String>,
        msg: String,
        predecessor_account_id: &AccountId,
        attached_deposit: u128,
    ) -> (r: Result<(TransferCallReceipt, crate::events::EventLog), crate::Error>)
        requires
            old(self).wf(),
        ensures
            r is Ok <==> (attached_deposit == 1 && spec_transfer_outcome(
                old(self).nft(),
                predecessor_account_id@,
                receiver_id@,
                token_id,
                approval_id,
            ) is Ok),
            match r {
                Ok((receipt, event)) => {
                    let oldinfo = old(self).nft().token_at(token_id);
                    &&& final(self).wf()
                    &&& final(self).nft().token_map() == old(self).nft().token_map().insert(
                        token_id,
                        (TokenInfo {
                            owner_id: receiver_id@,
                            approvals: Seq::empty(),
                            ..oldinfo
                        }),
                    )
                    &&& crate::events::is_transfer_event(
                        event,
                        oldinfo.owner_id,
                        receiver_id@,
                        token_id,
                    )
                    &&& receipt.sender_id@ == predecessor_account_id@
                    &&& receipt.previous_owner_id@ == oldinfo.owner_id
                    &&& receipt.receiver_id == receiver_id
                    &&& receipt.token_id == token_id
                    &&& receipt.msg == msg
                    &&& approvals_view(receipt.approved_account_ids@) == oldinfo.approvals
                    // the undo record satisfies what the resolution step asks
                    &&& unique_keys(approvals_view(receipt.approved_account_ids@))
                    &&& forall|q: int|
                        0 <= q < receipt.approved_account_ids@.len()
                            ==> (#[trigger] receipt.approved_account_ids@[q]).1
                            < final(self).nft().token_at(token_id).next_approval_id
                    &&& final(self).token_type_by_id == old(self).token_type_by_id
                    &&& final(self).token_type_by_title == old(self).token_type_by_title
                    &&& final(self).token_type_assets_by_id == old(self).token_type_assets_by_id
                    &&& final(self).next_token_type_id == old(self).next_token_type_id
                    &&& final(self).nft().owner_id == old(self).nft().owner_id
                },
                Err(e) => {
                    &&& *final(self) == *old(self)
                    &&& if attached_deposit != 1 {
                        e == crate::Error::InsufficientDeposit
                    } else {
                        Err::<(), crate::Error>(e) == spec_transfer_outcome(
                            old(self).nft(),
                            predecessor_account_id@,
                            receiver_id@,
                            token_id,
                            approval_id,
                        )
                    }
                },
            },
    {
        let ghost pre = *old(self);
        if !crate::utils::assert_one_yocto(attached_deposit) {
            return Err(crate::Error::InsufficientDeposit);
        }
        let nft = self.tokens_mut();
        let moved = nft.internal_transfer(
            predecessor_account_id,
            &receiver_id,
            &token_id,
            approval_id,
            memo,
        );
        match moved {
            Ok((previous_owner_id, previous_approvals, event)) => {
                proof {
                    assert forall|x: TokenId| final(self).nft().has_token(x) == pre.nft().has_token(
                        x,
                    ) by {
                        lemma_map_binding(final(self).nft().token_pairs(), x);
                        lemma_map_binding(pre.nft().token_pairs(), x);
                    }
                    crate::lemma_cross_ok_same_domain(
                        final(self).type_pairs(),
                        pre.nft(),
                        final(self).nft(),
                    );
                    lemma_map_binding(final(self).nft().token_pairs(), token_id);
                    assert(info_wf(pre.nft().token_at(token_id)));
                    assert forall|q: int|
                        0 <= q < previous_approvals@.len() implies (
                    #[trigger] previous_approvals@[q]).1 < final(self).nft().token_at(
                        token_id,
                    ).next_approval_id by {
                        assert(approvals_view(previous_approvals@)[q] == (
                            previous_approvals@[q].0@,
                            previous_approvals@[q].1,
                        ));
                        assert(pre.nft().token_at(token_id).approvals[q].1 < pre.nft().token_at(
                            token_id,
                        ).next_approval_id);
                    }
                }
                let receipt = TransferCallReceipt {
                    sender_id: predecessor_account_id.clone(),
                    previous_owner_id,
                    receiver_id,
                    token_id,
                    msg,
                    approved_account_ids: previous_approvals,
                };
                Ok((receipt, event))
            },
            Err(e) => Err(e),
        }
    }
}

/// The display title of one edition: the series title, the edition number
/// and the cap, e.g. `Title — 2/10`.
pub open spec fn spec_edition_title(base: Seq<char>, edition: u64, copies: u64) -> Seq<char> {
    base + crate::TITLE_DELIMETER@ + crate::text::spec_decimal(edition as nat)
        + crate::EDITION_DELIMETER@ + crate::text::spec_decimal(copies as nat)
}

/// A filename resolved against a series' base content address, e.g.
/// `abcd1234/cat.jpg`.
pub open spec fn spec_content_path(base: Seq<char>, file: Seq<char>) -> Seq<char> {
    base + crate::FILE_PATH_DELIMETER@ + file
}

impl crate::Contract {
    /// The view of one token, or nothing if no such token was minted. The
    /// stored per-token metadata holds bare filenames; here they are
    /// resolved against the owning series: the title becomes
    /// `{series title} — {edition}/{copies}`, and media and extra become
    /// `{series content address}/{filename}`.
    pub fn nft_token(&self, token_id: TokenId) -> (r: Option<crate::metadata::Token>)
        requires
            self.wf(),
        ensures
            r is Some <==> self.nft().has_token(token_id),
            match r {
                Some(token) => {
                    let info = self.nft().token_at(token_id);
                    let tinfo = self.type_at(token_id.token_type_id);
                    let md = crate::metadata::spec_normalize_token_metadata(info.metadata);
                    &&& self.has_type(token_id.token_type_id)
                    &&& token.token_id == token_id
                    &&& token.owner_id@ == info.owner_id
                    &&& (token.approved_account_ids matches Some(a) && approvals_view(a@)
                        == info.approvals)
                    &&& token.metadata matches Some(m) && {
                        &&& match tinfo.metadata.copies {
                            Some(c) => m.title matches Some(t) && t@ == spec_edition_title(
                                tinfo.metadata.title->0@,
                                token_id.edition,
                                c,
                            ),
                            None => m.title == tinfo.metadata.title,
                        }
                        &&& m.description == tinfo.metadata.description
                        &&& m.copies == tinfo.metadata.copies
                        &&& match (tinfo.metadata.media, md.media) {
                            (Some(base), Some(file)) => m.media matches Some(x) && x@
                                == spec_content_path(base@, file@),
                            (Some(base), None) => m.media matches Some(x) && x@ == base@,
                            (None, _) => m.media is None,
                        }
                        &&& match (tinfo.metadata.media, md.extra) {
                            (Some(base), Some(file)) => m.extra matches Some(x) && x@
                                == spec_content_path(base@, file@),
                            _ => m.extra is None,
                        }
                    }
                },
                None => true,
            },
    {
        let nft = self.tokens();
        let i = match nft.find_token_index(&token_id) {
            Some(i) => i,
            None => {
                return None;
            },
        };
        proof {
            assert(self.nft().token_pairs()[i as int].0 == token_id);
            assert(self.nft().has_token(token_id));
            lemma_idx_of_unique(self.nft().token_pairs(), i as int);
            assert(self.nft().tokens@[i as int]@ == self.nft().token_at(token_id));
        }
        let owner_id = nft.tokens[i].owner_id.clone();
        let approved_account_ids = clone_approvals(&nft.tokens[i].approved_account_ids);
        let token_md = crate::metadata::versioned_token_metadata_to_token_metadata(
            nft.tokens[i].metadata.duplicate(),
        );
        // the owning series exists: a token id is permanently bound to it
        let ti = match self.find_type_index(token_id.token_type_id) {
            Some(ti) => ti,
            None => {
                proof {
                    assert(false);
                }
                return None;
            },
        };
        proof {
            crate::assoc::lemma_idx_of_unique(self.type_pairs(), ti as int);
        }
        let token_type = self.token_type_by_id[ti].1.duplicate_normalized();
        let base_title = match &token_type.metadata.title {
            Some(t) => t.clone(),
            None => {
                proof {
                    assert(false);
                }
                return None;
            },
        };
        let final_title: Option<String> = match token_type.metadata.copies {
            Some(c) => {
                let mut t = base_title;
                t.append(crate::TITLE_DELIMETER);
                t.append(crate::text::u64_to_decimal(token_id.edition).as_str());
                t.append(crate::EDITION_DELIMETER);
                t.append(crate::text::u64_to_decimal(c).as_str());
                Some(t)
            },
            None => Some(base_title),
        };
        let final_media: Option<String>;
        let final_extra: Option<String>;
        match &token_type.metadata.media {
            Some(base) => {
                final_media = match &token_md.media {
                    Some(file) => {
                        let mut x = base.clone();
                        x.append(crate::FILE_PATH_DELIMETER);
                        x.append(file.as_str());
                        Some(x)
                    },
                    None => Some(base.clone()),
                };
                final_extra = match &token_md.extra {
                    Some(file) => {
                        let mut x = base.clone();
                        x.append(crate::FILE_PATH_DELIMETER);
                        x.append(file.as_str());
                        Some(x)
                    },
                    None => None,
                };
            },
            None => {
                final_media = None;
                final_extra = None;
            },
        }
        let final_metadata = crate::metadata::TokenMetadata {
            title: final_title,
            description: crate::metadata::clone_opt_string(&token_type.metadata.description),
            media: final_media,
            copies: token_type.metadata.copies,
            extra: final_extra,
        };
        Some(
            crate::metadata::Token {
                token_id,
                owner_id,
                metadata: Some(final_metadata),
                approved_account_ids: Some(approved_account_ids),
            },
        )
    }
}

impl NonFungibleToken {
    /// Rewrites the stored media filename of one token, leaving its owner,
    /// approvals and counter untouched.
    pub(crate) fn set_token_media(&mut self, token_id: &TokenId, filename: &String)
        requires
            old(self).wf(),
            old(self).has_token(*token_id),
        ensures
            final(self).wf(),
            ({
                let oldinfo = old(self).token_at(*token_id);
                let newinfo = final(self).token_at(*token_id);
                let om = crate::metadata::spec_normalize_token_metadata(oldinfo.metadata);
                &&& final(self).has_token(*token_id)
                &&& newinfo.owner_id == oldinfo.owner_id
                &&& newinfo.approvals == oldinfo.approvals
                &&& newinfo.next_approval_id == oldinfo.next_approval_id
                &&& newinfo.metadata == VersionedTokenMetadata::Current(
                    crate::metadata::TokenMetadata { media: Some(*filename), ..om },
                )
                &&& final(self).token_map() == old(self).token_map().insert(*token_id, newinfo)
            }),
            forall|x: TokenId| final(self).has_token(x) == old(self).has_token(x),
            final(self).tokens_per_owner == old(self).tokens_per_owner,
            final(self).owner_id == old(self).owner_id,
            final(self).extra_storage_in_bytes_per_token == old(
                self,
            ).extra_storage_in_bytes_per_token,
    {
        let ghost pre = *old(self);
        let i = match self.find_token_index(token_id) {
            Some(i) => i,
            None => {
                proof {
                    assert(false);
                }
                return ;
            },
        };
        proof {
            lemma_idx_of_unique(pre.token_pairs(), i as int);
            assert(pre.tokens@[i as int]@ == pre.token_at(*token_id));
        }
        let mut md = crate::metadata::versioned_token_metadata_to_token_metadata(
            self.tokens[i].metadata.duplicate(),
        );
        md.media = Some(filename.clone());
        let approvals = clone_approvals(&self.tokens[i].approved_account_ids);
        let owner_id = self.tokens[i].owner_id.clone();
        let next_approval_id = self.tokens[i].next_approval_id;
        let tid = self.tokens[i].token_id;
        self.tokens.set(
            i,
            TokenRecord {
                token_id: tid,
                owner_id,
                metadata: VersionedTokenMetadata::Current(md),
                approved_account_ids: approvals,
                next_approval_id,
            },
        );
        proof {
            lemma_record_update_same_owner(pre, *self, i as int);
            lemma_map_binding(final(self).token_pairs(), *token_id);
            lemma_idx_of_unique(final(self).token_pairs(), i as int);
            assert forall|x: TokenId| final(self).has_token(x) == pre.has_token(x) by {
                lemma_map_binding(final(self).token_pairs(), x);
                lemma_map_binding(pre.token_pairs(), x);
            }
        }
    }
}

/// From the index entry of account `a` (known to exist and to list `x`),
/// the token `x` exists and `a` owns it.
proof fn entry_sound_at(nft: NonFungibleToken, a: Seq<char>, x: TokenId)
    requires
        nft.wf(),
        has_key(nft.index_pairs(), a),
        val_of(nft.index_pairs(), a).contains(x),
    ensures
        nft.has_token(x),
        nft.token_at(x).owner_id == a,
{
    let j = idx_of(nft.index_pairs(), a);
    lemma_idx_of_unique(nft.index_pairs(), j);
    assert(index_entry_sound(nft, nft.tokens_per_owner@[j]));
    let q = choose|q: int|
        0 <= q < nft.tokens_per_owner@[j].token_ids@.len() && nft.tokens_per_owner@[j].token_ids@[q]
            == x;
    assert(nft.has_token(x) && nft.token_at(x).owner_id == a);
}

} // verus!
