use vstd::prelude::*;

use crate::entries::{entries_distinct, entries_map, keys_distinct, lemma_entries_index, lemma_entries_values};

verus! {

/// An account name on the host.
pub type AccountId = String;

/// A token's identifier: an opaque string, unique in the ledger.
pub type TokenId = String;

/// Why an operation was refused. A refused operation changes nothing.
#[derive(Debug, Clone, Copy, PartialEq, Eq, Structural)]
pub enum NftError {
    TokenNotFound,
    /// The caller is not the owner, or holds no matching approval.
    Unauthorized,
    /// No deposit was attached where at least one unit is asked for.
    DepositRequired,
    /// The deposit is not exactly one unit where that is asked for.
    DepositMismatch,
    /// The storage price exceeds the attached deposit.
    InsufficientDeposit,
    DuplicateToken,
    TooManyRoyaltyRecipients,
    PayoutRecipientLimitExceeded,
    /// An amount or a counter does not fit its integer type.
    ArithmeticOverflow,
}

/// What each account is owed out of a sale balance.
#[derive(Debug, Clone, PartialEq, Eq)]
pub struct Payout {
    pub payout: Vec<(AccountId, u128)>,
}

#[derive(Debug, Clone, PartialEq, Eq)]
pub struct NFTContractMetadata {
    pub spec: String,
    pub name: String,
    pub symbol: String,
    pub icon: Option<String>,
    pub base_uri: Option<String>,
    pub reference: Option<String>,
    pub reference_hash: Option<Vec<u8>>,
}

#[derive(Debug, Clone, PartialEq, Eq)]
pub struct TokenMetadata {
    pub title: Option<String>,
    pub description: Option<String>,
    pub media: Option<String>,
    pub media_hash: Option<Vec<u8>>,
    pub copies: Option<u64>,
    pub issued_at: Option<u64>,
    pub expires_at: Option<u64>,
    pub starts_at: Option<u64>,
    pub updated_at: Option<u64>,
    pub extra: Option<String>,
    pub reference: Option<String>,
    pub reference_hash: Option<Vec<u8>>,
}

/// The ownership record of one token.
#[derive(Debug, Clone, PartialEq, Eq)]
pub struct Token {
    pub owner_id: AccountId,
    /// Accounts allowed to transfer the token, each with its approval id.
    pub approved_account_ids: Vec<(AccountId, u64)>,
    /// The approval id that the next approval gets.
    pub next_approval_id: u64,
    /// Royalty shares in basis points (10000 is the whole balance).
    pub royalty: Vec<(AccountId, u32)>,
}

/// A token as the views return it.
#[derive(Debug, Clone, PartialEq, Eq)]
pub struct JsonToken {
    pub token_id: TokenId,
    pub owner_id: AccountId,
    pub metadata: TokenMetadata,
    pub approved_account_ids: Vec<(AccountId, u64)>,
    pub royalty: Vec<(AccountId, u32)>,
}

/// Payout entries as (account, amount) pairs.
pub open spec fn amounts_view(s: Seq<(AccountId, u128)>) -> Seq<(Seq<char>, int)> {
    s.map_values(|p: (AccountId, u128)| (p.0@, p.1 as int))
}

impl Payout {
    /// The entries as (account, amount) pairs.
    pub open spec fn entries(&self) -> Seq<(Seq<char>, int)> {
        amounts_view(self.payout@)
    }

    /// The amount owed to `account`, if it is in the payout.
    pub fn get(&self, account: &AccountId) -> (r: Option<u128>)
        ensures
            r == entries_map(self.payout@).get(account@),
    {
        let mut found: Option<u128> = None;
        let mut i: usize = 0;
        while i < self.payout.len()
            invariant
                i <= self.payout@.len(),
                found == entries_map(self.payout@.take(i as int)).get(account@),
            decreases self.payout@.len() - i,
        {
            assert(self.payout@.take(i + 1).drop_last() =~= self.payout@.take(i as int));
            if self.payout[i].0 == *account {
                found = Some(self.payout[i].1);
            }
            i = i + 1;
        }
        assert(self.payout@.take(i as int) =~= self.payout@);
        found
    }
}

impl Token {
    /// Approved accounts and their approval ids.
    pub open spec fn approvals(&self) -> Map<Seq<char>, u64> {
        entries_map(self.approved_account_ids@)
    }

    /// Approval and royalty lists hold each account once, and every approval id
    /// is below the next one to be issued.
    pub open spec fn wf(&self) -> bool {
        &&& keys_distinct(self.approved_account_ids@)
        &&& keys_distinct(self.royalty@)
        &&& forall|k: Seq<char>|
            #![trigger self.approvals().contains_key(k)]
            self.approvals().contains_key(k) ==> self.approvals()[k] < self.next_approval_id
    }

    /// Whether the token is well formed.
    pub fn check_wf(&self) -> (r: bool)
        ensures
            r == self.wf(),
    {
        if !entries_distinct(&self.approved_account_ids) || !entries_distinct(&self.royalty) {
            return false;
        }
        let next = self.next_approval_id;
        let mut i: usize = 0;
        while i < self.approved_account_ids.len()
            invariant
                i <= self.approved_account_ids@.len(),
                keys_distinct(self.approved_account_ids@),
                keys_distinct(self.royalty@),
                next == self.next_approval_id,
                forall|j: int| 0 <= j < i ==> #[trigger] self.approved_account_ids@[j].1 < next,
            decreases self.approved_account_ids@.len() - i,
        {
            if self.approved_account_ids[i].1 >= next {
                proof {
                    let k = self.approved_account_ids@[i as int].0@;
                    lemma_entries_index(self.approved_account_ids@, i as int);
                    assert(self.approvals().contains_key(k));
                }
                return false;
            }
            i = i + 1;
        }
        proof {
            lemma_entries_values(self.approved_account_ids@, |v: u64| v < next);
        }
        true
    }
}

} // verus!
