use vstd::prelude::*;

use crate::entries::{
    clone_entries, entries_distinct, entries_map, get_entry, keys_distinct, lemma_entries_index,
    lemma_entries_values,
};
use crate::metadata::{JsonToken, NFTContractMetadata, Token, TokenId, TokenMetadata};

verus! {

/// The ledger: tokens and their metadata, each keyed by token id.
pub struct Contract {
    pub tokens_by_id: Vec<(TokenId, Token)>,
    pub token_metadata_by_id: Vec<(TokenId, TokenMetadata)>,
    pub metadata: NFTContractMetadata,
}

fn clone_text(o: &Option<String>) -> (r: Option<String>)
    ensures
        r == *o,
{
    match o {
        Some(s) => Some(s.clone()),
        None => None,
    }
}

fn clone_bytes(o: &Option<Vec<u8>>) -> (r: Option<Vec<u8>>)
    ensures
        r.is_some() == o.is_some(),
        r.is_some() ==> r.unwrap()@ == o.unwrap()@,
{
    match o {
        Some(b) => {
            let mut c: Vec<u8> = Vec::new();
            let mut i: usize = 0;
            while i < b.len()
                invariant
                    i <= b@.len(),
                    c@ == b@.take(i as int),
                decreases b@.len() - i,
            {
                c.push(b[i]);
                assert(c@ =~= b@.take(i + 1));
                i = i + 1;
            }
            assert(b@.take(i as int) =~= b@);
            Some(c)
        },
        None => None,
    }
}

/// `c` holds what `m` holds.
pub open spec fn same_token_metadata(c: TokenMetadata, m: TokenMetadata) -> bool {
    &&& c.title == m.title
    &&& c.description == m.description
    &&& c.media == m.media
    &&& c.media_hash.is_some() == m.media_hash.is_some()
    &&& c.media_hash.is_some() ==> c.media_hash.unwrap()@ == m.media_hash.unwrap()@
    &&& c.copies == m.copies
    &&& c.issued_at == m.issued_at
    &&& c.expires_at == m.expires_at
    &&& c.starts_at == m.starts_at
    &&& c.updated_at == m.updated_at
    &&& c.extra == m.extra
    &&& c.reference == m.reference
    &&& c.reference_hash.is_some() == m.reference_hash.is_some()
    &&& c.reference_hash.is_some() ==> c.reference_hash.unwrap()@ == m.reference_hash.unwrap()@
}

fn clone_token_metadata(m: &TokenMetadata) -> (r: TokenMetadata)
    ensures
        same_token_metadata(r, *m),
{
    TokenMetadata {
        title: clone_text(&m.title),
        description: clone_text(&m.description),
        media: clone_text(&m.media),
        media_hash: clone_bytes(&m.media_hash),
        copies: m.copies,
        issued_at: m.issued_at,
        expires_at: m.expires_at,
        starts_at: m.starts_at,
        updated_at: m.updated_at,
        extra: clone_text(&m.extra),
        reference: clone_text(&m.reference),
        reference_hash: clone_bytes(&m.reference_hash),
    }
}

impl Contract {
    /// The tokens, by token id.
    pub open spec fn tokens(&self) -> Map<Seq<char>, Token> {
        entries_map(self.tokens_by_id@)
    }

    /// The token metadata, by token id.
    pub open spec fn token_metadata(&self) -> Map<Seq<char>, TokenMetadata> {
        entries_map(self.token_metadata_by_id@)
    }

    /// Each token id occurs once, and every token is well formed.
    pub open spec fn wf(&self) -> bool {
        &&& keys_distinct(self.tokens_by_id@)
        &&& keys_distinct(self.token_metadata_by_id@)
        &&& forall|k: Seq<char>| #[trigger] self.tokens().contains_key(k) ==> self.tokens()[k].wf()
    }

    /// An empty ledger with the given contract metadata.
    pub fn new(metadata: NFTContractMetadata) -> (r: Contract)
        ensures
            r.wf(),
            r.tokens() == Map::<Seq<char>, Token>::empty(),
            r.token_metadata() == Map::<Seq<char>, TokenMetadata>::empty(),
            r.metadata == metadata,
    {
        Contract { tokens_by_id: Vec::new(), token_metadata_by_id: Vec::new(), metadata }
    }

    /// Whether the ledger is well formed.
    pub fn check_wf(&self) -> (r: bool)
        ensures
            r == self.wf(),
    {
        if !entries_distinct(&self.tokens_by_id) || !entries_distinct(&self.token_metadata_by_id) {
            return false;
        }
        let mut i: usize = 0;
        while i < self.tokens_by_id.len()
            invariant
                i <= self.tokens_by_id@.len(),
                keys_distinct(self.tokens_by_id@),
                keys_distinct(self.token_metadata_by_id@),
                forall|j: int| 0 <= j < i ==> (#[trigger] self.tokens_by_id@[j].1).wf(),
            decreases self.tokens_by_id@.len() - i,
        {
            if !self.tokens_by_id[i].1.check_wf() {
                proof {
                    let k = self.tokens_by_id@[i as int].0@;
                    lemma_entries_index(self.tokens_by_id@, i as int);
                    assert(self.tokens().contains_key(k));
                }
                return false;
            }
            i = i + 1;
        }
        proof {
            lemma_entries_values(self.tokens_by_id@, |t: Token| t.wf());
        }
        true
    }

    /// Token `token_id` with its metadata, if both are in the ledger.
    pub fn nft_token(&self, token_id: TokenId) -> (r: Option<JsonToken>)
        requires
            self.wf(),
        ensures
            r.is_some() == (self.tokens().contains_key(token_id@)
                && self.token_metadata().contains_key(token_id@)),
            r.is_some() ==> {
                let j = r.unwrap();
                let t = self.tokens()[token_id@];
                &&& j.token_id == token_id
                &&& j.owner_id == t.owner_id
                &&& same_token_metadata(j.metadata, self.token_metadata()[token_id@])
                &&& j.approved_account_ids@ == t.approved_account_ids@
                &&& j.royalty@ == t.royalty@
            },
    {
        let token = match get_entry(&self.tokens_by_id, &token_id) {
            Some(t) => t,
            None => {
                return None;
            },
        };
        let metadata = match get_entry(&self.token_metadata_by_id, &token_id) {
            Some(m) => m,
            None => {
                return None;
            },
        };
        Some(
            JsonToken {
                token_id,
                owner_id: token.owner_id.clone(),
                metadata: clone_token_metadata(metadata),
                approved_account_ids: clone_entries(&token.approved_account_ids),
                royalty: clone_entries(&token.royalty),
            },
        )
    }

    /// The contract's own metadata.
    pub fn nft_metadata(&self) -> (r: NFTContractMetadata)
        ensures
            r.spec == self.metadata.spec,
            r.name == self.metadata.name,
            r.symbol == self.metadata.symbol,
            r.icon == self.metadata.icon,
            r.base_uri == self.metadata.base_uri,
            r.reference == self.metadata.reference,
            r.reference_hash.is_some() == self.metadata.reference_hash.is_some(),
            r.reference_hash.is_some() ==> r.reference_hash.unwrap()@
                == self.metadata.reference_hash.unwrap()@,
    {
        let m = &self.metadata;
        NFTContractMetadata {
            spec: m.spec.clone(),
            name: m.name.clone(),
            symbol: m.symbol.clone(),
            icon: clone_text(&m.icon),
            base_uri: clone_text(&m.base_uri),
            reference: clone_text(&m.reference),
            reference_hash: clone_bytes(&m.reference_hash),
        }
    }
}

} // verus!
