use vstd::prelude::*;

use crate::contract::Contract;
use crate::entries::{get_entry, keys_distinct, put_entry};
use crate::metadata::{AccountId, NftError, Token, TokenId, TokenMetadata};

verus! {

/// The most royalty recipients a token can be minted with.
pub const MAX_ROYALTY_RECIPIENTS: usize = 6;

/// Why minting `token_id` with `royalty_count` royalty recipients is refused,
/// if it is.
pub open spec fn mint_error(
    tokens: Map<Seq<char>, Token>,
    token_id: Seq<char>,
    royalty_count: int,
) -> Option<NftError> {
    if royalty_count > 6 {
        Some(NftError::TooManyRoyaltyRecipients)
    } else if tokens.contains_key(token_id) {
        Some(NftError::DuplicateToken)
    } else {
        None
    }
}

/// The royalty schedule that a mint is given.
pub open spec fn royalty_given(perpetual_royalties: Option<Vec<(AccountId, u32)>>) -> Seq<
    (AccountId, u32),
> {
    match perpetual_royalties {
        Some(v) => v@,
        None => Seq::empty(),
    }
}

/// `token` is what a mint to `receiver` with royalty schedule `royalty` creates.
pub open spec fn fresh_token(token: Token, receiver: AccountId, royalty: Seq<(AccountId, u32)>) -> bool {
    &&& token.owner_id == receiver
    &&& token.approved_account_ids@ == Seq::<(AccountId, u64)>::empty()
    &&& token.next_approval_id == 0
    &&& token.royalty@ == royalty
}

/// Law: once token `token_id` is minted, minting it again is refused, as a
/// duplicate unless the royalty schedule is already too long; a refused mint
/// changes nothing.
pub proof fn lemma_mint_twice_refused(
    pre: Map<Seq<char>, Token>,
    post: Map<Seq<char>, Token>,
    token: Token,
    token_id: Seq<char>,
    first_count: int,
    second_count: int,
)
    requires
        mint_error(pre, token_id, first_count).is_none(),
        post == pre.insert(token_id, token),
    ensures
        mint_error(post, token_id, second_count).is_some(),
        second_count <= 6 ==> mint_error(post, token_id, second_count) == Some(
            NftError::DuplicateToken,
        ),
{
}

impl Contract {
    /// Creates token `token_id`, owned by `receiver_id`, with its metadata and
    /// royalty schedule. The storage it takes is settled by the caller with
    /// `refund_deposit` once the host has measured it.
    pub fn nft_mint(
        &mut self,
        token_id: TokenId,
        metadata: TokenMetadata,
        receiver_id: AccountId,
        perpetual_royalties: Option<Vec<(AccountId, u32)>>,
    ) -> (r: Result<(), NftError>)
        requires
            old(self).wf(),
            keys_distinct(royalty_given(perpetual_royalties)),
        ensures
            final(self).wf(),
            final(self).metadata == old(self).metadata,
            match r {
                Ok(()) => {
                    &&& mint_error(
                        old(self).tokens(),
                        token_id@,
                        royalty_given(perpetual_royalties).len() as int,
                    ).is_none()
                    &&& final(self).tokens() == old(self).tokens().insert(
                        token_id@,
                        final(self).tokens()[token_id@],
                    )
                    &&& fresh_token(
                        final(self).tokens()[token_id@],
                        receiver_id,
                        royalty_given(perpetual_royalties),
                    )
                    &&& final(self).token_metadata() == old(self).token_metadata().insert(
                        token_id@,
                        metadata,
                    )
                },
                Err(e) => mint_error(
                    old(self).tokens(),
                    token_id@,
                    royalty_given(perpetual_royalties).len() as int,
                ) == Some(e) && *final(self) == *old(self),
            },
    {
        let royalty = match perpetual_royalties {
            Some(v) => {
                if v.len() > MAX_ROYALTY_RECIPIENTS {
                    return Err(NftError::TooManyRoyaltyRecipients);
                }
                v
            },
            None => Vec::new(),
        };
        if get_entry(&self.tokens_by_id, &token_id).is_some() {
            return Err(NftError::DuplicateToken);
        }
        let token = Token {
            owner_id: receiver_id,
            approved_account_ids: Vec::new(),
            next_approval_id: 0,
            royalty,
        };
        let ghost pre = self.tokens();
        let ghost new_token = token;
        assert(new_token.approvals() =~= Map::<Seq<char>, u64>::empty());
        put_entry(&mut self.tokens_by_id, token_id.clone(), token);
        put_entry(&mut self.token_metadata_by_id, token_id, metadata);
        assert forall|k: Seq<char>| #[trigger] self.tokens().contains_key(k) implies self.tokens()[
            k
        ].wf() by {
            if k != token_id@ {
                assert(pre.contains_key(k));
            }
        }
        Ok(())
    }
}

} // verus!
