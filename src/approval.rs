use vstd::prelude::*;

use crate::contract::Contract;
use crate::entries::{get_entry, put_entry, remove_entry};
use crate::metadata::{AccountId, NftError, Token, TokenId};
use crate::storage::{
    approval_entry_bytes, approvals_bytes, assert_at_least_one_yocto, assert_one_yocto,
    bytes_for_approved_account_id, refund_approved_account_ids, refund_deposit, CallContext,
    Transfer,
};

verus! {

/// The message for an approved account that it was given an approval.
#[derive(Debug, Clone, PartialEq, Eq)]
pub struct ApprovalNotice {
    /// The approved account, which receives the message.
    pub receiver_id: AccountId,
    pub token_id: TokenId,
    pub owner_id: AccountId,
    pub approval_id: u64,
    pub msg: String,
}

/// What a granted approval hands back to the host.
#[derive(Debug, Clone, PartialEq, Eq)]
pub struct ApproveOutcome {
    /// The part of the deposit that storage did not use, back to the caller.
    pub refund: Transfer,
    /// The message to send to the approved account, when one was asked for.
    pub notice: Option<ApprovalNotice>,
}

/// Whether `account` may transfer `token`, and, when `approval_id` is given,
/// holds exactly that approval id.
pub open spec fn approved_for(token: Token, account: Seq<char>, approval_id: Option<u64>) -> bool {
    &&& token.approvals().contains_key(account)
    &&& match approval_id {
        Some(id) => token.approvals()[account] == id,
        None => true,
    }
}

/// Storage bytes that approving `account` for `token` adds: none for an
/// account that is already approved.
pub open spec fn approve_storage(token: Token, account: Seq<char>) -> int {
    if token.approvals().contains_key(account) {
        0
    } else {
        approval_entry_bytes(account)
    }
}

/// Why approving `account` for `token_id` is refused, if it is.
pub open spec fn approve_error(
    tokens: Map<Seq<char>, Token>,
    ctx: CallContext,
    token_id: Seq<char>,
    account: Seq<char>,
) -> Option<NftError> {
    if ctx.attached_deposit < 1 {
        Some(NftError::DepositRequired)
    } else if !tokens.contains_key(token_id) {
        Some(NftError::TokenNotFound)
    } else if tokens[token_id].owner_id@ != ctx.predecessor_account_id@ {
        Some(NftError::Unauthorized)
    } else if tokens[token_id].next_approval_id == u64::MAX {
        Some(NftError::ArithmeticOverflow)
    } else if ctx.storage_byte_cost * approve_storage(tokens[token_id], account)
        > ctx.attached_deposit {
        Some(NftError::InsufficientDeposit)
    } else {
        None
    }
}

/// `post` differs from `pre` only in token `token_id`, whose other fields stay.
pub open spec fn only_approvals_change(
    pre: Map<Seq<char>, Token>,
    post: Map<Seq<char>, Token>,
    token_id: Seq<char>,
) -> bool {
    &&& pre.contains_key(token_id)
    &&& post == pre.insert(token_id, post[token_id])
    &&& post[token_id].owner_id == pre[token_id].owner_id
    &&& post[token_id].royalty == pre[token_id].royalty
}

/// `post` is `pre` once `account` is approved for `token_id`: the account gets
/// the token's next approval id, and the counter moves on by one.
pub open spec fn approve_step(
    pre: Map<Seq<char>, Token>,
    post: Map<Seq<char>, Token>,
    token_id: Seq<char>,
    account: Seq<char>,
) -> bool {
    &&& only_approvals_change(pre, post, token_id)
    &&& post[token_id].next_approval_id == pre[token_id].next_approval_id + 1
    &&& post[token_id].approvals() == pre[token_id].approvals().insert(
        account,
        pre[token_id].next_approval_id,
    )
}

/// `post` is `pre` once the approval of `account` for `token_id` is revoked.
pub open spec fn revoke_step(
    pre: Map<Seq<char>, Token>,
    post: Map<Seq<char>, Token>,
    token_id: Seq<char>,
    account: Seq<char>,
) -> bool {
    &&& only_approvals_change(pre, post, token_id)
    &&& post[token_id].next_approval_id == pre[token_id].next_approval_id
    &&& post[token_id].approvals() == pre[token_id].approvals().remove(account)
}

/// `post` is `pre` once every approval for `token_id` is revoked.
pub open spec fn revoke_all_step(
    pre: Map<Seq<char>, Token>,
    post: Map<Seq<char>, Token>,
    token_id: Seq<char>,
) -> bool {
    &&& only_approvals_change(pre, post, token_id)
    &&& post[token_id].next_approval_id == pre[token_id].next_approval_id
    &&& post[token_id].approvals() == Map::<Seq<char>, u64>::empty()
}

/// Why a revocation on `token_id` is refused before any approval is looked at.
pub open spec fn revoke_error(
    tokens: Map<Seq<char>, Token>,
    ctx: CallContext,
    token_id: Seq<char>,
) -> Option<NftError> {
    if ctx.attached_deposit != 1 {
        Some(NftError::DepositMismatch)
    } else if !tokens.contains_key(token_id) {
        Some(NftError::TokenNotFound)
    } else if tokens[token_id].owner_id@ != ctx.predecessor_account_id@ {
        Some(NftError::Unauthorized)
    } else {
        None
    }
}

/// Law: approvals granted one after another on a token whose counter starts
/// at zero get the ids 0, 1, 2, ... in turn: after `n` approvals the counter
/// is `n`, and the account of the `i`-th approval holds id `i`, so no id is
/// issued twice and each is above all earlier ones.
pub proof fn lemma_approval_ids_in_order(
    states: Seq<Map<Seq<char>, Token>>,
    token_id: Seq<char>,
    accounts: Seq<Seq<char>>,
)
    requires
        states.len() == accounts.len() + 1,
        states[0].contains_key(token_id),
        states[0][token_id].next_approval_id == 0,
        forall|i: int|
            0 <= i < accounts.len() ==> #[trigger] approve_step(
                states[i],
                states[i + 1],
                token_id,
                accounts[i],
            ),
    ensures
        forall|i: int| 0 <= i < states.len() ==> #[trigger] states[i][token_id].next_approval_id == i,
        forall|i: int|
            0 <= i < accounts.len() ==> #[trigger] states[i + 1][token_id].approvals()[accounts[i]]
                == i,
{
    assert forall|i: int| 0 <= i < states.len() implies #[trigger] states[i][token_id].next_approval_id
        == i by {
        lemma_counter_after(states, token_id, accounts, i);
    }
    assert forall|i: int| 0 <= i < accounts.len() implies #[trigger] states[i + 1][token_id].approvals()[
        accounts[i]
    ] == i by {
        lemma_counter_after(states, token_id, accounts, i);
        assert(approve_step(states[i], states[i + 1], token_id, accounts[i]));
    }
}

proof fn lemma_counter_after(
    states: Seq<Map<Seq<char>, Token>>,
    token_id: Seq<char>,
    accounts: Seq<Seq<char>>,
    i: int,
)
    requires
        states.len() == accounts.len() + 1,
        states[0].contains_key(token_id),
        states[0][token_id].next_approval_id == 0,
        forall|i: int|
            0 <= i < accounts.len() ==> #[trigger] approve_step(
                states[i],
                states[i + 1],
                token_id,
                accounts[i],
            ),
        0 <= i < states.len(),
    ensures
        states[i][token_id].next_approval_id == i,
    decreases i,
{
    if i > 0 {
        let j = i - 1;
        lemma_counter_after(states, token_id, accounts, j);
        assert(approve_step(states[j], states[j + 1], token_id, accounts[j]));
    }
}

/// Law: right after `account` is approved for token `token_id`, it is
/// approved, with the id just issued.
pub proof fn lemma_approved_after_approve(
    pre: Map<Seq<char>, Token>,
    post: Map<Seq<char>, Token>,
    token_id: Seq<char>,
    account: Seq<char>,
)
    requires
        approve_step(pre, post, token_id, account),
    ensures
        approved_for(post[token_id], account, None),
        approved_for(post[token_id], account, Some(pre[token_id].next_approval_id)),
{
}

/// Law: right after the approval of `account` for token `token_id` is
/// revoked, the account is not approved, whatever approval id is asked about.
pub proof fn lemma_not_approved_after_revoke(
    pre: Map<Seq<char>, Token>,
    post: Map<Seq<char>, Token>,
    token_id: Seq<char>,
    account: Seq<char>,
    approval_id: Option<u64>,
)
    requires
        revoke_step(pre, post, token_id, account),
    ensures
        !approved_for(post[token_id], account, approval_id),
{
}

/// Law: right after every approval for token `token_id` is revoked, no
/// account is approved, whatever approval id is asked about.
pub proof fn lemma_not_approved_after_revoke_all(
    pre: Map<Seq<char>, Token>,
    post: Map<Seq<char>, Token>,
    token_id: Seq<char>,
    account: Seq<char>,
    approval_id: Option<u64>,
)
    requires
        revoke_all_step(pre, post, token_id),
    ensures
        !approved_for(post[token_id], account, approval_id),
{
}

impl Contract {
    /// Approves `account_id` to transfer token `token_id` on its owner's behalf.
    /// The account gets the token's next approval id even when it was approved
    /// already; only a new entry is charged for storage.
    pub fn nft_approve(
        &mut self,
        ctx: &CallContext,
        token_id: TokenId,
        account_id: AccountId,
        msg: Option<String>,
    ) -> (r: Result<ApproveOutcome, NftError>)
        requires
            old(self).wf(),
        ensures
            final(self).wf(),
            final(self).metadata == old(self).metadata,
            final(self).token_metadata() == old(self).token_metadata(),
            match r {
                Ok(out) => {
                    let token = old(self).tokens()[token_id@];
                    &&& approve_error(old(self).tokens(), *ctx, token_id@, account_id@).is_none()
                    &&& approve_step(old(self).tokens(), final(self).tokens(), token_id@, account_id@)
                    &&& out.refund == (Transfer {
                        receiver_id: ctx.predecessor_account_id,
                        amount: (ctx.attached_deposit - ctx.storage_byte_cost * approve_storage(
                            token,
                            account_id@,
                        )) as u128,
                    })
                    &&& out.notice == match msg {
                        Some(m) => Some(
                            ApprovalNotice {
                                receiver_id: account_id,
                                token_id,
                                owner_id: token.owner_id,
                                approval_id: token.next_approval_id,
                                msg: m,
                            },
                        ),
                        None => None,
                    }
                },
                Err(e) => approve_error(old(self).tokens(), *ctx, token_id@, account_id@) == Some(e)
                    && *final(self) == *old(self),
            },
    {
        match assert_at_least_one_yocto(ctx.attached_deposit) {
            Ok(()) => {},
            Err(e) => {
                return Err(e);
            },
        }
        let token = match get_entry(&self.tokens_by_id, &token_id) {
            Some(t) => t,
            None => {
                return Err(NftError::TokenNotFound);
            },
        };
        assert(self.tokens()[token_id@].wf());
        if ctx.predecessor_account_id != token.owner_id {
            return Err(NftError::Unauthorized);
        }
        let approval_id = token.next_approval_id;
        if approval_id == u64::MAX {
            return Err(NftError::ArithmeticOverflow);
        }
        let is_new_approval = get_entry(&token.approved_account_ids, &account_id).is_none();
        let storage_used: u128 = if is_new_approval {
            bytes_for_approved_account_id(&account_id)
        } else {
            0
        };
        let refund = match refund_deposit(ctx, storage_used) {
            Ok(amount) => amount,
            Err(e) => {
                return Err(e);
            },
        };
        let ghost pre = self.tokens();
        let mut token = match remove_entry(&mut self.tokens_by_id, &token_id) {
            Some(t) => t,
            None => {
                assert(false);
                return Err(NftError::TokenNotFound);
            },
        };
        put_entry(&mut token.approved_account_ids, account_id.clone(), approval_id);
        token.next_approval_id = approval_id + 1;
        let owner_id = token.owner_id.clone();
        let ghost new_token = token;
        assert forall|k: Seq<char>| #[trigger]
            new_token.approvals().contains_key(k) implies new_token.approvals()[k]
            < new_token.next_approval_id by {
            if k != account_id@ {
                assert(pre[token_id@].approvals().contains_key(k));
            }
        }
        put_entry(&mut self.tokens_by_id, token_id.clone(), token);
        assert(self.tokens() =~= pre.insert(token_id@, new_token));
        assert forall|k: Seq<char>| #[trigger] self.tokens().contains_key(k) implies self.tokens()[
            k
        ].wf() by {
            if k != token_id@ {
                assert(pre.contains_key(k));
            }
        }
        let notice = match msg {
            Some(m) => Some(
                ApprovalNotice { receiver_id: account_id, token_id, owner_id, approval_id, msg: m },
            ),
            None => None,
        };
        Ok(
            ApproveOutcome {
                refund: Transfer {
                    receiver_id: ctx.predecessor_account_id.clone(),
                    amount: refund,
                },
                notice,
            },
        )
    }

    /// Whether `approved_account_id` may transfer token `token_id`, with
    /// exactly `approval_id` when that is given.
    pub fn nft_is_approved(
        &self,
        token_id: TokenId,
        approved_account_id: AccountId,
        approval_id: Option<u64>,
    ) -> (r: Result<bool, NftError>)
        requires
            self.wf(),
        ensures
            r == (if self.tokens().contains_key(token_id@) {
                Ok::<bool, NftError>(
                    approved_for(self.tokens()[token_id@], approved_account_id@, approval_id),
                )
            } else {
                Err(NftError::TokenNotFound)
            }),
    {
        let token = match get_entry(&self.tokens_by_id, &token_id) {
            Some(t) => t,
            None => {
                return Err(NftError::TokenNotFound);
            },
        };
        assert(self.tokens()[token_id@].wf());
        match get_entry(&token.approved_account_ids, &approved_account_id) {
            Some(approval) => match approval_id {
                Some(id) => Ok(id == *approval),
                None => Ok(true),
            },
            None => Ok(false),
        }
    }

    /// Revokes the approval of `account_id` for token `token_id`, paying the
    /// owner back for the storage it freed; does nothing more when
    /// `account_id` holds no approval.
    pub fn nft_revoke(&mut self, ctx: &CallContext, token_id: TokenId, account_id: AccountId) -> (r:
        Result<Option<Transfer>, NftError>)
        requires
            old(self).wf(),
        ensures
            final(self).wf(),
            final(self).metadata == old(self).metadata,
            final(self).token_metadata() == old(self).token_metadata(),
            match r {
                Ok(refund) => {
                    let token = old(self).tokens()[token_id@];
                    &&& revoke_error(old(self).tokens(), *ctx, token_id@).is_none()
                    &&& revoke_step(old(self).tokens(), final(self).tokens(), token_id@, account_id@)
                    &&& if token.approvals().contains_key(account_id@) {
                        ctx.storage_byte_cost * approval_entry_bytes(account_id@) <= u128::MAX
                            && refund == Some(
                            Transfer {
                                receiver_id: ctx.predecessor_account_id,
                                amount: (ctx.storage_byte_cost * approval_entry_bytes(account_id@))
                                    as u128,
                            },
                        )
                    } else {
                        refund.is_none() && *final(self) == *old(self)
                    }
                },
                Err(e) => *final(self) == *old(self) && if revoke_error(
                    old(self).tokens(),
                    *ctx,
                    token_id@,
                ).is_some() {
                    revoke_error(old(self).tokens(), *ctx, token_id@) == Some(e)
                } else {
                    &&& e == NftError::ArithmeticOverflow
                    &&& old(self).tokens()[token_id@].approvals().contains_key(account_id@)
                    &&& ctx.storage_byte_cost * approval_entry_bytes(account_id@) > u128::MAX
                },
            },
    {
        match assert_one_yocto(ctx.attached_deposit) {
            Ok(()) => {},
            Err(e) => {
                return Err(e);
            },
        }
        let token = match get_entry(&self.tokens_by_id, &token_id) {
            Some(t) => t,
            None => {
                return Err(NftError::TokenNotFound);
            },
        };
        assert(self.tokens()[token_id@].wf());
        if ctx.predecessor_account_id != token.owner_id {
            return Err(NftError::Unauthorized);
        }
        if get_entry(&token.approved_account_ids, &account_id).is_none() {
            proof {
                let t = self.tokens()[token_id@];
                assert(t.approvals().remove(account_id@) =~= t.approvals());
                assert(self.tokens().insert(token_id@, t) =~= self.tokens());
            }
            return Ok(None);
        }
        let bytes = bytes_for_approved_account_id(&account_id);
        let amount = match ctx.storage_byte_cost.checked_mul(bytes) {
            Some(a) => a,
            None => {
                return Err(NftError::ArithmeticOverflow);
            },
        };
        let ghost pre = self.tokens();
        let mut token = match remove_entry(&mut self.tokens_by_id, &token_id) {
            Some(t) => t,
            None => {
                assert(false);
                return Err(NftError::TokenNotFound);
            },
        };
        let _ = remove_entry(&mut token.approved_account_ids, &account_id);
        let ghost new_token = token;
        assert forall|k: Seq<char>| #[trigger]
            new_token.approvals().contains_key(k) implies new_token.approvals()[k]
            < new_token.next_approval_id by {
            assert(pre[token_id@].approvals().contains_key(k));
        }
        put_entry(&mut self.tokens_by_id, token_id.clone(), token);
        assert(self.tokens() =~= pre.insert(token_id@, new_token));
        assert forall|k: Seq<char>| #[trigger] self.tokens().contains_key(k) implies self.tokens()[
            k
        ].wf() by {
            if k != token_id@ {
                assert(pre.contains_key(k));
            }
        }
        Ok(Some(Transfer { receiver_id: ctx.predecessor_account_id.clone(), amount }))
    }

    /// Revokes every approval for token `token_id`, paying the owner back for
    /// the storage they freed; does nothing more when there is none.
    pub fn nft_revoke_all(&mut self, ctx: &CallContext, token_id: TokenId) -> (r: Result<
        Option<Transfer>,
        NftError,
    >)
        requires
            old(self).wf(),
        ensures
            final(self).wf(),
            final(self).metadata == old(self).metadata,
            final(self).token_metadata() == old(self).token_metadata(),
            match r {
                Ok(refund) => {
                    let token = old(self).tokens()[token_id@];
                    &&& revoke_error(old(self).tokens(), *ctx, token_id@).is_none()
                    &&& revoke_all_step(old(self).tokens(), final(self).tokens(), token_id@)
                    &&& if token.approved_account_ids@.len() > 0 {
                        approvals_bytes(token.approved_account_ids@) <= u128::MAX
                            && ctx.storage_byte_cost * approvals_bytes(token.approved_account_ids@)
                            <= u128::MAX && refund == Some(
                            Transfer {
                                receiver_id: ctx.predecessor_account_id,
                                amount: (ctx.storage_byte_cost * approvals_bytes(
                                    token.approved_account_ids@,
                                )) as u128,
                            },
                        )
                    } else {
                        refund.is_none() && *final(self) == *old(self)
                    }
                },
                Err(e) => *final(self) == *old(self) && if revoke_error(
                    old(self).tokens(),
                    *ctx,
                    token_id@,
                ).is_some() {
                    revoke_error(old(self).tokens(), *ctx, token_id@) == Some(e)
                } else {
                    let ids = old(self).tokens()[token_id@].approved_account_ids@;
                    &&& e == NftError::ArithmeticOverflow
                    &&& ids.len() > 0
                    &&& !(approvals_bytes(ids) <= u128::MAX && ctx.storage_byte_cost
                        * approvals_bytes(ids) <= u128::MAX)
                },
            },
    {
        match assert_one_yocto(ctx.attached_deposit) {
            Ok(()) => {},
            Err(e) => {
                return Err(e);
            },
        }
        let token = match get_entry(&self.tokens_by_id, &token_id) {
            Some(t) => t,
            None => {
                return Err(NftError::TokenNotFound);
            },
        };
        if ctx.predecessor_account_id != token.owner_id {
            return Err(NftError::Unauthorized);
        }
        if token.approved_account_ids.len() == 0 {
            proof {
                let t = self.tokens()[token_id@];
                assert(t.approvals() =~= Map::<Seq<char>, u64>::empty());
                assert(self.tokens().insert(token_id@, t) =~= self.tokens());
            }
            return Ok(None);
        }
        let refund = match refund_approved_account_ids(
            ctx.predecessor_account_id.clone(),
            &token.approved_account_ids,
            ctx.storage_byte_cost,
        ) {
            Ok(t) => t,
            Err(e) => {
                return Err(e);
            },
        };
        let ghost pre = self.tokens();
        let mut token = match remove_entry(&mut self.tokens_by_id, &token_id) {
            Some(t) => t,
            None => {
                assert(false);
                return Err(NftError::TokenNotFound);
            },
        };
        token.approved_account_ids.clear();
        let ghost new_token = token;
        assert(new_token.approvals() =~= Map::<Seq<char>, u64>::empty());
        put_entry(&mut self.tokens_by_id, token_id.clone(), token);
        assert(self.tokens() =~= pre.insert(token_id@, new_token));
        assert forall|k: Seq<char>| #[trigger] self.tokens().contains_key(k) implies self.tokens()[
            k
        ].wf() by {
            if k != token_id@ {
                assert(pre.contains_key(k));
            }
        }
        Ok(Some(refund))
    }
}

} // verus!