use vstd::prelude::*;

use vstd::arithmetic::mul::{
    lemma_mul_is_commutative, lemma_mul_is_distributive_add, lemma_mul_nonnegative,
};

use crate::approval::approved_for;
use crate::contract::Contract;
use crate::entries::{clone_entries, get_entry, put_entry, remove_entry};
use crate::metadata::{amounts_view, AccountId, NftError, Payout, Token, TokenId};
use crate::storage::{approvals_bytes, assert_one_yocto, refund_approved_account_ids, CallContext, Transfer};

verus! {

/// Basis points that make up the whole balance.
pub const FULL_SHARE: u32 = 10000;

/// The part of `balance` that `bp` basis points stand for, rounded down.
pub open spec fn share(bp: int, balance: int) -> int {
    bp * balance / 10000
}

/// The payout entries of the royalty recipients other than the owner, in
/// schedule order.
pub open spec fn royalty_shares(r: Seq<(String, u32)>, owner: Seq<char>, balance: int) -> Seq<
    (Seq<char>, int),
>
    decreases r.len(),
{
    if r.len() == 0 {
        Seq::empty()
    } else {
        let rest = royalty_shares(r.drop_last(), owner, balance);
        if r.last().0@ == owner {
            rest
        } else {
            rest.push((r.last().0@, share(r.last().1 as int, balance)))
        }
    }
}

/// The basis points paid to recipients other than the owner.
pub open spec fn perpetual_total(r: Seq<(String, u32)>, owner: Seq<char>) -> int
    decreases r.len(),
{
    if r.len() == 0 {
        0
    } else {
        let rest = perpetual_total(r.drop_last(), owner);
        if r.last().0@ == owner {
            rest
        } else {
            rest + r.last().1
        }
    }
}

/// The full payout: each other recipient's share, then the owner's share of
/// what the royalties leave.
pub open spec fn payout_entries(r: Seq<(String, u32)>, owner: Seq<char>, balance: int) -> Seq<
    (Seq<char>, int),
> {
    royalty_shares(r, owner, balance).push(
        (owner, share(10000 - perpetual_total(r, owner), balance)),
    )
}

/// Every product of basis points and balance fits in `u128`, and the royalties
/// leave the owner a share that is not negative.
pub open spec fn payout_fits(r: Seq<(String, u32)>, owner: Seq<char>, balance: int) -> bool {
    &&& forall|i: int|
        0 <= i < r.len() && r[i].0@ != owner ==> #[trigger] (r[i].1 * balance) <= u128::MAX
    &&& perpetual_total(r, owner) <= 10000
    &&& (10000 - perpetual_total(r, owner)) * balance <= u128::MAX
}

/// What a payout over schedule `r` comes to: refused when the schedule has
/// more entries than `max_len`, or when an amount does not fit.
pub open spec fn payout_outcome(
    r: Seq<(String, u32)>,
    owner: Seq<char>,
    balance: int,
    max_len: int,
) -> Result<Seq<(Seq<char>, int)>, NftError> {
    if r.len() > max_len {
        Err(NftError::PayoutRecipientLimitExceeded)
    } else if !payout_fits(r, owner, balance) {
        Err(NftError::ArithmeticOverflow)
    } else {
        Ok(payout_entries(r, owner, balance))
    }
}

/// The sum of the amounts of a payout.
pub open spec fn payout_sum(s: Seq<(Seq<char>, int)>) -> int
    decreases s.len(),
{
    if s.len() == 0 {
        0
    } else {
        payout_sum(s.drop_last()) + s.last().1
    }
}

/// `royalty_percentage` basis points of `amount_to_pay`, rounded down.
pub fn royalty_to_payout(royalty_percentage: u32, amount_to_pay: u128) -> (r: Option<u128>)
    ensures
        r == (if royalty_percentage * amount_to_pay <= u128::MAX {
            Some(share(royalty_percentage as int, amount_to_pay as int) as u128)
        } else {
            None
        }),
{
    match (royalty_percentage as u128).checked_mul(amount_to_pay) {
        Some(p) => Some(p / 10000),
        None => None,
    }
}

/// Splits `balance` between the royalty recipients of `royalty` and `owner_id`.
pub fn compute_payout(
    royalty: &Vec<(AccountId, u32)>,
    owner_id: &AccountId,
    balance: u128,
    max_len_payout: u32,
) -> (r: Result<Payout, NftError>)
    ensures
        match r {
            Ok(p) => payout_outcome(royalty@, owner_id@, balance as int, max_len_payout as int)
                == Ok::<Seq<(Seq<char>, int)>, NftError>(p.entries()),
            Err(e) => payout_outcome(royalty@, owner_id@, balance as int, max_len_payout as int)
                == Err::<Seq<(Seq<char>, int)>, NftError>(e),
        },
{
    if royalty.len() > max_len_payout as usize {
        return Err(NftError::PayoutRecipientLimitExceeded);
    }
    let ghost r = royalty@;
    let ghost owner = owner_id@;
    let mut out: Vec<(AccountId, u128)> = Vec::new();
    let mut total: u128 = 0;
    let mut i: usize = 0;
    while i < royalty.len()
        invariant
            r == royalty@,
            owner == owner_id@,
            i <= r.len(),
            r.len() <= max_len_payout,
            total as int == perpetual_total(r.take(i as int), owner),
            total <= i * 0xFFFF_FFFFu128,
            amounts_view(out@) == royalty_shares(
                r.take(i as int),
                owner,
                balance as int,
            ),
            forall|j: int|
                0 <= j < i && r[j].0@ != owner ==> #[trigger] (r[j].1 * balance) <= u128::MAX,
        decreases r.len() - i,
    {
        assert(r.take(i + 1).drop_last() =~= r.take(i as int));
        let entry = &royalty[i];
        if entry.0 != *owner_id {
            match royalty_to_payout(entry.1, balance) {
                Some(amount) => {
                    let ghost before = out@;
                    out.push((entry.0.clone(), amount));
                    assert(amounts_view(out@) =~= amounts_view(before).push(
                        (entry.0@, amount as int),
                    ));
                },
                None => {
                    let ghost b = balance as int;
                    assert(r[i as int].1 * b > u128::MAX);
                    assert(!payout_fits(r, owner, b));
                    return Err(NftError::ArithmeticOverflow);
                },
            }
            assert(total + entry.1 <= (i + 1) * 0xFFFF_FFFFu128) by (nonlinear_arith)
                requires
                    total <= i * 0xFFFF_FFFFu128,
                    entry.1 <= 0xFFFF_FFFFu32,
            ;
            assert((i + 1) * 0xFFFF_FFFFu128 <= 0x1_0000_0000_0000_0000 * 0xFFFF_FFFFu128)
                by (nonlinear_arith)
                requires
                    i + 1 <= 0x1_0000_0000_0000_0000int,
            ;
            total = total + entry.1 as u128;
        } else {
            assert(total <= (i + 1) * 0xFFFF_FFFFu128) by (nonlinear_arith)
                requires
                    total <= i * 0xFFFF_FFFFu128,
            ;
        }
        i = i + 1;
    }
    assert(r.take(i as int) =~= r);
    if total > FULL_SHARE as u128 {
        return Err(NftError::ArithmeticOverflow);
    }
    let rest = FULL_SHARE - total as u32;
    match royalty_to_payout(rest, balance) {
        Some(amount) => {
            let ghost before = out@;
            out.push((owner_id.clone(), amount));
            let p = Payout { payout: out };
            assert(p.entries() =~= amounts_view(before).push(
                (owner_id@, amount as int),
            ));
            Ok(p)
        },
        None => Err(NftError::ArithmeticOverflow),
    }
}

proof fn lemma_shares_bounds(r: Seq<(String, u32)>, owner: Seq<char>, balance: int)
    requires
        balance >= 0,
    ensures
        10000 * payout_sum(royalty_shares(r, owner, balance)) <= balance * perpetual_total(
            r,
            owner,
        ),
        balance * perpetual_total(r, owner) <= 10000 * payout_sum(
            royalty_shares(r, owner, balance),
        ) + 9999 * royalty_shares(r, owner, balance).len(),
        royalty_shares(r, owner, balance).len() <= r.len(),
        perpetual_total(r, owner) >= 0,
    decreases r.len(),
{
    if r.len() > 0 {
        let t = r.drop_last();
        lemma_shares_bounds(t, owner, balance);
        if r.last().0@ != owner {
            let v = r.last().1 as int;
            let s = royalty_shares(t, owner, balance);
            let pt = perpetual_total(t, owner);
            lemma_mul_nonnegative(v, balance);
            lemma_mul_is_commutative(v, balance);
            lemma_mul_is_distributive_add(balance, pt, v);
            let x = v * balance;
            assert(share(v, balance) == x / 10000);
            assert(10000 * (x / 10000) <= x < 10000 * (x / 10000) + 10000);
            assert(s.push((r.last().0@, share(v, balance))).drop_last() =~= s);
            assert(balance * (pt + v) == balance * pt + x);
        }
    }
}

/// Law: when the royalties paid to others total at most the whole balance, a
/// payout never hands out more than `balance`, and what rounding loses is at
/// most one unit per royalty recipient.
pub proof fn lemma_payout_within_balance(r: Seq<(String, u32)>, owner: Seq<char>, balance: int)
    requires
        balance >= 0,
        perpetual_total(r, owner) <= 10000,
    ensures
        payout_sum(payout_entries(r, owner, balance)) <= balance,
        balance - payout_sum(payout_entries(r, owner, balance)) <= r.len(),
{
    lemma_shares_bounds(r, owner, balance);
    let s = royalty_shares(r, owner, balance);
    let t = perpetual_total(r, owner);
    lemma_mul_nonnegative(10000 - t, balance);
    lemma_mul_is_commutative(10000 - t, balance);
    lemma_mul_is_distributive_add(balance, t, 10000 - t);
    lemma_mul_is_commutative(10000, balance);
    let x = (10000 - t) * balance;
    assert(share(10000 - t, balance) == x / 10000);
    assert(10000 * (x / 10000) <= x < 10000 * (x / 10000) + 10000);
    assert(payout_entries(r, owner, balance).drop_last() =~= s);
    assert(balance * t + x == 10000 * balance);
}

/// What a transfer with payout hands back to the host.
#[derive(Debug, Clone, PartialEq, Eq)]
pub struct TransferPayout {
    /// What each account is owed out of the sale balance.
    pub payout: Payout,
    /// The previous owner's refund for the storage of the cleared approvals.
    pub refund: Transfer,
}

/// Why `sender` may not move token `token_id`, if it may not: it must be the
/// owner, or hold an approval matching `approval_id`.
pub open spec fn transfer_error(
    tokens: Map<Seq<char>, Token>,
    sender: Seq<char>,
    token_id: Seq<char>,
    approval_id: Option<u64>,
) -> Option<NftError> {
    if !tokens.contains_key(token_id) {
        Some(NftError::TokenNotFound)
    } else if tokens[token_id].owner_id@ != sender && !approved_for(
        tokens[token_id],
        sender,
        approval_id,
    ) {
        Some(NftError::Unauthorized)
    } else {
        None
    }
}

/// `post` is `pre` once token `token_id` went to `receiver`: its approvals are
/// cleared, its counter and royalty schedule stay.
pub open spec fn transfer_step(
    pre: Map<Seq<char>, Token>,
    post: Map<Seq<char>, Token>,
    token_id: Seq<char>,
    receiver: AccountId,
) -> bool {
    &&& pre.contains_key(token_id)
    &&& post == pre.insert(token_id, post[token_id])
    &&& post[token_id].owner_id == receiver
    &&& post[token_id].approved_account_ids@ == Seq::<(AccountId, u64)>::empty()
    &&& post[token_id].next_approval_id == pre[token_id].next_approval_id
    &&& post[token_id].royalty@ == pre[token_id].royalty@
}

/// The previous owner's storage refund for the approvals of `token` fits.
pub open spec fn approvals_refund_fits(token: Token, storage_byte_cost: int) -> bool {
    &&& approvals_bytes(token.approved_account_ids@) <= u128::MAX
    &&& storage_byte_cost * approvals_bytes(token.approved_account_ids@) <= u128::MAX
}

/// Why a transfer with payout is refused, if it is.
pub open spec fn transfer_payout_error(
    tokens: Map<Seq<char>, Token>,
    ctx: CallContext,
    token_id: Seq<char>,
    approval_id: u64,
    balance: int,
    max_len_payout: int,
) -> Option<NftError> {
    if ctx.attached_deposit != 1 {
        Some(NftError::DepositMismatch)
    } else if transfer_error(tokens, ctx.predecessor_account_id@, token_id, Some(approval_id)).is_some() {
        transfer_error(tokens, ctx.predecessor_account_id@, token_id, Some(approval_id))
    } else if !approvals_refund_fits(tokens[token_id], ctx.storage_byte_cost as int) {
        Some(NftError::ArithmeticOverflow)
    } else {
        match payout_outcome(
            tokens[token_id].royalty@,
            tokens[token_id].owner_id@,
            balance,
            max_len_payout,
        ) {
            Ok(_) => None,
            Err(e) => Some(e),
        }
    }
}

/// Whether `sender_id` may move `token`: as its owner, or as an approved
/// account whose approval id matches `approval_id` when that is given.
fn authorize(token: &Token, sender_id: &AccountId, approval_id: Option<u64>) -> (r: Result<
    (),
    NftError,
>)
    requires
        token.wf(),
    ensures
        r == (if token.owner_id@ == sender_id@ || approved_for(*token, sender_id@, approval_id) {
            Ok::<(), NftError>(())
        } else {
            Err(NftError::Unauthorized)
        }),
{
    if *sender_id == token.owner_id {
        return Ok(());
    }
    match get_entry(&token.approved_account_ids, sender_id) {
        Some(actual) => match approval_id {
            Some(enforced) => {
                if *actual == enforced {
                    Ok(())
                } else {
                    Err(NftError::Unauthorized)
                }
            },
            None => Ok(()),
        },
        None => Err(NftError::Unauthorized),
    }
}

impl Contract {
    /// Moves token `token_id` from its owner to `receiver_id` on behalf of
    /// `sender_id`, and returns the token as it was.
    pub fn internal_transfer(
        &mut self,
        sender_id: &AccountId,
        receiver_id: &AccountId,
        token_id: &TokenId,
        approval_id: Option<u64>,
    ) -> (r: Result<Token, NftError>)
        requires
            old(self).wf(),
        ensures
            final(self).wf(),
            final(self).metadata == old(self).metadata,
            final(self).token_metadata() == old(self).token_metadata(),
            match r {
                Ok(previous) => {
                    &&& transfer_error(old(self).tokens(), sender_id@, token_id@, approval_id).is_none()
                    &&& previous == old(self).tokens()[token_id@]
                    &&& transfer_step(old(self).tokens(), final(self).tokens(), token_id@, *receiver_id)
                },
                Err(e) => transfer_error(old(self).tokens(), sender_id@, token_id@, approval_id)
                    == Some(e) && *final(self) == *old(self),
            },
    {
        let token = match get_entry(&self.tokens_by_id, token_id) {
            Some(t) => t,
            None => {
                return Err(NftError::TokenNotFound);
            },
        };
        assert(self.tokens()[token_id@].wf());
        match authorize(token, sender_id, approval_id) {
            Ok(()) => {},
            Err(e) => {
                return Err(e);
            },
        }
        let ghost pre = self.tokens();
        let previous = match remove_entry(&mut self.tokens_by_id, token_id) {
            Some(t) => t,
            None => {
                assert(false);
                return Err(NftError::TokenNotFound);
            },
        };
        let new_token = Token {
            owner_id: receiver_id.clone(),
            approved_account_ids: Vec::new(),
            next_approval_id: previous.next_approval_id,
            royalty: clone_entries(&previous.royalty),
        };
        assert(new_token.royalty@ == previous.royalty@);
        assert(new_token.approvals() =~= Map::<Seq<char>, u64>::empty());
        let ghost nt = new_token;
        put_entry(&mut self.tokens_by_id, token_id.clone(), new_token);
        assert(self.tokens() =~= pre.insert(token_id@, nt));
        assert forall|k: Seq<char>| #[trigger] self.tokens().contains_key(k) implies self.tokens()[
            k
        ].wf() by {
            if k != token_id@ {
                assert(pre.contains_key(k));
            }
        }
        Ok(previous)
    }

    /// The payout of `balance` over the current royalty schedule of token
    /// `token_id`.
    pub fn nft_payout(&self, token_id: TokenId, balance: u128, max_len_payout: u32) -> (r: Result<
        Payout,
        NftError,
    >)
        requires
            self.wf(),
        ensures
            match r {
                Ok(p) => self.tokens().contains_key(token_id@) && payout_outcome(
                    self.tokens()[token_id@].royalty@,
                    self.tokens()[token_id@].owner_id@,
                    balance as int,
                    max_len_payout as int,
                ) == Ok::<Seq<(Seq<char>, int)>, NftError>(p.entries()),
                Err(e) => if self.tokens().contains_key(token_id@) {
                    payout_outcome(
                        self.tokens()[token_id@].royalty@,
                        self.tokens()[token_id@].owner_id@,
                        balance as int,
                        max_len_payout as int,
                    ) == Err::<Seq<(Seq<char>, int)>, NftError>(e)
                } else {
                    e == NftError::TokenNotFound
                },
            },
    {
        match get_entry(&self.tokens_by_id, &token_id) {
            Some(token) => compute_payout(&token.royalty, &token.owner_id, balance, max_len_payout),
            None => Err(NftError::TokenNotFound),
        }
    }

    /// Transfers token `token_id` to `receiver_id` and returns the payout of
    /// `balance` over the previous owner's royalty schedule, with the previous
    /// owner's refund for the approvals that the transfer cleared.
    pub fn nft_transfer_payout(
        &mut self,
        ctx: &CallContext,
        receiver_id: AccountId,
        token_id: TokenId,
        approval_id: u64,
        _memo: Option<String>,
        balance: u128,
        max_len_payout: u32,
    ) -> (r: Result<TransferPayout, NftError>)
        requires
            old(self).wf(),
        ensures
            final(self).wf(),
            final(self).metadata == old(self).metadata,
            final(self).token_metadata() == old(self).token_metadata(),
            match r {
                Ok(out) => {
                    let previous = old(self).tokens()[token_id@];
                    &&& transfer_payout_error(
                        old(self).tokens(),
                        *ctx,
                        token_id@,
                        approval_id,
                        balance as int,
                        max_len_payout as int,
                    ).is_none()
                    &&& transfer_step(old(self).tokens(), final(self).tokens(), token_id@, receiver_id)
                    &&& out.refund == (Transfer {
                        receiver_id: previous.owner_id,
                        amount: (ctx.storage_byte_cost * approvals_bytes(
                            previous.approved_account_ids@,
                        )) as u128,
                    })
                    &&& payout_outcome(
                        previous.royalty@,
                        previous.owner_id@,
                        balance as int,
                        max_len_payout as int,
                    ) == Ok::<Seq<(Seq<char>, int)>, NftError>(out.payout.entries())
                },
                Err(e) => transfer_payout_error(
                    old(self).tokens(),
                    *ctx,
                    token_id@,
                    approval_id,
                    balance as int,
                    max_len_payout as int,
                ) == Some(e) && *final(self) == *old(self),
            },
    {
        match assert_one_yocto(ctx.attached_deposit) {
            Ok(()) => {},
            Err(e) => {
                return Err(e);
            },
        }
        let sender_id = &ctx.predecessor_account_id;
        let token = match get_entry(&self.tokens_by_id, &token_id) {
            Some(t) => t,
            None => {
                return Err(NftError::TokenNotFound);
            },
        };
        assert(self.tokens()[token_id@].wf());
        match authorize(token, sender_id, Some(approval_id)) {
            Ok(()) => {},
            Err(e) => {
                return Err(e);
            },
        }
        let refund = match refund_approved_account_ids(
            token.owner_id.clone(),
            &token.approved_account_ids,
            ctx.storage_byte_cost,
        ) {
            Ok(t) => t,
            Err(e) => {
                return Err(e);
            },
        };
        let payout = match compute_payout(&token.royalty, &token.owner_id, balance, max_len_payout) {
            Ok(p) => p,
            Err(e) => {
                return Err(e);
            },
        };
        match self.internal_transfer(sender_id, &receiver_id, &token_id, Some(approval_id)) {
            Ok(_) => {},
            Err(e) => {
                return Err(e);
            },
        }
        Ok(TransferPayout { payout, refund })
    }
}

} // verus!