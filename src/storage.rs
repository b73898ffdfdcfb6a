use vstd::prelude::*;
use vstd::utf8::encode_utf8;

use crate::metadata::{AccountId, NftError};

verus! {

/// What the host tells an operation about its call.
#[derive(Debug, Clone, PartialEq, Eq)]
pub struct CallContext {
    /// The account that made the call.
    pub predecessor_account_id: AccountId,
    /// The deposit attached to the call, in minimal currency units.
    pub attached_deposit: u128,
    /// The price of one byte of storage, in minimal currency units.
    pub storage_byte_cost: u128,
}

/// An amount to be sent to an account.
#[derive(Debug, Clone, PartialEq, Eq)]
pub struct Transfer {
    pub receiver_id: AccountId,
    pub amount: u128,
}

/// The storage bytes that one approval entry for account `a` takes: the
/// account's UTF-8 bytes with their length prefix, and the approval id.
pub open spec fn approval_entry_bytes(a: Seq<char>) -> int {
    (encode_utf8(a).len() as usize) as int + 4 + 8
}

/// The storage bytes that a list of approval entries takes.
pub open spec fn approvals_bytes(s: Seq<(AccountId, u64)>) -> int
    decreases s.len(),
{
    if s.len() == 0 {
        0
    } else {
        approvals_bytes(s.drop_last()) + approval_entry_bytes(s.last().0@)
    }
}

/// Unless exactly one minimal unit is attached, refuses with `DepositMismatch`.
pub fn assert_one_yocto(attached_deposit: u128) -> (r: Result<(), NftError>)
    ensures
        r == (if attached_deposit == 1 {
            Ok::<(), NftError>(())
        } else {
            Err(NftError::DepositMismatch)
        }),
{
    if attached_deposit == 1 {
        Ok(())
    } else {
        Err(NftError::DepositMismatch)
    }
}

/// Unless some deposit is attached, refuses with `DepositRequired`.
pub fn assert_at_least_one_yocto(attached_deposit: u128) -> (r: Result<(), NftError>)
    ensures
        r == (if attached_deposit >= 1 {
            Ok::<(), NftError>(())
        } else {
            Err(NftError::DepositRequired)
        }),
{
    if attached_deposit >= 1 {
        Ok(())
    } else {
        Err(NftError::DepositRequired)
    }
}

/// The storage bytes that an approval entry for `account_id` takes.
pub fn bytes_for_approved_account_id(account_id: &AccountId) -> (r: u128)
    ensures
        r == approval_entry_bytes(account_id@),
{
    account_id.as_str().len() as u128 + 4 + 8
}

/// What is left of the attached deposit once `storage_used` bytes are paid
/// for; refused with `InsufficientDeposit` when the price exceeds the deposit.
pub fn refund_deposit(ctx: &CallContext, storage_used: u128) -> (r: Result<u128, NftError>)
    ensures
        r == (if ctx.storage_byte_cost * storage_used <= ctx.attached_deposit {
            Ok::<u128, NftError>(
                (ctx.attached_deposit - ctx.storage_byte_cost * storage_used) as u128,
            )
        } else {
            Err(NftError::InsufficientDeposit)
        }),
{
    match ctx.storage_byte_cost.checked_mul(storage_used) {
        Some(required_cost) => {
            if required_cost <= ctx.attached_deposit {
                Ok(ctx.attached_deposit - required_cost)
            } else {
                Err(NftError::InsufficientDeposit)
            }
        },
        None => Err(NftError::InsufficientDeposit),
    }
}

proof fn lemma_approvals_bytes_prefix(s: Seq<(AccountId, u64)>, i: int)
    requires
        0 <= i <= s.len(),
    ensures
        0 <= approvals_bytes(s.take(i)) <= approvals_bytes(s),
    decreases s.len(),
{
    if i < s.len() {
        lemma_approvals_bytes_prefix(s.drop_last(), i);
        assert(s.drop_last().take(i) =~= s.take(i));
    } else {
        assert(s.take(i) =~= s);
        if s.len() > 0 {
            lemma_approvals_bytes_prefix(s.drop_last(), i - 1);
            assert(s.drop_last().take(i - 1) =~= s.drop_last());
        }
    }
}

/// The transfer that pays `account_id` back for the storage of `approvals`;
/// refused with `ArithmeticOverflow` when the amount does not fit in `u128`.
pub fn refund_approved_account_ids(
    account_id: AccountId,
    approvals: &Vec<(AccountId, u64)>,
    storage_byte_cost: u128,
) -> (r: Result<Transfer, NftError>)
    ensures
        r == (if approvals_bytes(approvals@) <= u128::MAX && storage_byte_cost * approvals_bytes(
            approvals@,
        ) <= u128::MAX {
            Ok::<Transfer, NftError>(
                Transfer {
                    receiver_id: account_id,
                    amount: (storage_byte_cost * approvals_bytes(approvals@)) as u128,
                },
            )
        } else {
            Err(NftError::ArithmeticOverflow)
        }),
{
    let ghost s = approvals@;
    let mut released: u128 = 0;
    let mut i: usize = 0;
    while i < approvals.len()
        invariant
            s == approvals@,
            i <= s.len(),
            released as int == approvals_bytes(s.take(i as int)),
        decreases s.len() - i,
    {
        assert(s.take(i + 1).drop_last() =~= s.take(i as int));
        let bytes = bytes_for_approved_account_id(&approvals[i].0);
        match released.checked_add(bytes) {
            Some(total) => {
                released = total;
            },
            None => {
                proof {
                    lemma_approvals_bytes_prefix(s, i + 1);
                }
                return Err(NftError::ArithmeticOverflow);
            },
        }
        i = i + 1;
    }
    assert(s.take(i as int) =~= s);
    match storage_byte_cost.checked_mul(released) {
        Some(amount) => Ok(Transfer { receiver_id: account_id, amount }),
        None => Err(NftError::ArithmeticOverflow),
    }
}

} // verus!
