use nft_contract::approval::ApprovalNotice;
use nft_contract::contract::Contract;
use nft_contract::metadata::{NFTContractMetadata, NftError, Payout, TokenMetadata};
use nft_contract::royalty::compute_payout;
use nft_contract::storage::{
    bytes_for_approved_account_id, refund_deposit, CallContext, Transfer,
};

fn contract_metadata() -> NFTContractMetadata {
    NFTContractMetadata {
        spec: "nft-1.0.0".to_string(),
        name: "Tokens".to_string(),
        symbol: "TOK".to_string(),
        icon: None,
        base_uri: None,
        reference: None,
        reference_hash: None,
    }
}

fn token_metadata() -> TokenMetadata {
    TokenMetadata {
        title: Some("One".to_string()),
        description: None,
        media: None,
        media_hash: None,
        copies: Some(1),
        issued_at: None,
        expires_at: None,
        starts_at: None,
        updated_at: None,
        extra: None,
        reference: None,
        reference_hash: None,
    }
}

fn call(who: &str, deposit: u128) -> CallContext {
    CallContext {
        predecessor_account_id: who.to_string(),
        attached_deposit: deposit,
        storage_byte_cost: 10,
    }
}

fn royalties(entries: &[(&str, u32)]) -> Option<Vec<(String, u32)>> {
    Some(entries.iter().map(|(a, b)| (a.to_string(), *b)).collect())
}

fn ledger_with_token(royalty: &[(&str, u32)]) -> Contract {
    let mut c = Contract::new(contract_metadata());
    c.nft_mint("1".to_string(), token_metadata(), "alice".to_string(), royalties(royalty))
        .unwrap();
    c
}

fn owner_of(c: &Contract, token_id: &str) -> String {
    c.tokens_by_id.iter().find(|(k, _)| k == token_id).unwrap().1.owner_id.clone()
}

fn next_approval_id(c: &Contract, token_id: &str) -> u64 {
    c.tokens_by_id.iter().find(|(k, _)| k == token_id).unwrap().1.next_approval_id
}

fn total(p: &Payout) -> u128 {
    p.payout.iter().map(|(_, a)| *a).sum()
}

#[test]
fn transfer_payout_splits_royalty_and_moves_token() {
    let mut c = ledger_with_token(&[("bob", 500)]);
    let out = c
        .nft_transfer_payout(&call("alice", 1), "carol".to_string(), "1".to_string(), 0, None, 10000, 10)
        .unwrap();
    assert_eq!(out.payout.get(&"bob".to_string()), Some(500));
    assert_eq!(out.payout.get(&"alice".to_string()), Some(9500));
    assert_eq!(out.payout.payout.len(), 2);
    assert_eq!(total(&out.payout), 10000);
    assert_eq!(out.refund, Transfer { receiver_id: "alice".to_string(), amount: 0 });
    assert_eq!(owner_of(&c, "1"), "carol");
}

#[test]
fn approve_by_non_owner_is_unauthorized() {
    let mut c = ledger_with_token(&[]);
    let r = c.nft_approve(&call("eve", 1000), "1".to_string(), "dave".to_string(), None);
    assert_eq!(r.unwrap_err(), NftError::Unauthorized);
    assert_eq!(c.nft_is_approved("1".to_string(), "dave".to_string(), None), Ok(false));
    assert_eq!(next_approval_id(&c, "1"), 0);
}

#[test]
fn revoke_with_two_units_is_deposit_mismatch() {
    let mut c = ledger_with_token(&[]);
    c.nft_approve(&call("alice", 1000), "1".to_string(), "dave".to_string(), None).unwrap();
    let r = c.nft_revoke(&call("alice", 2), "1".to_string(), "dave".to_string());
    assert_eq!(r, Err(NftError::DepositMismatch));
    assert_eq!(c.nft_is_approved("1".to_string(), "dave".to_string(), None), Ok(true));
}

#[test]
fn approve_charges_storage_and_refunds_the_rest() {
    let mut c = ledger_with_token(&[]);
    let out = c.nft_approve(&call("alice", 1000), "1".to_string(), "dave".to_string(), None).unwrap();
    // "dave" takes 4 bytes, plus a 4-byte length prefix and an 8-byte id.
    assert_eq!(out.refund, Transfer { receiver_id: "alice".to_string(), amount: 1000 - 160 });
    assert_eq!(out.notice, None);
    assert_eq!(c.nft_is_approved("1".to_string(), "dave".to_string(), None), Ok(true));
    assert_eq!(c.nft_is_approved("1".to_string(), "dave".to_string(), Some(0)), Ok(true));
    assert_eq!(c.nft_is_approved("1".to_string(), "dave".to_string(), Some(1)), Ok(false));
}

#[test]
fn approve_with_message_produces_notice() {
    let mut c = ledger_with_token(&[]);
    let out = c
        .nft_approve(&call("alice", 1000), "1".to_string(), "market".to_string(), Some("list".to_string()))
        .unwrap();
    assert_eq!(
        out.notice,
        Some(ApprovalNotice {
            receiver_id: "market".to_string(),
            token_id: "1".to_string(),
            owner_id: "alice".to_string(),
            approval_id: 0,
            msg: "list".to_string(),
        })
    );
}

#[test]
fn approval_ids_are_issued_in_order() {
    let mut c = ledger_with_token(&[]);
    for who in ["dave", "erin", "frank"] {
        c.nft_approve(&call("alice", 1000), "1".to_string(), who.to_string(), None).unwrap();
    }
    assert_eq!(next_approval_id(&c, "1"), 3);
    assert_eq!(c.nft_is_approved("1".to_string(), "dave".to_string(), Some(0)), Ok(true));
    assert_eq!(c.nft_is_approved("1".to_string(), "erin".to_string(), Some(1)), Ok(true));
    assert_eq!(c.nft_is_approved("1".to_string(), "frank".to_string(), Some(2)), Ok(true));
}

#[test]
fn reapproval_takes_a_new_id_without_storage_charge() {
    let mut c = ledger_with_token(&[]);
    c.nft_approve(&call("alice", 1000), "1".to_string(), "dave".to_string(), None).unwrap();
    let out = c.nft_approve(&call("alice", 1000), "1".to_string(), "dave".to_string(), None).unwrap();
    assert_eq!(out.refund.amount, 1000);
    assert_eq!(next_approval_id(&c, "1"), 2);
    assert_eq!(c.nft_is_approved("1".to_string(), "dave".to_string(), Some(0)), Ok(false));
    assert_eq!(c.nft_is_approved("1".to_string(), "dave".to_string(), Some(1)), Ok(true));
}

#[test]
fn approve_without_deposit_is_refused() {
    let mut c = ledger_with_token(&[]);
    let r = c.nft_approve(&call("alice", 0), "1".to_string(), "dave".to_string(), None);
    assert_eq!(r.unwrap_err(), NftError::DepositRequired);
}

#[test]
fn approve_with_too_small_deposit_is_refused() {
    let mut c = ledger_with_token(&[]);
    let r = c.nft_approve(&call("alice", 159), "1".to_string(), "dave".to_string(), None);
    assert_eq!(r.unwrap_err(), NftError::InsufficientDeposit);
    assert_eq!(c.nft_is_approved("1".to_string(), "dave".to_string(), None), Ok(false));
    assert_eq!(next_approval_id(&c, "1"), 0);
}

#[test]
fn unknown_token_is_not_found() {
    let mut c = ledger_with_token(&[]);
    assert_eq!(c.nft_is_approved("2".to_string(), "dave".to_string(), None), Err(NftError::TokenNotFound));
    let r = c.nft_approve(&call("alice", 1000), "2".to_string(), "dave".to_string(), None);
    assert_eq!(r.unwrap_err(), NftError::TokenNotFound);
    assert_eq!(c.nft_payout("2".to_string(), 100, 10), Err(NftError::TokenNotFound));
}

#[test]
fn revoke_removes_approval_and_refunds_storage() {
    let mut c = ledger_with_token(&[]);
    c.nft_approve(&call("alice", 1000), "1".to_string(), "dave".to_string(), None).unwrap();
    let r = c.nft_revoke(&call("alice", 1), "1".to_string(), "dave".to_string());
    assert_eq!(r, Ok(Some(Transfer { receiver_id: "alice".to_string(), amount: 160 })));
    assert_eq!(c.nft_is_approved("1".to_string(), "dave".to_string(), None), Ok(false));
}

#[test]
fn revoke_of_unapproved_account_does_nothing() {
    let mut c = ledger_with_token(&[]);
    let r = c.nft_revoke(&call("alice", 1), "1".to_string(), "dave".to_string());
    assert_eq!(r, Ok(None));
}

#[test]
fn revoke_by_non_owner_is_unauthorized() {
    let mut c = ledger_with_token(&[]);
    c.nft_approve(&call("alice", 1000), "1".to_string(), "dave".to_string(), None).unwrap();
    let r = c.nft_revoke(&call("eve", 1), "1".to_string(), "dave".to_string());
    assert_eq!(r, Err(NftError::Unauthorized));
    assert_eq!(c.nft_revoke_all(&call("eve", 1), "1".to_string()), Err(NftError::Unauthorized));
}

#[test]
fn revoke_all_clears_every_approval() {
    let mut c = ledger_with_token(&[]);
    c.nft_approve(&call("alice", 1000), "1".to_string(), "dave".to_string(), None).unwrap();
    c.nft_approve(&call("alice", 1000), "1".to_string(), "erin".to_string(), None).unwrap();
    let r = c.nft_revoke_all(&call("alice", 1), "1".to_string());
    assert_eq!(r, Ok(Some(Transfer { receiver_id: "alice".to_string(), amount: 320 })));
    assert_eq!(c.nft_is_approved("1".to_string(), "dave".to_string(), None), Ok(false));
    assert_eq!(c.nft_is_approved("1".to_string(), "erin".to_string(), None), Ok(false));
    assert_eq!(next_approval_id(&c, "1"), 2);
    assert_eq!(c.nft_revoke_all(&call("alice", 1), "1".to_string()), Ok(None));
}

#[test]
fn revoke_all_needs_exactly_one_unit() {
    let mut c = ledger_with_token(&[]);
    assert_eq!(c.nft_revoke_all(&call("alice", 0), "1".to_string()), Err(NftError::DepositMismatch));
}

#[test]
fn minting_twice_is_refused() {
    let mut c = ledger_with_token(&[("bob", 500)]);
    let r = c.nft_mint("1".to_string(), token_metadata(), "zed".to_string(), None);
    assert_eq!(r, Err(NftError::DuplicateToken));
    assert_eq!(owner_of(&c, "1"), "alice");
    assert_eq!(c.tokens_by_id.len(), 1);
    assert_eq!(c.tokens_by_id[0].1.royalty, vec![("bob".to_string(), 500)]);
}

#[test]
fn minting_with_seven_royalties_is_refused() {
    let mut c = Contract::new(contract_metadata());
    let seven = [("a", 1), ("b", 1), ("c", 1), ("d", 1), ("e", 1), ("f", 1), ("g", 1)];
    let r = c.nft_mint("1".to_string(), token_metadata(), "alice".to_string(), royalties(&seven));
    assert_eq!(r, Err(NftError::TooManyRoyaltyRecipients));
    assert!(c.tokens_by_id.is_empty());
    assert!(c.token_metadata_by_id.is_empty());
    let six = &seven[..6];
    assert_eq!(c.nft_mint("1".to_string(), token_metadata(), "alice".to_string(), royalties(six)), Ok(()));
}

#[test]
fn payout_rounds_down_and_stays_within_balance() {
    let c = ledger_with_token(&[("bob", 3333), ("carl", 3333)]);
    let p = c.nft_payout("1".to_string(), 10, 10).unwrap();
    assert_eq!(p.get(&"bob".to_string()), Some(3));
    assert_eq!(p.get(&"carl".to_string()), Some(3));
    assert_eq!(p.get(&"alice".to_string()), Some(3));
    assert_eq!(total(&p), 9);
}

#[test]
fn payout_skips_owner_royalty_entry() {
    let c = ledger_with_token(&[("alice", 1000), ("bob", 2500)]);
    let p = c.nft_payout("1".to_string(), 1000, 10).unwrap();
    assert_eq!(p.payout, vec![("bob".to_string(), 250), ("alice".to_string(), 750)]);
}

#[test]
fn payout_recipient_limit_is_enforced() {
    let c = ledger_with_token(&[("bob", 500), ("carl", 500)]);
    assert_eq!(c.nft_payout("1".to_string(), 100, 1), Err(NftError::PayoutRecipientLimitExceeded));
    assert!(c.nft_payout("1".to_string(), 100, 2).is_ok());
}

#[test]
fn royalties_over_the_whole_balance_overflow() {
    let c = ledger_with_token(&[("bob", 6000), ("carl", 6000)]);
    assert_eq!(c.nft_payout("1".to_string(), 100, 10), Err(NftError::ArithmeticOverflow));
}

#[test]
fn payout_of_huge_balance_overflows() {
    let r = compute_payout(&vec![("bob".to_string(), 500)], &"alice".to_string(), u128::MAX, 10);
    assert_eq!(r, Err(NftError::ArithmeticOverflow));
}

#[test]
fn transfer_by_approved_account_needs_matching_id() {
    let mut c = ledger_with_token(&[]);
    c.nft_approve(&call("alice", 1000), "1".to_string(), "market".to_string(), None).unwrap();
    let wrong = c.nft_transfer_payout(&call("market", 1), "carol".to_string(), "1".to_string(), 7, None, 100, 10);
    assert_eq!(wrong, Err(NftError::Unauthorized));
    assert_eq!(owner_of(&c, "1"), "alice");
    let out = c
        .nft_transfer_payout(&call("market", 1), "carol".to_string(), "1".to_string(), 0, None, 100, 10)
        .unwrap();
    assert_eq!(out.payout.payout, vec![("alice".to_string(), 100)]);
    assert_eq!(out.refund, Transfer { receiver_id: "alice".to_string(), amount: 180 });
    assert_eq!(owner_of(&c, "1"), "carol");
    assert_eq!(c.nft_is_approved("1".to_string(), "market".to_string(), None), Ok(false));
}

#[test]
fn transfer_by_stranger_is_unauthorized() {
    let mut c = ledger_with_token(&[]);
    let r = c.nft_transfer_payout(&call("eve", 1), "eve".to_string(), "1".to_string(), 0, None, 100, 10);
    assert_eq!(r, Err(NftError::Unauthorized));
    let r = c.nft_transfer_payout(&call("alice", 2), "eve".to_string(), "1".to_string(), 0, None, 100, 10);
    assert_eq!(r, Err(NftError::DepositMismatch));
}

#[test]
fn deposit_settlement() {
    assert_eq!(refund_deposit(&call("alice", 1000), 50), Ok(500));
    assert_eq!(refund_deposit(&call("alice", 1000), 0), Ok(1000));
    assert_eq!(refund_deposit(&call("alice", 1000), 101), Err(NftError::InsufficientDeposit));
    assert_eq!(refund_deposit(&call("alice", 1000), u128::MAX), Err(NftError::InsufficientDeposit));
    assert_eq!(bytes_for_approved_account_id(&"dave".to_string()), 16);
}

#[test]
fn contract_metadata_is_returned() {
    let c = Contract::new(contract_metadata());
    assert_eq!(c.nft_metadata(), contract_metadata());
}

#[test]
fn token_view_shows_owner_metadata_and_royalty() {
    let mut c = ledger_with_token(&[("bob", 500)]);
    c.nft_approve(&call("alice", 1000), "1".to_string(), "dave".to_string(), None).unwrap();
    let t = c.nft_token("1".to_string()).unwrap();
    assert_eq!(t.token_id, "1");
    assert_eq!(t.owner_id, "alice");
    assert_eq!(t.metadata, token_metadata());
    assert_eq!(t.approved_account_ids, vec![("dave".to_string(), 0)]);
    assert_eq!(t.royalty, vec![("bob".to_string(), 500)]);
    assert_eq!(c.nft_token("2".to_string()), None);
}
