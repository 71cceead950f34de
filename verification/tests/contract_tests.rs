use ft_contract::account::AccountId;
use ft_contract::contract::{Contract, ContractV1, MintError};
use ft_contract::contract::u128_to_decimal;
use ft_contract::ledger::{Ledger, LedgerError};
use ft_contract::metadata::{Metadata, METADATA_DECIMALS};

fn account(s: &str) -> AccountId {
    AccountId::new(s.as_bytes().to_vec()).unwrap()
}

#[test]
fn init() {
    let _contract = Contract::new(account("bob.near"));
    println!("{:?}", account("bob.near").bytes);
}

#[test]
fn new_contract_is_empty_with_default_metadata() {
    let c = Contract::new(account("owner.near"));
    assert_eq!(c.ft_total_supply(), 0);
    assert_eq!(c.ft_balance_of(&account("anyone.near")), 0);
    let m = c.ft_metadata();
    assert_eq!(m.spec_text, b"ft-1.0.0".to_vec());
    assert_eq!(m.name, b"Example NEAR fungible token".to_vec());
    assert_eq!(m.symbol, b"EXAMPLE".to_vec());
    assert_eq!(m.decimals, METADATA_DECIMALS);
    assert!(m.icon.is_some());
    assert!(m.reference.is_none());
    assert!(m.reference_hash.is_none());
    assert_eq!(c.owner_id.bytes, b"owner.near".to_vec());
}

#[test]
fn mint_by_non_owner_is_refused() {
    let mut c = Contract::new(account("owner.near"));
    c.storage_deposit(&account("bob.near")).unwrap();
    let r = c.ft_mint(&account("mallory.near"), &account("bob.near"), 5);
    assert_eq!(r, Err(MintError::NotOwner));
    assert_eq!(c.ft_total_supply(), 0);
    assert_eq!(c.ft_balance_of(&account("bob.near")), 0);
}

#[test]
fn mint_by_owner_credits_signer_and_supply() {
    let mut c = Contract::new(account("owner.near"));
    c.storage_deposit(&account("bob.near")).unwrap();
    c.storage_deposit(&account("carol.near")).unwrap();
    let r = c.ft_mint(&account("owner.near"), &account("bob.near"), 100);
    assert_eq!(r, Ok(()));
    assert_eq!(c.ft_balance_of(&account("bob.near")), 100);
    assert_eq!(c.ft_balance_of(&account("carol.near")), 0);
    assert_eq!(c.ft_total_supply(), 100);
}

#[test]
fn mint_to_unregistered_signer_is_refused() {
    let mut c = Contract::new(account("owner.near"));
    let r = c.ft_mint(&account("owner.near"), &account("bob.near"), 5);
    assert_eq!(r, Err(MintError::Ledger(LedgerError::NotRegistered)));
    assert_eq!(c.ft_total_supply(), 0);
}

#[test]
fn mint_overflow_is_refused() {
    let mut c = Contract::new(account("owner.near"));
    c.storage_deposit(&account("bob.near")).unwrap();
    c.ft_mint(&account("owner.near"), &account("bob.near"), u128::MAX).unwrap();
    let r = c.ft_mint(&account("owner.near"), &account("bob.near"), 1);
    assert_eq!(r, Err(MintError::Ledger(LedgerError::BalanceOverflow)));
    assert_eq!(c.ft_total_supply(), u128::MAX);
    assert_eq!(c.ft_balance_of(&account("bob.near")), u128::MAX);
}

#[test]
fn migrate_keeps_ledger_and_metadata_and_sets_owner() {
    let mut token = Ledger::new();
    token.register_account(&account("bob.near")).unwrap();
    token.deposit(&account("bob.near").bytes, 42).unwrap();
    let legacy = ContractV1 { token, metadata: Some(Metadata::default_metadata()) };
    let bytes = legacy.serialize();

    let migrated = Contract::migrate(&bytes, account("newowner.near")).unwrap();
    assert_eq!(migrated.owner_id.bytes, b"newowner.near".to_vec());
    assert_eq!(migrated.ft_total_supply(), 42);
    assert_eq!(migrated.ft_balance_of(&account("bob.near")), 42);
    let m = migrated.ft_metadata();
    assert_eq!(m.symbol, b"EXAMPLE".to_vec());
}

#[test]
fn migrate_twice_is_refused() {
    let legacy = ContractV1 {
        token: Ledger::new(),
        metadata: Some(Metadata::default_metadata()),
    };
    let bytes = legacy.serialize();
    let migrated = Contract::migrate(&bytes, account("newowner.near")).unwrap();

    let new_bytes = migrated.serialize();
    assert!(Contract::migrate(&new_bytes, account("thirdowner.near")).is_none());
}

#[test]
fn update_metadata_resets_to_constants() {
    let mut c = Contract::new(account("owner.near"));
    c.metadata = None;
    c.update_metadata();
    let m = c.ft_metadata();
    let d = Metadata::default_metadata();
    assert!(m.same_as(&d));
}

#[test]
fn serialize_roundtrip_preserves_everything() {
    let mut c = Contract::new(account("owner.near"));
    c.storage_deposit(&account("bob.near")).unwrap();
    c.storage_deposit(&account("carol.near")).unwrap();
    c.ft_mint(&account("owner.near"), &account("bob.near"), 7).unwrap();
    let bytes = c.serialize();
    let d = Contract::deserialize(&bytes).unwrap();
    assert_eq!(d.owner_id.bytes, c.owner_id.bytes);
    assert_eq!(d.ft_total_supply(), 7);
    assert_eq!(d.ft_balance_of(&account("bob.near")), 7);
    assert_eq!(d.ft_balance_of(&account("carol.near")), 0);
    assert!(d.ft_metadata().same_as(&c.ft_metadata()));
}

#[test]
fn deserialize_refuses_malformed_bytes() {
    assert!(Contract::deserialize(&Vec::new()).is_none());
    let c = Contract::new(account("owner.near"));
    let mut bytes = c.serialize();
    bytes.push(0);
    assert!(Contract::deserialize(&bytes).is_none());
    let good = c.serialize();
    let truncated = good[..good.len() - 1].to_vec();
    assert!(Contract::deserialize(&truncated).is_none());
}

#[test]
fn transfer_moves_balance_and_keeps_supply() {
    let mut c = Contract::new(account("owner.near"));
    c.storage_deposit(&account("bob.near")).unwrap();
    c.storage_deposit(&account("carol.near")).unwrap();
    c.ft_mint(&account("owner.near"), &account("bob.near"), 10).unwrap();
    c.ft_transfer(&account("bob.near"), &account("carol.near"), 4).unwrap();
    assert_eq!(c.ft_balance_of(&account("bob.near")), 6);
    assert_eq!(c.ft_balance_of(&account("carol.near")), 4);
    assert_eq!(c.ft_total_supply(), 10);
}

#[test]
fn transfer_refusals() {
    let mut c = Contract::new(account("owner.near"));
    c.storage_deposit(&account("bob.near")).unwrap();
    c.storage_deposit(&account("carol.near")).unwrap();
    c.ft_mint(&account("owner.near"), &account("bob.near"), 10).unwrap();
    assert_eq!(
        c.ft_transfer(&account("bob.near"), &account("bob.near"), 1),
        Err(LedgerError::SameAccount)
    );
    assert_eq!(
        c.ft_transfer(&account("bob.near"), &account("carol.near"), 0),
        Err(LedgerError::ZeroAmount)
    );
    assert_eq!(
        c.ft_transfer(&account("bob.near"), &account("carol.near"), 11),
        Err(LedgerError::NotEnoughBalance)
    );
    assert_eq!(
        c.ft_transfer(&account("dave.near"), &account("carol.near"), 1),
        Err(LedgerError::NotRegistered)
    );
    assert_eq!(c.ft_total_supply(), 10);
    assert_eq!(c.ft_balance_of(&account("bob.near")), 10);
}

#[test]
fn double_registration_is_refused() {
    let mut c = Contract::new(account("owner.near"));
    c.storage_deposit(&account("bob.near")).unwrap();
    assert_eq!(
        c.storage_deposit(&account("bob.near")),
        Err(LedgerError::AlreadyRegistered)
    );
}

#[test]
fn unregister_burns_balance_and_logs() {
    let mut c = Contract::new(account("owner.near"));
    c.storage_deposit(&account("bob.near")).unwrap();
    c.ft_mint(&account("owner.near"), &account("bob.near"), 100).unwrap();
    let (burned, line) = c.storage_unregister(&account("bob.near")).unwrap();
    assert_eq!(burned, 100);
    assert_eq!(line, b"Closed @bob.near with 100".to_vec());
    assert_eq!(c.ft_total_supply(), 0);
    assert_eq!(c.ft_balance_of(&account("bob.near")), 0);
    assert_eq!(
        c.storage_unregister(&account("bob.near")),
        Err(LedgerError::NotRegistered)
    );
}

#[test]
fn burned_hook_formats_the_log_line() {
    let mut c = Contract::new(account("owner.near"));
    let line = c.on_tokens_burned(&account("bob.near"), 7);
    assert_eq!(line, b"Account @bob.near burned 7".to_vec());
}

#[test]
fn decimal_rendering_is_exact() {
    assert_eq!(u128_to_decimal(0), b"0".to_vec());
    assert_eq!(u128_to_decimal(9), b"9".to_vec());
    assert_eq!(u128_to_decimal(10), b"10".to_vec());
    assert_eq!(u128_to_decimal(1234567890), b"1234567890".to_vec());
    assert_eq!(
        u128_to_decimal(u128::MAX),
        b"340282366920938463463374607431768211455".to_vec()
    );
}

#[test]
fn account_id_validation_edges() {
    assert!(AccountId::new(b"a".to_vec()).is_none());
    assert!(AccountId::new(b"ab".to_vec()).is_some());
    assert!(AccountId::new(vec![b'a'; 64]).is_some());
    assert!(AccountId::new(vec![b'a'; 65]).is_none());
    assert!(AccountId::new(b"-ab".to_vec()).is_none());
    assert!(AccountId::new(b"ab-".to_vec()).is_none());
    assert!(AccountId::new(b"a..b".to_vec()).is_none());
    assert!(AccountId::new(b"a_b-c.d0".to_vec()).is_some());
    assert!(AccountId::new(b"Alice".to_vec()).is_none());
    assert!(AccountId::new(b"a b".to_vec()).is_none());
}

#[test]
fn withdraw_debits_balance_and_supply() {
    let mut l = Ledger::new();
    l.register_account(&account("bob.near")).unwrap();
    l.deposit(&account("bob.near").bytes, 10).unwrap();
    l.withdraw(&account("bob.near").bytes, 3).unwrap();
    assert_eq!(l.ft_balance_of(&account("bob.near").bytes), 7);
    assert_eq!(l.ft_total_supply(), 7);
    assert_eq!(
        l.withdraw(&account("bob.near").bytes, 8),
        Err(LedgerError::NotEnoughBalance)
    );
    assert_eq!(
        l.withdraw(&account("carol.near").bytes, 1),
        Err(LedgerError::NotRegistered)
    );
}

#[test]
fn legacy_roundtrip_preserves_everything() {
    let mut token = Ledger::new();
    token.register_account(&account("bob.near")).unwrap();
    token.deposit(&account("bob.near").bytes, 9).unwrap();
    let legacy = ContractV1 { token, metadata: None };
    let bytes = legacy.serialize();
    let back = ContractV1::deserialize(&bytes).unwrap();
    assert_eq!(back.token.ft_total_supply(), 9);
    assert_eq!(back.token.ft_balance_of(&account("bob.near").bytes), 9);
    assert!(back.metadata.is_none());
    assert!(ContractV1::deserialize(&Vec::new()).is_none());
}
