//! The contract record: a token ledger, optional metadata and the one
//! account allowed to mint, together with construction, the one-shot
//! migration from the legacy shape, metadata maintenance, minting, the
//! delegated ledger calls and the two burn/close log hooks.

use vstd::prelude::*;

use crate::account::{AccountId, copy_bytes, valid_account_bytes};
use crate::codec::{
    dec_contract_parts, dec_v1_parts, decode_contract_parts, decode_v1, enc_bytes,
    enc_contract_parts, enc_v1, encode_contract_parts, encode_v1, lemma_enc_le_len,
    lemma_pow256_widths, lemma_sp_contract, lemma_sp_v1,
};
use crate::ledger::{Ledger, LedgerError, LedgerView};
use crate::metadata::{Metadata, MetadataView, view_opt_metadata, spec_default_metadata};

verus! {

/// Why a mint was refused. Every refusal leaves the contract exactly
/// as it was.
#[derive(Clone, Copy, Debug, PartialEq, Eq, Structural)]
pub enum MintError {
    /// The caller is not the configured owner.
    NotOwner,
    /// The ledger refused the deposit.
    Ledger(LedgerError),
}

/// The mathematical shape of the current contract record.
#[verifier::ext_equal]
pub struct ContractView {
    pub token: LedgerView,
    pub metadata: Option<MetadataView>,
    pub owner_id: Seq<u8>,
}

impl ContractView {
    pub open spec fn wf(self) -> bool {
        &&& self.token.wf()
        &&& (self.metadata matches Some(m) ==> m.wf())
        &&& valid_account_bytes(self.owner_id)
    }
}

/// The mathematical shape of the legacy contract record.
#[verifier::ext_equal]
pub struct ContractV1View {
    pub token: LedgerView,
    pub metadata: Option<MetadataView>,
}

impl ContractV1View {
    pub open spec fn wf(self) -> bool {
        &&& self.token.wf()
        &&& (self.metadata matches Some(m) ==> m.wf())
    }
}

/// The on-chain singleton state: the ledger, the descriptive record,
/// and the account authorized to mint.
pub struct Contract {
    pub token: Ledger,
    pub metadata: Option<Metadata>,
    pub owner_id: AccountId,
}

impl View for Contract {
    type V = ContractView;

    open spec fn view(&self) -> ContractView {
        ContractView {
            token: self.token@,
            metadata: view_opt_metadata(self.metadata),
            owner_id: self.owner_id@,
        }
    }
}

/// The legacy shape of the singleton, kept only so that `migrate` can
/// read it.
pub struct ContractV1 {
    pub token: Ledger,
    pub metadata: Option<Metadata>,
}

impl View for ContractV1 {
    type V = ContractV1View;

    open spec fn view(&self) -> ContractV1View {
        ContractV1View { token: self.token@, metadata: view_opt_metadata(self.metadata) }
    }
}

/// The bytes a current record persists as.
pub open spec fn enc_contract(c: ContractView) -> Seq<u8> {
    enc_contract_parts(c.token, c.metadata, c.owner_id)
}

/// The bytes a legacy record persists as.
pub open spec fn enc_contract_v1(c: ContractV1View) -> Seq<u8> {
    enc_v1(c.token, c.metadata)
}

/// What stored bytes decode to under the current shape.
pub open spec fn dec_contract(s: Seq<u8>) -> Option<ContractView> {
    match dec_contract_parts(s) {
        Some((t, m, o)) => Some(ContractView { token: t, metadata: m, owner_id: o }),
        None => None,
    }
}

/// What stored bytes decode to under the legacy shape.
pub open spec fn dec_contract_v1(s: Seq<u8>) -> Option<ContractV1View> {
    match dec_v1_parts(s) {
        Some((t, m)) => Some(ContractV1View { token: t, metadata: m }),
        None => None,
    }
}

impl Contract {
    pub open spec fn wf(self) -> bool {
        self@.wf()
    }

    /// A fresh contract: empty ledger, the compiled-in metadata, and
    /// the given owner.
    pub fn new(owner_id: AccountId) -> (r: Contract)
        requires
            owner_id.wf(),
        ensures
            r.wf(),
            r@.token.total_supply == 0,
            r@.token.accounts.len() == 0,
            forall|a: Seq<u8>| !r@.token.has_account(a),
            r@.metadata == Some(spec_default_metadata()),
            r@.owner_id == owner_id@,
    {
        Contract {
            token: Ledger::new(),
            metadata: Some(Metadata::default_metadata()),
            owner_id,
        }
    }

    /// Reads persisted bytes under the legacy shape and re-emits them
    /// as a current record with the supplied owner. Refuses bytes that
    /// do not decode as a legacy record.
    pub fn migrate(state: &Vec<u8>, owner_id: AccountId) -> (r: Option<Contract>)
        requires
            owner_id.wf(),
        ensures
            r is Some <==> dec_contract_v1(state@) is Some,
            r matches Some(c) ==> ({
                &&& dec_contract_v1(state@) matches Some(v)
                    && c@.token == v.token
                    && c@.metadata == v.metadata
                &&& c@.owner_id == owner_id@
                &&& c.wf()
            }),
    {
        match decode_v1(state) {
            None => None,
            Some((token, metadata)) => Some(Contract { token, metadata, owner_id }),
        }
    }

    /// Overwrites the stored metadata with the compiled-in constants,
    /// whatever it held before; ledger and owner are untouched. There
    /// is no access control here: any caller may reset the record.
    pub fn update_metadata(&mut self)
        ensures
            final(self)@.metadata == Some(spec_default_metadata()),
            final(self)@.token == old(self)@.token,
            final(self)@.owner_id == old(self)@.owner_id,
            old(self).wf() ==> final(self).wf(),
    {
        self.metadata = Some(Metadata::default_metadata());
    }

    /// Credits `amount` to the signer's balance, provided the caller
    /// (the predecessor) is the configured owner; any refusal leaves
    /// the contract unchanged. Note the asymmetry: the predecessor is
    /// checked, the signer is credited, and the two differ under
    /// delegated calls.
    pub fn ft_mint(&mut self, predecessor: &AccountId, signer: &AccountId, amount: u128)
        -> (r: Result<(), MintError>)
        requires
            old(self).wf(),
        ensures
            final(self).wf(),
            r is Err ==> final(self)@ == old(self)@,
            predecessor@ != old(self)@.owner_id
                ==> r == Result::<(), MintError>::Err(MintError::NotOwner),
            predecessor@ == old(self)@.owner_id && !old(self)@.token.has_account(signer@)
                ==> r == Result::<(), MintError>::Err(MintError::Ledger(LedgerError::NotRegistered)),
            predecessor@ == old(self)@.owner_id && old(self)@.token.has_account(signer@)
                && old(self)@.token.balance_of(signer@) + amount > u128::MAX
                ==> r == Result::<(), MintError>::Err(MintError::Ledger(LedgerError::BalanceOverflow)),
            predecessor@ == old(self)@.owner_id && old(self)@.token.has_account(signer@)
                && old(self)@.token.balance_of(signer@) + amount <= u128::MAX
                && old(self)@.token.total_supply + amount > u128::MAX
                ==> r == Result::<(), MintError>::Err(MintError::Ledger(LedgerError::SupplyOverflow)),
            predecessor@ == old(self)@.owner_id && old(self)@.token.has_account(signer@)
                && old(self)@.token.balance_of(signer@) + amount <= u128::MAX
                && old(self)@.token.total_supply + amount <= u128::MAX ==> ({
                &&& r is Ok
                &&& final(self)@.token.total_supply == old(self)@.token.total_supply + amount
                &&& final(self)@.token.balance_of(signer@)
                    == old(self)@.token.balance_of(signer@) + amount
                &&& forall|b: Seq<u8>| b != signer@
                        ==> #[trigger] final(self)@.token.balance_of(b)
                            == old(self)@.token.balance_of(b)
                &&& forall|b: Seq<u8>|
                        final(self)@.token.has_account(b) == old(self)@.token.has_account(b)
                &&& final(self)@.metadata == old(self)@.metadata
                &&& final(self)@.owner_id == old(self)@.owner_id
            }),
    {
        if !self.owner_id.is_same(predecessor) {
            return Err(MintError::NotOwner);
        }
        let ghost pre = self@;
        match self.token.deposit(&signer.bytes, amount) {
            Ok(()) => Ok(()),
            Err(e) => {
                proof {
                    assert(self@ =~= pre);
                }
                Err(MintError::Ledger(e))
            },
        }
    }

    /// A copy of the stored metadata record.
    pub fn ft_metadata(&self) -> (r: Metadata)
        requires
            self@.metadata is Some,
        ensures
            Some(r@) == self@.metadata,
    {
        match &self.metadata {
            Some(m) => m.duplicate(),
            None => vstd::pervasive::unreached(),
        }
    }

    /// The current record as its persisted bytes.
    pub fn serialize(&self) -> (r: Vec<u8>)
        requires
            self.wf(),
        ensures
            r@ == enc_contract(self@),
    {
        encode_contract_parts(&self.token, &self.metadata, &self.owner_id)
    }

    /// Reads persisted bytes under the current shape.
    pub fn deserialize(bytes: &Vec<u8>) -> (r: Option<Contract>)
        ensures
            r is Some <==> dec_contract(bytes@) is Some,
            r matches Some(c) ==> dec_contract(bytes@) == Some(c@) && c.wf(),
    {
        match decode_contract_parts(bytes) {
            None => None,
            Some((token, metadata, owner_id)) => Some(Contract { token, metadata, owner_id }),
        }
    }
}

impl ContractV1 {
    pub open spec fn wf(self) -> bool {
        self@.wf()
    }

    /// The legacy record as its persisted bytes.
    pub fn serialize(&self) -> (r: Vec<u8>)
        requires
            self.wf(),
        ensures
            r@ == enc_contract_v1(self@),
    {
        encode_v1(&self.token, &self.metadata)
    }

    /// Reads persisted bytes under the legacy shape.
    pub fn deserialize(bytes: &Vec<u8>) -> (r: Option<ContractV1>)
        ensures
            r is Some <==> dec_contract_v1(bytes@) is Some,
            r matches Some(c) ==> dec_contract_v1(bytes@) == Some(c@) && c.wf(),
    {
        match decode_v1(bytes) {
            None => None,
            Some((token, metadata)) => Some(ContractV1 { token, metadata }),
        }
    }
}

/// Encoding then decoding a well-formed record restores it exactly:
/// the ledger, the metadata and the owner all survive the round trip.
pub proof fn lemma_contract_roundtrip(c: ContractView)
    requires
        c.wf(),
    ensures
        dec_contract(enc_contract(c)) == Some(c),
{
    lemma_pow256_widths();
    lemma_sp_contract(c.token, c.metadata, c.owner_id, Seq::empty());
    assert(enc_contract_parts(c.token, c.metadata, c.owner_id) + Seq::<u8>::empty()
        =~= enc_contract_parts(c.token, c.metadata, c.owner_id));
    assert(ContractView { token: c.token, metadata: c.metadata, owner_id: c.owner_id } =~= c);
}

/// Migration is one-shot: the bytes of a current record never decode
/// under the legacy shape, because the trailing owner field is left
/// over, so running the migration on an already migrated record is
/// refused.
pub proof fn lemma_migrate_one_shot(c: ContractView)
    requires
        c.wf(),
    ensures
        dec_contract_v1(enc_contract(c)) is None,
{
    lemma_pow256_widths();
    lemma_sp_v1(c.token, c.metadata, enc_bytes(c.owner_id));
    lemma_enc_le_len(c.owner_id.len() as int, 4);
    assert(enc_bytes(c.owner_id).len() >= 4);
}

} // verus!

verus! {

/// The decimal digits of `v`, most significant first.
pub open spec fn spec_decimal(v: nat) -> Seq<u8>
    decreases v,
{
    if v < 10 {
        seq![(48 + v) as u8]
    } else {
        spec_decimal(v / 10).push((48 + v % 10) as u8)
    }
}

/// Renders a balance as decimal digits.
pub fn u128_to_decimal(v: u128) -> (r: Vec<u8>)
    ensures
        r@ == spec_decimal(v as nat),
    decreases v,
{
    if v < 10 {
        let mut r: Vec<u8> = Vec::new();
        r.push(48 + v as u8);
        proof {
            assert(r@ =~= spec_decimal(v as nat));
        }
        r
    } else {
        let mut r = u128_to_decimal(v / 10);
        r.push(48 + (v % 10) as u8);
        proof {
            assert(r@ =~= spec_decimal(v as nat));
        }
        r
    }
}

/// The text around a close notice: `Closed @{account} with {balance}`.
pub open spec fn spec_closed_prefix() -> Seq<u8> {
    seq![67u8, 108, 111, 115, 101, 100, 32, 64]
}

pub open spec fn spec_with_infix() -> Seq<u8> {
    seq![32u8, 119, 105, 116, 104, 32]
}

/// The text around a burn notice: `Account @{account} burned {amount}`.
pub open spec fn spec_burned_prefix() -> Seq<u8> {
    seq![65u8, 99, 99, 111, 117, 110, 116, 32, 64]
}

pub open spec fn spec_burned_infix() -> Seq<u8> {
    seq![32u8, 98, 117, 114, 110, 101, 100, 32]
}

/// The close notice for an account and its burned balance.
pub open spec fn spec_closed_log(a: Seq<u8>, balance: u128) -> Seq<u8> {
    spec_closed_prefix() + a + spec_with_infix() + spec_decimal(balance as nat)
}

/// The burn notice for an account and the burned amount.
pub open spec fn spec_burned_log(a: Seq<u8>, amount: u128) -> Seq<u8> {
    spec_burned_prefix() + a + spec_burned_infix() + spec_decimal(amount as nat)
}

fn const_closed_prefix() -> (r: Vec<u8>)
    ensures
        r@ == spec_closed_prefix(),
{
    let v: Vec<u8> = vec![67u8, 108, 111, 115, 101, 100, 32, 64];
    proof {
        assert(v@ =~= spec_closed_prefix());
    }
    v
}

fn const_with_infix() -> (r: Vec<u8>)
    ensures
        r@ == spec_with_infix(),
{
    let v: Vec<u8> = vec![32u8, 119, 105, 116, 104, 32];
    proof {
        assert(v@ =~= spec_with_infix());
    }
    v
}

fn const_burned_prefix() -> (r: Vec<u8>)
    ensures
        r@ == spec_burned_prefix(),
{
    let v: Vec<u8> = vec![65u8, 99, 99, 111, 117, 110, 116, 32, 64];
    proof {
        assert(v@ =~= spec_burned_prefix());
    }
    v
}

fn const_burned_infix() -> (r: Vec<u8>)
    ensures
        r@ == spec_burned_infix(),
{
    let v: Vec<u8> = vec![32u8, 98, 117, 114, 110, 101, 100, 32];
    proof {
        assert(v@ =~= spec_burned_infix());
    }
    v
}

impl Contract {
    /// Hook run when the ledger closes an account: no state change,
    /// only the log line to emit.
    pub fn on_account_closed(&mut self, account_id: &AccountId, balance: u128) -> (r: Vec<u8>)
        ensures
            final(self)@ == old(self)@,
            r@ == spec_closed_log(account_id@, balance),
    {
        let mut out = const_closed_prefix();
        let mut a = copy_bytes(&account_id.bytes);
        out.append(&mut a);
        let mut w = const_with_infix();
        out.append(&mut w);
        let mut d = u128_to_decimal(balance);
        out.append(&mut d);
        proof {
            assert(out@ =~= spec_closed_log(account_id@, balance));
        }
        out
    }

    /// Hook run when the ledger burns tokens: no state change, only
    /// the log line to emit.
    pub fn on_tokens_burned(&mut self, account_id: &AccountId, amount: u128) -> (r: Vec<u8>)
        ensures
            final(self)@ == old(self)@,
            r@ == spec_burned_log(account_id@, amount),
    {
        let mut out = const_burned_prefix();
        let mut a = copy_bytes(&account_id.bytes);
        out.append(&mut a);
        let mut w = const_burned_infix();
        out.append(&mut w);
        let mut d = u128_to_decimal(amount);
        out.append(&mut d);
        proof {
            assert(out@ =~= spec_burned_log(account_id@, amount));
        }
        out
    }

    /// Delegated query: the ledger's total supply.
    pub fn ft_total_supply(&self) -> (r: u128)
        ensures
            r == self@.token.total_supply,
    {
        self.token.ft_total_supply()
    }

    /// Delegated query: an account's balance, zero when unregistered.
    pub fn ft_balance_of(&self, account: &AccountId) -> (r: u128)
        requires
            self.wf(),
        ensures
            r == self@.token.balance_of(account@),
    {
        self.token.ft_balance_of(&account.bytes)
    }

    /// Delegated call: registers an account with balance zero, as a
    /// storage deposit does.
    pub fn storage_deposit(&mut self, account: &AccountId) -> (r: Result<(), LedgerError>)
        requires
            old(self).wf(),
            account.wf(),
            old(self)@.token.accounts.len() + 1 < crate::metadata::LEN_LIMIT,
        ensures
            final(self).wf(),
            final(self)@.metadata == old(self)@.metadata,
            final(self)@.owner_id == old(self)@.owner_id,
            old(self)@.token.has_account(account@) ==> ({
                &&& r == Result::<(), LedgerError>::Err(LedgerError::AlreadyRegistered)
                &&& final(self)@ == old(self)@
            }),
            !old(self)@.token.has_account(account@) ==> ({
                &&& r is Ok
                &&& final(self)@.token.total_supply == old(self)@.token.total_supply
                &&& final(self)@.token.has_account(account@)
                &&& final(self)@.token.balance_of(account@) == 0
                &&& forall|b: Seq<u8>| b != account@
                        ==> #[trigger] final(self)@.token.balance_of(b)
                            == old(self)@.token.balance_of(b)
                            && final(self)@.token.has_account(b)
                                == old(self)@.token.has_account(b)
            }),
    {
        let ghost pre = self@;
        let r = self.token.register_account(account);
        proof {
            if pre.token.has_account(account@) {
                assert(self@ =~= pre);
            }
        }
        r
    }

    /// Delegated call: moves tokens between two registered accounts;
    /// the total supply is unchanged and every refusal leaves the
    /// contract as it was.
    pub fn ft_transfer(&mut self, sender: &AccountId, receiver: &AccountId, amount: u128)
        -> (r: Result<(), LedgerError>)
        requires
            old(self).wf(),
        ensures
            final(self).wf(),
            final(self)@.metadata == old(self)@.metadata,
            final(self)@.owner_id == old(self)@.owner_id,
            r is Err ==> final(self)@ == old(self)@,
            sender@ == receiver@
                ==> r == Result::<(), LedgerError>::Err(LedgerError::SameAccount),
            sender@ != receiver@ && amount == 0
                ==> r == Result::<(), LedgerError>::Err(LedgerError::ZeroAmount),
            sender@ != receiver@ && amount > 0 && old(self)@.token.balance_of(sender@) >= amount
                && old(self)@.token.has_account(sender@)
                && old(self)@.token.has_account(receiver@)
                && old(self)@.token.balance_of(receiver@) + amount <= u128::MAX ==> ({
                &&& r is Ok
                &&& final(self)@.token.total_supply == old(self)@.token.total_supply
                &&& final(self)@.token.balance_of(sender@)
                    == old(self)@.token.balance_of(sender@) - amount
                &&& final(self)@.token.balance_of(receiver@)
                    == old(self)@.token.balance_of(receiver@) + amount
                &&& forall|b: Seq<u8>| b != sender@ && b != receiver@
                        ==> #[trigger] final(self)@.token.balance_of(b)
                            == old(self)@.token.balance_of(b)
                &&& forall|b: Seq<u8>|
                        final(self)@.token.has_account(b)
                            == old(self)@.token.has_account(b)
            }),
    {
        let ghost pre = self@;
        let r = self.token.transfer(&sender.bytes, &receiver.bytes, amount);
        proof {
            if r is Err {
                assert(self@ =~= pre);
            }
        }
        r
    }

    /// Delegated call: removes an account, burning its balance out of
    /// the total supply, and reports the burned balance together with
    /// the close notice from the hook.
    pub fn storage_unregister(&mut self, account: &AccountId)
        -> (r: Result<(u128, Vec<u8>), LedgerError>)
        requires
            old(self).wf(),
        ensures
            final(self).wf(),
            final(self)@.metadata == old(self)@.metadata,
            final(self)@.owner_id == old(self)@.owner_id,
            r is Err ==> final(self)@ == old(self)@,
            !old(self)@.token.has_account(account@)
                ==> r == Result::<(u128, Vec<u8>), LedgerError>::Err(LedgerError::NotRegistered),
            old(self)@.token.has_account(account@)
                && old(self)@.token.total_supply >= old(self)@.token.balance_of(account@)
                ==> r is Ok,
            old(self)@.token.has_account(account@)
                && old(self)@.token.total_supply >= old(self)@.token.balance_of(account@)
                ==> ({
                    let p = r->Ok_0;
                    p.0 == old(self)@.token.balance_of(account@)
                        && p.1@ == spec_closed_log(account@, p.0)
                }),
            old(self)@.token.has_account(account@)
                && old(self)@.token.total_supply >= old(self)@.token.balance_of(account@)
                ==> !final(self)@.token.has_account(account@),
            old(self)@.token.has_account(account@)
                && old(self)@.token.total_supply >= old(self)@.token.balance_of(account@)
                ==> final(self)@.token.total_supply
                    == old(self)@.token.total_supply - old(self)@.token.balance_of(account@),
            old(self)@.token.has_account(account@)
                && old(self)@.token.total_supply >= old(self)@.token.balance_of(account@)
                ==> forall|b: Seq<u8>| b != account@
                        ==> #[trigger] final(self)@.token.balance_of(b)
                            == old(self)@.token.balance_of(b),
            old(self)@.token.has_account(account@)
                && old(self)@.token.total_supply >= old(self)@.token.balance_of(account@)
                ==> forall|b: Seq<u8>| b != account@
                        ==> #[trigger] final(self)@.token.has_account(b)
                            == old(self)@.token.has_account(b),
    {
        let ghost pre = self@;
        match self.token.unregister(&account.bytes) {
            Err(e) => {
                proof {
                    assert(self@ =~= pre);
                }
                Err(e)
            },
            Ok(burned) => {
                let ghost mid = self@;
                let line = self.on_account_closed(account, burned);
                proof {
                    assert forall|b: Seq<u8>| b != account@ implies
                        #[trigger] self@.token.balance_of(b) == pre.token.balance_of(b) by {
                        assert(mid.token.balance_of(b) == pre.token.balance_of(b));
                    }
                    assert forall|b: Seq<u8>| b != account@ implies
                        #[trigger] self@.token.has_account(b) == pre.token.has_account(b) by {
                        assert(mid.token.balance_of(b) == pre.token.balance_of(b));
                        assert(mid.token.has_account(b) == pre.token.has_account(b));
                    }
                }
                Ok((burned, line))
            },
        }
    }
}

} // verus!
