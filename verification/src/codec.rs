//! The persisted state layout: a byte format for the contract record,
//! with little-endian integers and length-prefixed byte strings. The
//! format is versioned implicitly by shape: the legacy record lacks the
//! trailing owner field, and decoding demands that every byte be
//! consumed, so a current record never decodes under the legacy shape.

use vstd::prelude::*;

use crate::account::{bytes_eq, valid_account_bytes};

verus! {

/// 256 to the power `n`: the number of values `n` bytes can hold.
pub open spec fn pow256(n: nat) -> int
    decreases n,
{
    if n == 0 {
        1
    } else {
        256 * pow256((n - 1) as nat)
    }
}

pub proof fn lemma_pow256_pos(n: nat)
    ensures
        pow256(n) >= 1,
    decreases n,
{
    if n > 0 {
        lemma_pow256_pos((n - 1) as nat);
    }
}

pub proof fn lemma_pow256_increases(a: nat, b: nat)
    requires
        a <= b,
    ensures
        pow256(a) <= pow256(b),
    decreases b,
{
    if a < b {
        lemma_pow256_increases(a, (b - 1) as nat);
        lemma_pow256_pos((b - 1) as nat);
    }
}

/// The two byte widths the format uses: four-byte lengths and counts,
/// sixteen-byte balances and supplies.
pub proof fn lemma_pow256_widths()
    ensures
        pow256(4) == 0x1_0000_0000,
        pow256(16) == 0x1_0000_0000_0000_0000_0000_0000_0000_0000,
{
    assert(pow256(0) == 1);
    assert(pow256(1) == 256);
    assert(pow256(2) == 0x1_0000);
    assert(pow256(3) == 0x100_0000);
    assert(pow256(4) == 0x1_0000_0000);
    assert(pow256(5) == 0x100_0000_0000);
    assert(pow256(6) == 0x1_0000_0000_0000);
    assert(pow256(7) == 0x100_0000_0000_0000);
    assert(pow256(8) == 0x1_0000_0000_0000_0000);
    assert(pow256(9) == 0x100_0000_0000_0000_0000);
    assert(pow256(10) == 0x1_0000_0000_0000_0000_0000);
    assert(pow256(11) == 0x100_0000_0000_0000_0000_0000);
    assert(pow256(12) == 0x1_0000_0000_0000_0000_0000_0000);
    assert(pow256(13) == 0x100_0000_0000_0000_0000_0000_0000);
    assert(pow256(14) == 0x1_0000_0000_0000_0000_0000_0000_0000);
    assert(pow256(15) == 0x100_0000_0000_0000_0000_0000_0000_0000);
    assert(pow256(16) == 0x1_0000_0000_0000_0000_0000_0000_0000_0000);
}

/// A non-negative integer below `pow256(n)` as `n` bytes, least
/// significant first.
pub open spec fn enc_le(v: int, n: nat) -> Seq<u8>
    decreases n,
{
    if n == 0 {
        Seq::empty()
    } else {
        seq![(v % 256) as u8] + enc_le(v / 256, (n - 1) as nat)
    }
}

/// The integer a byte sequence denotes, least significant byte first.
pub open spec fn dec_le(s: Seq<u8>) -> int
    decreases s.len(),
{
    if s.len() == 0 {
        0
    } else {
        s[0] + 256 * dec_le(s.skip(1))
    }
}

pub proof fn lemma_enc_le_len(v: int, n: nat)
    ensures
        enc_le(v, n).len() == n,
    decreases n,
{
    if n > 0 {
        lemma_enc_le_len(v / 256, (n - 1) as nat);
    }
}

/// Decoding inverts encoding for every value the width can hold.
pub proof fn lemma_dec_enc_le(v: int, n: nat)
    requires
        0 <= v < pow256(n),
    ensures
        dec_le(enc_le(v, n)) == v,
    decreases n,
{
    if n > 0 {
        let e = enc_le(v, n);
        lemma_enc_le_len(v / 256, (n - 1) as nat);
        assert(e.skip(1) =~= enc_le(v / 256, (n - 1) as nat));
        assert(0 <= v / 256 < pow256((n - 1) as nat)) by {
            assert(v < 256 * pow256((n - 1) as nat));
        }
        lemma_dec_enc_le(v / 256, (n - 1) as nat);
    }
}

/// Every decoded value is below what the width can hold.
pub proof fn lemma_dec_le_bound(s: Seq<u8>)
    ensures
        0 <= dec_le(s) < pow256(s.len() as nat),
    decreases s.len(),
{
    if s.len() > 0 {
        lemma_dec_le_bound(s.skip(1));
    }
}

/// The fixed-width spec parser: `n` bytes from the front, and the rest.
pub open spec fn sp_le(s: Seq<u8>, n: nat) -> Option<(int, Seq<u8>)> {
    if s.len() >= n {
        Some((dec_le(s.take(n as int)), s.skip(n as int)))
    } else {
        None
    }
}

/// Parsing what `enc_le` wrote yields the value and the untouched rest.
pub proof fn lemma_sp_le(v: int, n: nat, rest: Seq<u8>)
    requires
        0 <= v < pow256(n),
    ensures
        sp_le(enc_le(v, n) + rest, n) == Some((v, rest)),
{
    lemma_enc_le_len(v, n);
    let s = enc_le(v, n) + rest;
    assert(s.take(n as int) =~= enc_le(v, n));
    assert(s.skip(n as int) =~= rest);
    lemma_dec_enc_le(v, n);
}

/// A byte string: its length in four bytes, then its bytes.
pub open spec fn enc_bytes(b: Seq<u8>) -> Seq<u8> {
    enc_le(b.len() as int, 4) + b
}

pub open spec fn sp_bytes(s: Seq<u8>) -> Option<(Seq<u8>, Seq<u8>)> {
    match sp_le(s, 4) {
        Some((len, r)) => {
            if r.len() >= len {
                Some((r.take(len), r.skip(len)))
            } else {
                None
            }
        },
        None => None,
    }
}

pub proof fn lemma_sp_bytes(b: Seq<u8>, rest: Seq<u8>)
    requires
        b.len() < pow256(4),
    ensures
        sp_bytes(enc_bytes(b) + rest) == Some((b, rest)),
{
    let s = enc_bytes(b) + rest;
    assert(s =~= enc_le(b.len() as int, 4) + (b + rest));
    lemma_sp_le(b.len() as int, 4, b + rest);
    assert((b + rest).take(b.len() as int) =~= b);
    assert((b + rest).skip(b.len() as int) =~= rest);
}

/// An optional byte string: a tag byte, then the string when present.
pub open spec fn enc_opt_bytes(o: Option<Seq<u8>>) -> Seq<u8> {
    match o {
        None => seq![0u8],
        Some(b) => seq![1u8] + enc_bytes(b),
    }
}

pub open spec fn sp_opt_bytes(s: Seq<u8>) -> Option<(Option<Seq<u8>>, Seq<u8>)> {
    if s.len() < 1 {
        None
    } else if s[0] == 0u8 {
        Some((None, s.skip(1)))
    } else if s[0] == 1u8 {
        match sp_bytes(s.skip(1)) {
            Some((b, r)) => Some((Some(b), r)),
            None => None,
        }
    } else {
        None
    }
}

pub proof fn lemma_sp_opt_bytes(o: Option<Seq<u8>>, rest: Seq<u8>)
    requires
        o matches Some(b) ==> b.len() < pow256(4),
    ensures
        sp_opt_bytes(enc_opt_bytes(o) + rest) == Some((o, rest)),
{
    let s = enc_opt_bytes(o) + rest;
    match o {
        None => {
            assert(s[0] == 0u8);
            assert(s.skip(1) =~= rest);
        },
        Some(b) => {
            assert(s[0] == 1u8);
            assert(s.skip(1) =~= enc_bytes(b) + rest);
            lemma_sp_bytes(b, rest);
        },
    }
}

} // verus!

verus! {

use crate::metadata::MetadataView;
use crate::ledger::LedgerView;

/// A single byte, as itself.
pub open spec fn sp_u8(s: Seq<u8>) -> Option<(u8, Seq<u8>)> {
    if s.len() >= 1 {
        Some((s[0], s.skip(1)))
    } else {
        None
    }
}

/// A metadata record: its six text fields, then the decimal count.
pub open spec fn enc_metadata(m: MetadataView) -> Seq<u8> {
    enc_bytes(m.spec_text) + enc_bytes(m.name) + enc_bytes(m.symbol) + enc_opt_bytes(m.icon)
        + enc_opt_bytes(m.reference) + enc_opt_bytes(m.reference_hash) + seq![m.decimals]
}

pub open spec fn sp_metadata(s: Seq<u8>) -> Option<(MetadataView, Seq<u8>)> {
    match sp_bytes(s) {
        Some((spec_text, s1)) => match sp_bytes(s1) {
            Some((name, s2)) => match sp_bytes(s2) {
                Some((symbol, s3)) => match sp_opt_bytes(s3) {
                    Some((icon, s4)) => match sp_opt_bytes(s4) {
                        Some((reference, s5)) => match sp_opt_bytes(s5) {
                            Some((reference_hash, s6)) => match sp_u8(s6) {
                                Some((decimals, s7)) => Some((
                                    MetadataView {
                                        spec_text,
                                        name,
                                        symbol,
                                        icon,
                                        reference,
                                        reference_hash,
                                        decimals,
                                    },
                                    s7,
                                )),
                                None => None,
                            },
                            None => None,
                        },
                        None => None,
                    },
                    None => None,
                },
                None => None,
            },
            None => None,
        },
        None => None,
    }
}

pub proof fn lemma_sp_metadata(m: MetadataView, rest: Seq<u8>)
    requires
        m.wf(),
    ensures
        sp_metadata(enc_metadata(m) + rest) == Some((m, rest)),
{
    lemma_pow256_widths();
    let t7 = seq![m.decimals] + rest;
    let t6 = enc_opt_bytes(m.reference_hash) + t7;
    let t5 = enc_opt_bytes(m.reference) + t6;
    let t4 = enc_opt_bytes(m.icon) + t5;
    let t3 = enc_bytes(m.symbol) + t4;
    let t2 = enc_bytes(m.name) + t3;
    let t1 = enc_bytes(m.spec_text) + t2;
    assert(enc_metadata(m) + rest =~= t1);
    lemma_sp_bytes(m.spec_text, t2);
    lemma_sp_bytes(m.name, t3);
    lemma_sp_bytes(m.symbol, t4);
    lemma_sp_opt_bytes(m.icon, t5);
    lemma_sp_opt_bytes(m.reference, t6);
    lemma_sp_opt_bytes(m.reference_hash, t7);
    assert(t7[0] == m.decimals);
    assert(t7.skip(1) =~= rest);
}

/// An optional metadata record: a tag byte, then the record if present.
pub open spec fn enc_opt_metadata(o: Option<MetadataView>) -> Seq<u8> {
    match o {
        None => seq![0u8],
        Some(m) => seq![1u8] + enc_metadata(m),
    }
}

pub open spec fn sp_opt_metadata(s: Seq<u8>) -> Option<(Option<MetadataView>, Seq<u8>)> {
    if s.len() < 1 {
        None
    } else if s[0] == 0u8 {
        Some((None, s.skip(1)))
    } else if s[0] == 1u8 {
        match sp_metadata(s.skip(1)) {
            Some((m, r)) => Some((Some(m), r)),
            None => None,
        }
    } else {
        None
    }
}

pub proof fn lemma_sp_opt_metadata(o: Option<MetadataView>, rest: Seq<u8>)
    requires
        o matches Some(m) ==> m.wf(),
    ensures
        sp_opt_metadata(enc_opt_metadata(o) + rest) == Some((o, rest)),
{
    let s = enc_opt_metadata(o) + rest;
    match o {
        None => {
            assert(s[0] == 0u8);
            assert(s.skip(1) =~= rest);
        },
        Some(m) => {
            assert(s[0] == 1u8);
            assert(s.skip(1) =~= enc_metadata(m) + rest);
            lemma_sp_metadata(m, rest);
        },
    }
}

/// A ledger entry: the account identifier, then its balance.
pub open spec fn enc_entry(e: (Seq<u8>, u128)) -> Seq<u8> {
    enc_bytes(e.0) + enc_le(e.1 as int, 16)
}

pub open spec fn sp_entry(s: Seq<u8>) -> Option<((Seq<u8>, u128), Seq<u8>)> {
    match sp_bytes(s) {
        Some((a, r)) => {
            if valid_account_bytes(a) {
                match sp_le(r, 16) {
                    Some((v, r2)) => Some(((a, v as u128), r2)),
                    None => None,
                }
            } else {
                None
            }
        },
        None => None,
    }
}

pub proof fn lemma_sp_entry(e: (Seq<u8>, u128), rest: Seq<u8>)
    requires
        valid_account_bytes(e.0),
    ensures
        sp_entry(enc_entry(e) + rest) == Some((e, rest)),
{
    lemma_pow256_widths();
    let t = enc_le(e.1 as int, 16) + rest;
    assert(enc_entry(e) + rest =~= enc_bytes(e.0) + t);
    lemma_sp_bytes(e.0, t);
    lemma_sp_le(e.1 as int, 16, rest);
}

/// The ledger entries one after another, in their stored order.
pub open spec fn enc_entries(s: Seq<(Seq<u8>, u128)>) -> Seq<u8>
    decreases s.len(),
{
    if s.len() == 0 {
        Seq::empty()
    } else {
        enc_entry(s[0]) + enc_entries(s.skip(1))
    }
}

pub open spec fn sp_entries(s: Seq<u8>, n: nat) -> Option<(Seq<(Seq<u8>, u128)>, Seq<u8>)>
    decreases n,
{
    if n == 0 {
        Some((Seq::empty(), s))
    } else {
        match sp_entry(s) {
            Some((e, r)) => match sp_entries(r, (n - 1) as nat) {
                Some((es, r2)) => Some((seq![e] + es, r2)),
                None => None,
            },
            None => None,
        }
    }
}

pub proof fn lemma_sp_entries(entries: Seq<(Seq<u8>, u128)>, rest: Seq<u8>)
    requires
        forall|i: int| 0 <= i < entries.len() ==> valid_account_bytes(#[trigger] entries[i].0),
    ensures
        sp_entries(enc_entries(entries) + rest, entries.len() as nat) == Some((entries, rest)),
    decreases entries.len(),
{
    if entries.len() == 0 {
        assert(enc_entries(entries) + rest =~= rest);
    } else {
        let tail = entries.skip(1);
        let t = enc_entries(tail) + rest;
        assert(enc_entries(entries) + rest =~= enc_entry(entries[0]) + t);
        lemma_sp_entry(entries[0], t);
        lemma_sp_entries(tail, rest);
        assert(seq![entries[0]] + tail =~= entries);
    }
}

/// Appending one entry extends the encoding at its end.
pub proof fn lemma_enc_entries_snoc(s: Seq<(Seq<u8>, u128)>, e: (Seq<u8>, u128))
    ensures
        enc_entries(s.push(e)) == enc_entries(s) + enc_entry(e),
    decreases s.len(),
{
    if s.len() == 0 {
        let p = s.push(e);
        assert(p[0] == e);
        assert(p.skip(1).len() == 0);
        assert(enc_entries(p.skip(1)) == Seq::<u8>::empty());
        assert(enc_entries(p) == enc_entry(e) + Seq::<u8>::empty());
        assert(enc_entries(s) == Seq::<u8>::empty());
        assert(enc_entry(e) + Seq::<u8>::empty() =~= Seq::<u8>::empty() + enc_entry(e));
    } else {
        assert(s.push(e)[0] == s[0]);
        assert(s.push(e).skip(1) =~= s.skip(1).push(e));
        lemma_enc_entries_snoc(s.skip(1), e);
        assert(enc_entries(s.push(e))
            == enc_entry(s[0]) + (enc_entries(s.skip(1)) + enc_entry(e)));
        assert(enc_entry(s[0]) + (enc_entries(s.skip(1)) + enc_entry(e))
            =~= (enc_entry(s[0]) + enc_entries(s.skip(1))) + enc_entry(e));
    }
}

/// A ledger: the entry count, the entries, then the total supply.
pub open spec fn enc_ledger(l: LedgerView) -> Seq<u8> {
    enc_le(l.accounts.len() as int, 4) + enc_entries(l.accounts)
        + enc_le(l.total_supply as int, 16)
}

pub open spec fn sp_ledger(s: Seq<u8>) -> Option<(LedgerView, Seq<u8>)> {
    match sp_le(s, 4) {
        Some((n, r)) => match sp_entries(r, n as nat) {
            Some((entries, r2)) => match sp_le(r2, 16) {
                Some((t, r3)) => Some((
                    LedgerView { accounts: entries, total_supply: t as u128 },
                    r3,
                )),
                None => None,
            },
            None => None,
        },
        None => None,
    }
}

pub proof fn lemma_sp_ledger(l: LedgerView, rest: Seq<u8>)
    requires
        l.accounts.len() < pow256(4),
        forall|i: int| 0 <= i < l.accounts.len() ==> valid_account_bytes(#[trigger] l.accounts[i].0),
    ensures
        sp_ledger(enc_ledger(l) + rest) == Some((l, rest)),
{
    lemma_pow256_widths();
    let t2 = enc_le(l.total_supply as int, 16) + rest;
    let t1 = enc_entries(l.accounts) + t2;
    assert(enc_ledger(l) + rest =~= enc_le(l.accounts.len() as int, 4) + t1);
    lemma_sp_le(l.accounts.len() as int, 4, t1);
    lemma_sp_entries(l.accounts, t2);
    lemma_sp_le(l.total_supply as int, 16, rest);
}

/// The legacy record shape: a ledger, then optional metadata.
pub open spec fn enc_v1(token: LedgerView, metadata: Option<MetadataView>) -> Seq<u8> {
    enc_ledger(token) + enc_opt_metadata(metadata)
}

pub open spec fn sp_v1(s: Seq<u8>) -> Option<((LedgerView, Option<MetadataView>), Seq<u8>)> {
    match sp_ledger(s) {
        Some((token, r)) => match sp_opt_metadata(r) {
            Some((metadata, r2)) => Some(((token, metadata), r2)),
            None => None,
        },
        None => None,
    }
}

pub proof fn lemma_sp_v1(token: LedgerView, metadata: Option<MetadataView>, rest: Seq<u8>)
    requires
        token.accounts.len() < pow256(4),
        forall|i: int| 0 <= i < token.accounts.len()
            ==> valid_account_bytes(#[trigger] token.accounts[i].0),
        metadata matches Some(m) ==> m.wf(),
    ensures
        sp_v1(enc_v1(token, metadata) + rest) == Some(((token, metadata), rest)),
{
    let t = enc_opt_metadata(metadata) + rest;
    assert(enc_v1(token, metadata) + rest =~= enc_ledger(token) + t);
    lemma_sp_ledger(token, t);
    lemma_sp_opt_metadata(metadata, rest);
}

/// The current record shape: the legacy fields, then the owner.
pub open spec fn enc_contract_parts(
    token: LedgerView,
    metadata: Option<MetadataView>,
    owner: Seq<u8>,
) -> Seq<u8> {
    enc_v1(token, metadata) + enc_bytes(owner)
}

pub open spec fn sp_contract(s: Seq<u8>) -> Option<
    ((LedgerView, Option<MetadataView>, Seq<u8>), Seq<u8>),
> {
    match sp_v1(s) {
        Some(((token, metadata), r)) => match sp_bytes(r) {
            Some((owner, r2)) => {
                if valid_account_bytes(owner) {
                    Some(((token, metadata, owner), r2))
                } else {
                    None
                }
            },
            None => None,
        },
        None => None,
    }
}

pub proof fn lemma_sp_contract(
    token: LedgerView,
    metadata: Option<MetadataView>,
    owner: Seq<u8>,
    rest: Seq<u8>,
)
    requires
        token.accounts.len() < pow256(4),
        forall|i: int| 0 <= i < token.accounts.len()
            ==> valid_account_bytes(#[trigger] token.accounts[i].0),
        metadata matches Some(m) ==> m.wf(),
        valid_account_bytes(owner),
    ensures
        sp_contract(enc_contract_parts(token, metadata, owner) + rest)
            == Some(((token, metadata, owner), rest)),
{
    lemma_pow256_widths();
    let t = enc_bytes(owner) + rest;
    assert(enc_contract_parts(token, metadata, owner) + rest =~= enc_v1(token, metadata) + t);
    lemma_sp_v1(token, metadata, t);
    lemma_sp_bytes(owner, rest);
}

} // verus!

verus! {

use crate::account::AccountId;
use crate::ledger::Ledger;
use crate::metadata::{Metadata, view_opt_bytes, view_opt_metadata, LEN_LIMIT};

/// Appends `v` as `n` little-endian bytes.
fn ser_le(out: &mut Vec<u8>, v: u128, n: usize)
    requires
        n <= 16,
        v < pow256(n as nat),
    ensures
        final(out)@ == old(out)@ + enc_le(v as int, n as nat),
{
    let ghost base = out@;
    let mut cur = v;
    for i in 0..n
        invariant
            n <= 16,
            cur < pow256((n - i) as nat),
            enc_le(v as int, n as nat)
                =~= out@.skip(base.len() as int) + enc_le(cur as int, (n - i) as nat),
            out@.len() == base.len() + i,
            out@.take(base.len() as int) =~= base,
    {
        proof {
            lemma_pow256_widths();
            lemma_pow256_increases((n - i) as nat, 16);
        }
        let b = (cur % 256) as u8;
        out.push(b);
        cur = cur / 256;
        proof {
            assert(enc_le(v as int, n as nat)
                =~= out@.skip(base.len() as int) + enc_le(cur as int, (n - i - 1) as nat));
        }
    }
    proof {
        assert(out@ =~= base + enc_le(v as int, n as nat));
    }
}

/// Appends a byte string: its length in four bytes, then its bytes.
fn ser_bytes(out: &mut Vec<u8>, b: &Vec<u8>)
    requires
        b@.len() < LEN_LIMIT,
    ensures
        final(out)@ == old(out)@ + enc_bytes(b@),
{
    let ghost base = out@;
    proof {
        lemma_pow256_widths();
    }
    ser_le(out, b.len() as u128, 4);
    let n = b.len();
    for i in 0..n
        invariant
            n == b.len(),
            out@ =~= base + enc_le(b@.len() as int, 4) + b@.take(i as int),
    {
        out.push(b[i]);
    }
    proof {
        assert(out@ =~= base + enc_bytes(b@));
    }
}

/// Appends an optional byte string behind its tag byte.
fn ser_opt_bytes(out: &mut Vec<u8>, o: &Option<Vec<u8>>)
    requires
        o matches Some(b) ==> b@.len() < LEN_LIMIT,
    ensures
        final(out)@ == old(out)@ + enc_opt_bytes(view_opt_bytes(*o)),
{
    let ghost base = out@;
    match o {
        None => {
            out.push(0);
            proof {
                assert(out@ =~= base + enc_opt_bytes(view_opt_bytes(*o)));
            }
        },
        Some(b) => {
            out.push(1);
            ser_bytes(out, b);
            proof {
                assert(out@ =~= base + enc_opt_bytes(view_opt_bytes(*o)));
            }
        },
    }
}

/// Appends a metadata record.
fn ser_metadata(out: &mut Vec<u8>, m: &Metadata)
    requires
        m.wf(),
    ensures
        final(out)@ == old(out)@ + enc_metadata(m@),
{
    let ghost base = out@;
    ser_bytes(out, &m.spec_text);
    ser_bytes(out, &m.name);
    ser_bytes(out, &m.symbol);
    ser_opt_bytes(out, &m.icon);
    ser_opt_bytes(out, &m.reference);
    ser_opt_bytes(out, &m.reference_hash);
    out.push(m.decimals);
    proof {
        assert(out@ =~= base + enc_metadata(m@));
    }
}

/// Appends an optional metadata record behind its tag byte.
fn ser_opt_metadata(out: &mut Vec<u8>, o: &Option<Metadata>)
    requires
        o matches Some(m) ==> m.wf(),
    ensures
        final(out)@ == old(out)@ + enc_opt_metadata(view_opt_metadata(*o)),
{
    let ghost base = out@;
    match o {
        None => {
            out.push(0);
            proof {
                assert(out@ =~= base + enc_opt_metadata(view_opt_metadata(*o)));
            }
        },
        Some(m) => {
            out.push(1);
            ser_metadata(out, m);
            proof {
                assert(out@ =~= base + enc_opt_metadata(view_opt_metadata(*o)));
            }
        },
    }
}

/// Appends a ledger: entry count, entries, total supply.
fn ser_ledger(out: &mut Vec<u8>, l: &Ledger)
    requires
        l.wf(),
    ensures
        final(out)@ == old(out)@ + enc_ledger(l@),
{
    let ghost base = out@;
    proof {
        lemma_pow256_widths();
    }
    ser_le(out, l.accounts.len() as u128, 4);
    let n = l.accounts.len();
    for k in 0..n
        invariant
            n == l.accounts.len(),
            l.wf(),
            out@ =~= base + enc_le(l@.accounts.len() as int, 4)
                + enc_entries(l@.accounts.take(k as int)),
    {
        let ghost before = l@.accounts.take(k as int);
        proof {
            assert(l@.accounts[k as int] == (l.accounts@[k as int].0@, l.accounts@[k as int].1));
            assert(valid_account_bytes(l@.accounts[k as int].0));
        }
        ser_bytes(out, &l.accounts[k].0.bytes);
        proof {
            lemma_pow256_widths();
        }
        ser_le(out, l.accounts[k].1, 16);
        proof {
            lemma_enc_entries_snoc(before, l@.accounts[k as int]);
            assert(l@.accounts.take(k + 1) =~= before.push(l@.accounts[k as int]));
            assert(out@ =~= base + enc_le(l@.accounts.len() as int, 4)
                + enc_entries(l@.accounts.take(k + 1)));
        }
    }
    proof {
        lemma_pow256_widths();
        assert(l@.accounts.take(n as int) =~= l@.accounts);
    }
    ser_le(out, l.total_supply, 16);
    proof {
        assert(out@ =~= base + enc_ledger(l@));
    }
}

/// The legacy record as bytes: ledger, then optional metadata.
pub fn encode_v1(token: &Ledger, metadata: &Option<Metadata>) -> (r: Vec<u8>)
    requires
        token.wf(),
        metadata matches Some(m) ==> m.wf(),
    ensures
        r@ == enc_v1(token@, view_opt_metadata(*metadata)),
{
    let mut out: Vec<u8> = Vec::new();
    ser_ledger(&mut out, token);
    ser_opt_metadata(&mut out, metadata);
    proof {
        assert(out@ =~= enc_v1(token@, view_opt_metadata(*metadata)));
    }
    out
}

/// The current record as bytes: the legacy fields, then the owner.
pub fn encode_contract_parts(token: &Ledger, metadata: &Option<Metadata>, owner: &AccountId)
    -> (r: Vec<u8>)
    requires
        token.wf(),
        metadata matches Some(m) ==> m.wf(),
        owner.wf(),
    ensures
        r@ == enc_contract_parts(token@, view_opt_metadata(*metadata), owner@),
{
    let mut out: Vec<u8> = Vec::new();
    ser_ledger(&mut out, token);
    ser_opt_metadata(&mut out, metadata);
    proof {
        lemma_pow256_widths();
    }
    ser_bytes(&mut out, &owner.bytes);
    proof {
        assert(out@ =~= enc_contract_parts(token@, view_opt_metadata(*metadata), owner@));
    }
    out
}

} // verus!

verus! {

/// The entries of an executable ledger as their mathematical shape.
pub open spec fn entries_view(v: Seq<(AccountId, u128)>) -> Seq<(Seq<u8>, u128)> {
    v.map_values(|e: (AccountId, u128)| (e.0@, e.1))
}

/// Reads `n` little-endian bytes as an integer.
fn parse_le(buf: &Vec<u8>, pos: usize, n: usize) -> (r: Option<(u128, usize)>)
    requires
        n <= 16,
        pos <= buf@.len(),
    ensures
        r is None <==> sp_le(buf@.skip(pos as int), n as nat) is None,
        r matches Some((v, end)) ==> ({
            &&& end == pos + n
            &&& end <= buf@.len()
            &&& sp_le(buf@.skip(pos as int), n as nat) == Some((v as int, buf@.skip(end as int)))
        }),
{
    if buf.len() - pos < n {
        return None;
    }
    let ghost w = buf@.subrange(pos as int, (pos + n) as int);
    let mut acc: u128 = 0;
    let mut i: usize = n;
    while i > 0
        invariant
            i <= n <= 16,
            pos + n <= buf.len(),
            w == buf@.subrange(pos as int, (pos + n) as int),
            acc as int == dec_le(w.subrange(i as int, n as int)),
            acc < pow256((n - i) as nat),
        decreases i,
    {
        i = i - 1;
        let b = buf[pos + i];
        proof {
            lemma_pow256_widths();
            lemma_pow256_increases((n - i) as nat, 16);
            assert(w.subrange(i as int, n as int)[0] == w[i as int]);
            assert(w.subrange(i as int, n as int).skip(1) =~= w.subrange(i + 1, n as int));
            assert(w[i as int] == buf@[(pos + i) as int]);
            assert(pow256((n - i) as nat) == 256 * pow256((n - i - 1) as nat));
        }
        acc = acc * 256 + (b as u128);
    }
    proof {
        assert(w.subrange(0, n as int) =~= w);
        assert(w =~= buf@.skip(pos as int).take(n as int));
        assert(buf@.skip(pos as int).skip(n as int) =~= buf@.skip((pos + n) as int));
    }
    Some((acc, pos + n))
}

/// Reads a length-prefixed byte string.
fn parse_bytes(buf: &Vec<u8>, pos: usize) -> (r: Option<(Vec<u8>, usize)>)
    requires
        pos <= buf@.len(),
    ensures
        r is None <==> sp_bytes(buf@.skip(pos as int)) is None,
        r matches Some((v, end)) ==> ({
            &&& pos <= end <= buf@.len()
            &&& sp_bytes(buf@.skip(pos as int)) == Some((v@, buf@.skip(end as int)))
            &&& v@.len() < LEN_LIMIT
        }),
{
    let (lenu, p4) = match parse_le(buf, pos, 4) {
        None => {
            return None;
        },
        Some(x) => x,
    };
    proof {
        lemma_dec_le_bound(buf@.skip(pos as int).take(4));
        lemma_pow256_widths();
    }
    let rem = buf.len() - p4;
    if lenu > rem as u128 {
        return None;
    }
    let len = lenu as usize;
    let mut v: Vec<u8> = Vec::new();
    for k in 0..len
        invariant
            p4 + len <= buf.len(),
            v@ =~= buf@.subrange(p4 as int, (p4 + k) as int),
    {
        v.push(buf[p4 + k]);
        proof {
            assert(v@ =~= buf@.subrange(p4 as int, (p4 + k + 1) as int));
        }
    }
    let end = p4 + len;
    proof {
        let s1 = buf@.skip(p4 as int);
        assert(s1.take(lenu as int) =~= buf@.subrange(p4 as int, end as int));
        assert(s1.skip(lenu as int) =~= buf@.skip(end as int));
        assert(v@ =~= buf@.subrange(p4 as int, end as int));
    }
    Some((v, end))
}

/// Reads an optional byte string behind its tag byte.
fn parse_opt_bytes(buf: &Vec<u8>, pos: usize) -> (r: Option<(Option<Vec<u8>>, usize)>)
    requires
        pos <= buf@.len(),
    ensures
        r is None <==> sp_opt_bytes(buf@.skip(pos as int)) is None,
        r matches Some((v, end)) ==> ({
            &&& pos <= end <= buf@.len()
            &&& sp_opt_bytes(buf@.skip(pos as int))
                == Some((view_opt_bytes(v), buf@.skip(end as int)))
            &&& (v matches Some(b) ==> b@.len() < LEN_LIMIT)
        }),
{
    if pos >= buf.len() {
        return None;
    }
    let tag = buf[pos];
    proof {
        assert(buf@.skip(pos as int)[0] == buf@[pos as int]);
        assert(buf@.skip(pos as int).skip(1) =~= buf@.skip((pos + 1) as int));
    }
    if tag == 0 {
        Some((None, pos + 1))
    } else if tag == 1 {
        match parse_bytes(buf, pos + 1) {
            None => None,
            Some((b, end)) => Some((Some(b), end)),
        }
    } else {
        None
    }
}

/// Reads a metadata record.
fn parse_metadata(buf: &Vec<u8>, pos: usize) -> (r: Option<(Metadata, usize)>)
    requires
        pos <= buf@.len(),
    ensures
        r is None <==> sp_metadata(buf@.skip(pos as int)) is None,
        r matches Some((m, end)) ==> ({
            &&& pos <= end <= buf@.len()
            &&& sp_metadata(buf@.skip(pos as int)) == Some((m@, buf@.skip(end as int)))
            &&& m.wf()
        }),
{
    let (spec_text, p1) = match parse_bytes(buf, pos) {
        None => {
            return None;
        },
        Some(x) => x,
    };
    let (name, p2) = match parse_bytes(buf, p1) {
        None => {
            return None;
        },
        Some(x) => x,
    };
    let (symbol, p3) = match parse_bytes(buf, p2) {
        None => {
            return None;
        },
        Some(x) => x,
    };
    let (icon, p4) = match parse_opt_bytes(buf, p3) {
        None => {
            return None;
        },
        Some(x) => x,
    };
    let (reference, p5) = match parse_opt_bytes(buf, p4) {
        None => {
            return None;
        },
        Some(x) => x,
    };
    let (reference_hash, p6) = match parse_opt_bytes(buf, p5) {
        None => {
            return None;
        },
        Some(x) => x,
    };
    if p6 >= buf.len() {
        return None;
    }
    let decimals = buf[p6];
    proof {
        assert(buf@.skip(p6 as int)[0] == buf@[p6 as int]);
        assert(buf@.skip(p6 as int).skip(1) =~= buf@.skip((p6 + 1) as int));
    }
    let m = Metadata { spec_text, name, symbol, icon, reference, reference_hash, decimals };
    Some((m, p6 + 1))
}

/// Reads an optional metadata record behind its tag byte.
fn parse_opt_metadata(buf: &Vec<u8>, pos: usize) -> (r: Option<(Option<Metadata>, usize)>)
    requires
        pos <= buf@.len(),
    ensures
        r is None <==> sp_opt_metadata(buf@.skip(pos as int)) is None,
        r matches Some((v, end)) ==> ({
            &&& pos <= end <= buf@.len()
            &&& sp_opt_metadata(buf@.skip(pos as int))
                == Some((view_opt_metadata(v), buf@.skip(end as int)))
            &&& (v matches Some(m) ==> m.wf())
        }),
{
    if pos >= buf.len() {
        return None;
    }
    let tag = buf[pos];
    proof {
        assert(buf@.skip(pos as int)[0] == buf@[pos as int]);
        assert(buf@.skip(pos as int).skip(1) =~= buf@.skip((pos + 1) as int));
    }
    if tag == 0 {
        Some((None, pos + 1))
    } else if tag == 1 {
        match parse_metadata(buf, pos + 1) {
            None => None,
            Some((m, end)) => Some((Some(m), end)),
        }
    } else {
        None
    }
}

/// Reads one ledger entry: an account identifier, then its balance.
fn parse_entry(buf: &Vec<u8>, pos: usize) -> (r: Option<((AccountId, u128), usize)>)
    requires
        pos <= buf@.len(),
    ensures
        r is None <==> sp_entry(buf@.skip(pos as int)) is None,
        r matches Some((e, end)) ==> ({
            &&& pos <= end <= buf@.len()
            &&& sp_entry(buf@.skip(pos as int)) == Some(((e.0@, e.1), buf@.skip(end as int)))
            &&& e.0.wf()
        }),
{
    let (abytes, p1) = match parse_bytes(buf, pos) {
        None => {
            return None;
        },
        Some(x) => x,
    };
    let a = match AccountId::new(abytes) {
        None => {
            return None;
        },
        Some(a) => a,
    };
    let (bal, p2) = match parse_le(buf, p1, 16) {
        None => {
            return None;
        },
        Some(x) => x,
    };
    Some(((a, bal), p2))
}

/// Reads `count` entries one after another.
fn parse_entries(buf: &Vec<u8>, pos: usize, count: usize)
    -> (r: Option<(Vec<(AccountId, u128)>, usize)>)
    requires
        pos <= buf@.len(),
    ensures
        r is None <==> sp_entries(buf@.skip(pos as int), count as nat) is None,
        r matches Some((v, end)) ==> ({
            &&& pos <= end <= buf@.len()
            &&& sp_entries(buf@.skip(pos as int), count as nat)
                == Some((entries_view(v@), buf@.skip(end as int)))
            &&& v@.len() == count
            &&& forall|i: int| 0 <= i < v@.len() ==> (#[trigger] v@[i]).0.wf()
        }),
{
    let mut v: Vec<(AccountId, u128)> = Vec::new();
    let mut cur = pos;
    for k in 0..count
        invariant
            pos <= cur <= buf@.len(),
            v@.len() == k,
            forall|i: int| 0 <= i < v@.len() ==> (#[trigger] v@[i]).0.wf(),
            sp_entries(buf@.skip(pos as int), count as nat)
                == (match sp_entries(buf@.skip(cur as int), (count - k) as nat) {
                    Some((es, r)) => Some((entries_view(v@) + es, r)),
                    None => None::<(Seq<(Seq<u8>, u128)>, Seq<u8>)>,
                }),
    {
        let (e, end2) = match parse_entry(buf, cur) {
            None => {
                return None;
            },
            Some(x) => x,
        };
        let ghost vpre = v@;
        let ghost ev = (e.0@, e.1);
        proof {
            let tail2 = sp_entries(buf@.skip(end2 as int), (count - k - 1) as nat);
            match tail2 {
                Some(p) => {
                    let es2 = p.0;
                    assert((entries_view(vpre) + seq![ev]) + es2
                        =~= entries_view(vpre) + (seq![ev] + es2));
                },
                None => {},
            }
            assert(entries_view(vpre.push(e)) =~= entries_view(vpre) + seq![ev]);
        }
        v.push(e);
        cur = end2;
    }
    proof {
        assert(entries_view(v@) + Seq::<(Seq<u8>, u128)>::empty() =~= entries_view(v@));
    }
    Some((v, cur))
}

/// Reads a ledger: entry count, entries, total supply.
fn parse_ledger(buf: &Vec<u8>, pos: usize) -> (r: Option<(Ledger, usize)>)
    requires
        pos <= buf@.len(),
    ensures
        r is None <==> sp_ledger(buf@.skip(pos as int)) is None,
        r matches Some((l, end)) ==> ({
            &&& pos <= end <= buf@.len()
            &&& sp_ledger(buf@.skip(pos as int)) == Some((l@, buf@.skip(end as int)))
            &&& l@.accounts.len() < LEN_LIMIT
            &&& forall|i: int| 0 <= i < l@.accounts.len()
                    ==> valid_account_bytes(#[trigger] l@.accounts[i].0)
        }),
{
    let (cntu, p1) = match parse_le(buf, pos, 4) {
        None => {
            return None;
        },
        Some(x) => x,
    };
    proof {
        lemma_dec_le_bound(buf@.skip(pos as int).take(4));
        lemma_pow256_widths();
    }
    let count = cntu as usize;
    let (entries, p2) = match parse_entries(buf, p1, count) {
        None => {
            return None;
        },
        Some(x) => x,
    };
    let (total, p3) = match parse_le(buf, p2, 16) {
        None => {
            return None;
        },
        Some(x) => x,
    };
    let ghost ev = entries@;
    let l = Ledger { accounts: entries, total_supply: total };
    proof {
        assert(l@.accounts =~= entries_view(ev));
        assert forall|i: int| 0 <= i < l@.accounts.len() implies
            valid_account_bytes(#[trigger] l@.accounts[i].0) by {
            assert(ev[i].0.wf());
        }
    }
    Some((l, p3))
}

/// Reads the legacy record shape.
fn parse_v1(buf: &Vec<u8>, pos: usize) -> (r: Option<((Ledger, Option<Metadata>), usize)>)
    requires
        pos <= buf@.len(),
    ensures
        r is None <==> sp_v1(buf@.skip(pos as int)) is None,
        r matches Some((p, end)) ==> ({
            &&& pos <= end <= buf@.len()
            &&& sp_v1(buf@.skip(pos as int))
                == Some(((p.0@, view_opt_metadata(p.1)), buf@.skip(end as int)))
            &&& p.0@.accounts.len() < LEN_LIMIT
            &&& forall|i: int| 0 <= i < p.0@.accounts.len()
                    ==> valid_account_bytes(#[trigger] p.0@.accounts[i].0)
            &&& (p.1 matches Some(m) ==> m.wf())
        }),
{
    let (token, p1) = match parse_ledger(buf, pos) {
        None => {
            return None;
        },
        Some(x) => x,
    };
    let (metadata, p2) = match parse_opt_metadata(buf, p1) {
        None => {
            return None;
        },
        Some(x) => x,
    };
    Some(((token, metadata), p2))
}

/// Reads the current record shape.
fn parse_contract_parts(buf: &Vec<u8>, pos: usize)
    -> (r: Option<((Ledger, Option<Metadata>, AccountId), usize)>)
    requires
        pos <= buf@.len(),
    ensures
        r is None <==> sp_contract(buf@.skip(pos as int)) is None,
        r matches Some((p, end)) ==> ({
            &&& pos <= end <= buf@.len()
            &&& sp_contract(buf@.skip(pos as int))
                == Some(((p.0@, view_opt_metadata(p.1), p.2@), buf@.skip(end as int)))
            &&& p.0@.accounts.len() < LEN_LIMIT
            &&& forall|i: int| 0 <= i < p.0@.accounts.len()
                    ==> valid_account_bytes(#[trigger] p.0@.accounts[i].0)
            &&& (p.1 matches Some(m) ==> m.wf())
            &&& p.2.wf()
        }),
{
    let (tm, p1) = match parse_v1(buf, pos) {
        None => {
            return None;
        },
        Some(x) => x,
    };
    let (token, metadata) = tm;
    let (obytes, p2) = match parse_bytes(buf, p1) {
        None => {
            return None;
        },
        Some(x) => x,
    };
    let owner = match AccountId::new(obytes) {
        None => {
            return None;
        },
        Some(a) => a,
    };
    Some(((token, metadata, owner), p2))
}

} // verus!

verus! {

/// Whether a decoded record is accepted: every byte consumed and the
/// ledger well-formed. The legacy shape.
pub open spec fn dec_v1_parts(s: Seq<u8>) -> Option<(LedgerView, Option<MetadataView>)> {
    match sp_v1(s) {
        Some((p, rest)) => {
            if rest.len() == 0 && p.0.wf() {
                Some(p)
            } else {
                None
            }
        },
        None => None,
    }
}

/// The current shape, under the same acceptance rule.
pub open spec fn dec_contract_parts(s: Seq<u8>) -> Option<
    (LedgerView, Option<MetadataView>, Seq<u8>),
> {
    match sp_contract(s) {
        Some((p, rest)) => {
            if rest.len() == 0 && p.0.wf() {
                Some(p)
            } else {
                None
            }
        },
        None => None,
    }
}

/// Whether the entries carry pairwise distinct account identifiers.
fn entries_unique(v: &Vec<(AccountId, u128)>) -> (r: bool)
    ensures
        r == (forall|i: int, j: int|
            0 <= i < j < v@.len() ==> (#[trigger] v@[i]).0@ != (#[trigger] v@[j]).0@),
{
    let n = v.len();
    for i in 0..n
        invariant
            n == v.len(),
            forall|a: int, b: int| 0 <= a < b < n && a < i
                ==> (#[trigger] v@[a]).0@ != (#[trigger] v@[b]).0@,
    {
        for j in (i + 1)..n
            invariant
                i < n == v.len(),
                forall|a: int, b: int| 0 <= a < b < n && a < i
                    ==> (#[trigger] v@[a]).0@ != (#[trigger] v@[b]).0@,
                forall|b: int| i < b < j ==> v@[i as int].0@ != (#[trigger] v@[b]).0@,
        {
            if bytes_eq(&v[i].0.bytes, &v[j].0.bytes) {
                return false;
            }
        }
    }
    true
}

/// Decodes a legacy record, refusing trailing bytes, repeated accounts,
/// and any malformed field.
pub fn decode_v1(buf: &Vec<u8>) -> (r: Option<(Ledger, Option<Metadata>)>)
    ensures
        r is None <==> dec_v1_parts(buf@) is None,
        r matches Some((t, m)) ==> ({
            &&& dec_v1_parts(buf@) == Some((t@, view_opt_metadata(m)))
            &&& t.wf()
            &&& (m matches Some(x) ==> x.wf())
        }),
{
    proof {
        assert(buf@.skip(0) =~= buf@);
    }
    let (tm, end) = match parse_v1(buf, 0) {
        None => {
            return None;
        },
        Some(x) => x,
    };
    let (token, metadata) = tm;
    if end != buf.len() {
        proof {
            assert(buf@.skip(end as int).len() > 0);
        }
        return None;
    }
    proof {
        assert(buf@.skip(end as int).len() == 0);
    }
    if !entries_unique(&token.accounts) {
        proof {
            let acc = token.accounts@;
            if token@.wf() {
                assert forall|i: int, j: int| 0 <= i < j < acc.len() implies
                    (#[trigger] acc[i]).0@ != (#[trigger] acc[j]).0@ by {
                    assert(token@.accounts[i] == (acc[i].0@, acc[i].1));
                    assert(token@.accounts[j] == (acc[j].0@, acc[j].1));
                    assert(token@.accounts[i].0 != token@.accounts[j].0);
                }
            }
            assert(!token@.wf());
        }
        return None;
    }
    proof {
        let acc = token.accounts@;
        assert forall|i: int, j: int|
            0 <= i < j < token@.accounts.len() implies
            (#[trigger] token@.accounts[i]).0 != (#[trigger] token@.accounts[j]).0 by {
            assert(token@.accounts[i] == (acc[i].0@, acc[i].1));
            assert(token@.accounts[j] == (acc[j].0@, acc[j].1));
            assert(acc[i].0@ != acc[j].0@);
        }
        assert(token@.wf());
    }
    Some((token, metadata))
}

/// Decodes a current record, under the same acceptance rule.
pub fn decode_contract_parts(buf: &Vec<u8>) -> (r: Option<(Ledger, Option<Metadata>, AccountId)>)
    ensures
        r is None <==> dec_contract_parts(buf@) is None,
        r matches Some((t, m, o)) ==> ({
            &&& dec_contract_parts(buf@) == Some((t@, view_opt_metadata(m), o@))
            &&& t.wf()
            &&& (m matches Some(x) ==> x.wf())
            &&& o.wf()
        }),
{
    proof {
        assert(buf@.skip(0) =~= buf@);
    }
    let (tmo, end) = match parse_contract_parts(buf, 0) {
        None => {
            return None;
        },
        Some(x) => x,
    };
    let (token, metadata, owner) = tmo;
    if end != buf.len() {
        proof {
            assert(buf@.skip(end as int).len() > 0);
        }
        return None;
    }
    proof {
        assert(buf@.skip(end as int).len() == 0);
    }
    if !entries_unique(&token.accounts) {
        proof {
            let acc = token.accounts@;
            if token@.wf() {
                assert forall|i: int, j: int| 0 <= i < j < acc.len() implies
                    (#[trigger] acc[i]).0@ != (#[trigger] acc[j]).0@ by {
                    assert(token@.accounts[i] == (acc[i].0@, acc[i].1));
                    assert(token@.accounts[j] == (acc[j].0@, acc[j].1));
                    assert(token@.accounts[i].0 != token@.accounts[j].0);
                }
            }
            assert(!token@.wf());
        }
        return None;
    }
    proof {
        let acc = token.accounts@;
        assert forall|i: int, j: int|
            0 <= i < j < token@.accounts.len() implies
            (#[trigger] token@.accounts[i]).0 != (#[trigger] token@.accounts[j]).0 by {
            assert(token@.accounts[i] == (acc[i].0@, acc[i].1));
            assert(token@.accounts[j] == (acc[j].0@, acc[j].1));
            assert(acc[i].0@ != acc[j].0@);
        }
        assert(token@.wf());
    }
    Some((token, metadata, owner))
}

} // verus!
