//! Token metadata: the descriptive record carried beside the ledger,
//! and the compiled-in constants it is rebuilt from.

use vstd::prelude::*;

use crate::account::{bytes_eq, copy_bytes};

verus! {

/// Number of decimals the token reports.
pub const METADATA_DECIMALS: u8 = 24;

/// The metadata record: a standard-spec tag, a human-readable name and
/// symbol, an optional inline icon, an optional external reference with
/// its hash, and the decimal count. Text fields are held as their bytes.
pub struct Metadata {
    pub spec_text: Vec<u8>,
    pub name: Vec<u8>,
    pub symbol: Vec<u8>,
    pub icon: Option<Vec<u8>>,
    pub reference: Option<Vec<u8>>,
    pub reference_hash: Option<Vec<u8>>,
    pub decimals: u8,
}

#[verifier::ext_equal]
/// The mathematical shape of a metadata record.
pub struct MetadataView {
    pub spec_text: Seq<u8>,
    pub name: Seq<u8>,
    pub symbol: Seq<u8>,
    pub icon: Option<Seq<u8>>,
    pub reference: Option<Seq<u8>>,
    pub reference_hash: Option<Seq<u8>>,
    pub decimals: u8,
}

pub open spec fn view_opt_metadata(o: Option<Metadata>) -> Option<MetadataView> {
    match o {
        Some(m) => Some(m@),
        None => None,
    }
}

pub open spec fn view_opt_bytes(o: Option<Vec<u8>>) -> Option<Seq<u8>> {
    match o {
        Some(v) => Some(v@),
        None => None,
    }
}

impl View for Metadata {
    type V = MetadataView;

    open spec fn view(&self) -> MetadataView {
        MetadataView {
            spec_text: self.spec_text@,
            name: self.name@,
            symbol: self.symbol@,
            icon: view_opt_bytes(self.icon),
            reference: view_opt_bytes(self.reference),
            reference_hash: view_opt_bytes(self.reference_hash),
            decimals: self.decimals,
        }
    }
}

/// Upper bound (exclusive) on every encoded length: lengths travel as
/// four-byte little-endian counts.
pub const LEN_LIMIT: u64 = 0x1_0000_0000;

impl MetadataView {
    /// Every text field short enough for its length to travel in four
    /// bytes.
    pub open spec fn wf(self) -> bool {
        &&& self.spec_text.len() < LEN_LIMIT
        &&& self.name.len() < LEN_LIMIT
        &&& self.symbol.len() < LEN_LIMIT
        &&& (self.icon matches Some(s) ==> s.len() < LEN_LIMIT)
        &&& (self.reference matches Some(s) ==> s.len() < LEN_LIMIT)
        &&& (self.reference_hash matches Some(s) ==> s.len() < LEN_LIMIT)
    }
}

/// The compiled-in standard-spec tag, `ft-1.0.0`.
pub open spec fn spec_const_spec_text() -> Seq<u8> {
    seq![102u8, 116, 45, 49, 46, 48, 46, 48]
}

/// The compiled-in token name, `Example NEAR fungible token`.
pub open spec fn spec_const_name() -> Seq<u8> {
    seq![69u8, 120, 97, 109, 112, 108, 101, 32, 78, 69, 65, 82, 32, 102, 117, 110, 103, 105, 98, 108, 101, 32, 116, 111, 107, 101, 110]
}

/// The compiled-in token symbol, `EXAMPLE`.
pub open spec fn spec_const_symbol() -> Seq<u8> {
    seq![69u8, 88, 65, 77, 80, 76, 69]
}

/// The compiled-in inline icon, a data URL holding a small SVG image.
pub open spec fn spec_const_icon() -> Seq<u8> {
    seq![100u8, 97, 116, 97, 58, 105, 109, 97, 103, 101, 47, 115, 118, 103, 43, 120, 109, 108, 44, 37, 51, 67, 115, 118, 103, 32, 120, 109, 108, 110, 115, 61, 39, 104, 116, 116, 112, 58, 47, 47, 119, 119, 119, 46, 119, 51, 46, 111, 114, 103, 47, 50, 48, 48, 48, 47, 115, 118, 103, 39, 32, 118, 105, 101, 119, 66, 111, 120, 61, 39, 48, 32, 48, 32, 49, 54, 32, 49, 54, 39, 47, 37, 51, 69]
}

/// The record every construction and reset of the metadata produces:
/// the compiled-in constants, no external reference.
pub open spec fn spec_default_metadata() -> MetadataView {
    MetadataView {
        spec_text: spec_const_spec_text(),
        name: spec_const_name(),
        symbol: spec_const_symbol(),
        icon: Some(spec_const_icon()),
        reference: None,
        reference_hash: None,
        decimals: METADATA_DECIMALS,
    }
}

pub fn const_spec_text() -> (r: Vec<u8>)
    ensures
        r@ == spec_const_spec_text(),
{
    let v: Vec<u8> = vec![102u8, 116, 45, 49, 46, 48, 46, 48];
    proof {
        assert(v@ =~= spec_const_spec_text());
    }
    v
}

pub fn const_name() -> (r: Vec<u8>)
    ensures
        r@ == spec_const_name(),
{
    let v: Vec<u8> = vec![69u8, 120, 97, 109, 112, 108, 101, 32, 78, 69, 65, 82, 32, 102, 117, 110, 103, 105, 98, 108, 101, 32, 116, 111, 107, 101, 110];
    proof {
        assert(v@ =~= spec_const_name());
    }
    v
}

pub fn const_symbol() -> (r: Vec<u8>)
    ensures
        r@ == spec_const_symbol(),
{
    let v: Vec<u8> = vec![69u8, 88, 65, 77, 80, 76, 69];
    proof {
        assert(v@ =~= spec_const_symbol());
    }
    v
}

pub fn const_icon() -> (r: Vec<u8>)
    ensures
        r@ == spec_const_icon(),
{
    let v: Vec<u8> = vec![100u8, 97, 116, 97, 58, 105, 109, 97, 103, 101, 47, 115, 118, 103, 43, 120, 109, 108, 44, 37, 51, 67, 115, 118, 103, 32, 120, 109, 108, 110, 115, 61, 39, 104, 116, 116, 112, 58, 47, 47, 119, 119, 119, 46, 119, 51, 46, 111, 114, 103, 47, 50, 48, 48, 48, 47, 115, 118, 103, 39, 32, 118, 105, 101, 119, 66, 111, 120, 61, 39, 48, 32, 48, 32, 49, 54, 32, 49, 54, 39, 47, 37, 51, 69];
    proof {
        assert(v@ =~= spec_const_icon());
    }
    v
}

impl Metadata {
    pub open spec fn wf(self) -> bool {
        self@.wf()
    }

    /// Builds the metadata record from the compiled-in constants.
    pub fn default_metadata() -> (r: Metadata)
        ensures
            r@ == spec_default_metadata(),
            r.wf(),
    {
        let m = Metadata {
            spec_text: const_spec_text(),
            name: const_name(),
            symbol: const_symbol(),
            icon: Some(const_icon()),
            reference: None,
            reference_hash: None,
            decimals: METADATA_DECIMALS,
        };
        m
    }

    /// A copy of this record.
    pub fn duplicate(&self) -> (r: Metadata)
        ensures
            r@ == self@,
    {
        Metadata {
            spec_text: copy_bytes(&self.spec_text),
            name: copy_bytes(&self.name),
            symbol: copy_bytes(&self.symbol),
            icon: copy_opt_bytes(&self.icon),
            reference: copy_opt_bytes(&self.reference),
            reference_hash: copy_opt_bytes(&self.reference_hash),
            decimals: self.decimals,
        }
    }

    /// Field-for-field equality of two records.
    pub fn same_as(&self, other: &Metadata) -> (r: bool)
        ensures
            r == (self@ == other@),
    {
        let r = bytes_eq(&self.spec_text, &other.spec_text)
            && bytes_eq(&self.name, &other.name)
            && bytes_eq(&self.symbol, &other.symbol)
            && opt_bytes_eq(&self.icon, &other.icon)
            && opt_bytes_eq(&self.reference, &other.reference)
            && opt_bytes_eq(&self.reference_hash, &other.reference_hash)
            && self.decimals == other.decimals;
        r
    }
}

/// A copy of an optional byte string.
pub fn copy_opt_bytes(o: &Option<Vec<u8>>) -> (r: Option<Vec<u8>>)
    ensures
        view_opt_bytes(r) == view_opt_bytes(*o),
{
    match o {
        Some(v) => Some(copy_bytes(v)),
        None => None,
    }
}

/// Equality of two optional byte strings.
pub fn opt_bytes_eq(a: &Option<Vec<u8>>, b: &Option<Vec<u8>>) -> (r: bool)
    ensures
        r == (view_opt_bytes(*a) == view_opt_bytes(*b)),
{
    match (a, b) {
        (Some(x), Some(y)) => bytes_eq(x, y),
        (None, None) => true,
        _ => false,
    }
}

} // verus!
