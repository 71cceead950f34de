//! Account identifiers: lowercase names of 2 to 64 bytes drawn from
//! `a-z`, `0-9` and the separators `-`, `_`, `.`, where a separator may
//! not start or end the name and two separators may not be adjacent.

use vstd::prelude::*;

verus! {


/// ASCII bounds and separator bytes used by the validity rules.
pub const BYTE_LOWER_A: u8 = 97;
pub const BYTE_LOWER_Z: u8 = 122;
pub const BYTE_DIGIT_0: u8 = 48;
pub const BYTE_DIGIT_9: u8 = 57;
pub const BYTE_HYPHEN: u8 = 45;
pub const BYTE_UNDERSCORE: u8 = 95;
pub const BYTE_DOT: u8 = 46;

/// Letters and digits allowed anywhere in an account identifier.
pub open spec fn is_name_byte(b: u8) -> bool {
    (BYTE_LOWER_A <= b && b <= BYTE_LOWER_Z) || (BYTE_DIGIT_0 <= b && b <= BYTE_DIGIT_9)
}

/// The three separator bytes.
pub open spec fn is_separator_byte(b: u8) -> bool {
    b == BYTE_HYPHEN || b == BYTE_UNDERSCORE || b == BYTE_DOT
}

pub open spec fn is_id_byte(b: u8) -> bool {
    is_name_byte(b) || is_separator_byte(b)
}

/// A byte sequence is a valid account identifier when it has 2 to 64
/// bytes, all drawn from the allowed set, and every separator stands
/// strictly inside the name with a non-separator right before it.
pub open spec fn valid_account_bytes(s: Seq<u8>) -> bool {
    &&& 2 <= s.len() <= 64
    &&& forall|i: int| 0 <= i < s.len() ==> is_id_byte(#[trigger] s[i])
    &&& forall|i: int| 0 <= i < s.len() && is_separator_byte(#[trigger] s[i]) ==> {
            &&& i != 0
            &&& i != s.len() - 1
            &&& !is_separator_byte(s[i - 1])
        }
}

/// A syntactically valid account identifier, held as its bytes.
pub struct AccountId {
    pub bytes: Vec<u8>,
}

impl View for AccountId {
    type V = Seq<u8>;

    open spec fn view(&self) -> Seq<u8> {
        self.bytes@
    }
}

impl AccountId {
    pub open spec fn wf(self) -> bool {
        valid_account_bytes(self@)
    }

    /// Accepts exactly the valid account identifiers.
    pub fn new(bytes: Vec<u8>) -> (r: Option<AccountId>)
        ensures
            r is Some <==> valid_account_bytes(bytes@),
            r matches Some(a) ==> a@ == bytes@ && a.wf(),
    {
        if validate_account_bytes(&bytes) {
            Some(AccountId { bytes })
        } else {
            None
        }
    }

    /// Equality of the underlying names.
    pub fn is_same(&self, other: &AccountId) -> (r: bool)
        ensures
            r == (self@ == other@),
    {
        bytes_eq(&self.bytes, &other.bytes)
    }

    /// A copy of this identifier.
    pub fn duplicate(&self) -> (r: AccountId)
        ensures
            r@ == self@,
    {
        AccountId { bytes: copy_bytes(&self.bytes) }
    }
}

/// Byte-for-byte equality of two vectors.
pub fn bytes_eq(a: &Vec<u8>, b: &Vec<u8>) -> (r: bool)
    ensures
        r == (a@ == b@),
{
    if a.len() != b.len() {
        assert(a@ != b@);
        return false;
    }
    let n = a.len();
    for i in 0..n
        invariant
            n == a.len() == b.len(),
            forall|j: int| 0 <= j < i ==> a@[j] == b@[j],
    {
        if a[i] != b[i] {
            return false;
        }
    }
    proof {
        assert(a@ =~= b@);
    }
    true
}

/// A fresh vector with the same bytes.
pub fn copy_bytes(v: &Vec<u8>) -> (r: Vec<u8>)
    ensures
        r@ == v@,
{
    let mut out: Vec<u8> = Vec::new();
    let n = v.len();
    for i in 0..n
        invariant
            n == v.len(),
            out@ =~= v@.take(i as int),
    {
        out.push(v[i]);
    }
    proof {
        assert(out@ =~= v@);
    }
    out
}

/// Decides `valid_account_bytes` on the given bytes.
pub fn validate_account_bytes(v: &Vec<u8>) -> (r: bool)
    ensures
        r == valid_account_bytes(v@),
{
    let n = v.len();
    if n < 2 || n > 64 {
        return false;
    }
    for i in 0..n
        invariant
            n == v.len(),
            2 <= n <= 64,
            forall|j: int| 0 <= j < i ==> is_id_byte(#[trigger] v@[j]),
            forall|j: int| 0 <= j < i && is_separator_byte(#[trigger] v@[j]) ==> {
                &&& j != 0
                &&& !is_separator_byte(v@[j - 1])
            },
    {
        let b = v[i];
        let name = (BYTE_LOWER_A <= b && b <= BYTE_LOWER_Z) || (BYTE_DIGIT_0 <= b && b <= BYTE_DIGIT_9);
        let sep = b == BYTE_HYPHEN || b == BYTE_UNDERSCORE || b == BYTE_DOT;
        if !name && !sep {
            return false;
        }
        if sep {
            if i == 0 {
                return false;
            }
            let p = v[i - 1];
            if p == BYTE_HYPHEN || p == BYTE_UNDERSCORE || p == BYTE_DOT {
                return false;
            }
        }
    }
    let last = v[n - 1];
    if last == BYTE_HYPHEN || last == BYTE_UNDERSCORE || last == BYTE_DOT {
        return false;
    }
    true
}

} // verus!
