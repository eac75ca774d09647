//! Object identifiers: lowercase hex of a Keccak-256 digest.
use vstd::prelude::*;

verus! {

/// The 32 bytes that Keccak-256 gives for a byte sequence.
pub uninterp spec fn keccak256_of(b: Seq<u8>) -> Seq<u8>;

/// Number of hex characters in an object identifier.
pub const OID_LEN: usize = 64;

/// The lowercase hex digit of a value below 16.
pub open spec fn hex_digit(n: u8) -> char {
    if n < 10 {
        (48 + n) as char
    } else {
        (87 + n) as char
    }
}

/// Two lowercase hex digits per byte, most significant first.
pub open spec fn hex_of(b: Seq<u8>) -> Seq<char>
    decreases b.len(),
{
    if b.len() == 0 {
        Seq::empty()
    } else {
        hex_of(b.drop_last()) + seq![hex_digit(b.last() / 16), hex_digit(b.last() % 16)]
    }
}

/// The identifier of an object whose canonical bytes are `b`.
pub open spec fn oid_of(b: Seq<u8>) -> Seq<char> {
    hex_of(keccak256_of(b))
}

pub open spec fn is_hex_char(c: char) -> bool {
    ('0' <= c && c <= '9') || ('a' <= c && c <= 'f')
}

/// A well-formed identifier: exactly 64 lowercase hex characters.
pub open spec fn oid_wf(s: Seq<char>) -> bool {
    s.len() == OID_LEN && forall|i: int| 0 <= i < s.len() ==> #[trigger] is_hex_char(s[i])
}

pub proof fn lemma_hex_len(b: Seq<u8>)
    ensures
        hex_of(b).len() == 2 * b.len(),
        forall|i: int| 0 <= i < hex_of(b).len() ==> #[trigger] is_hex_char(hex_of(b)[i]),
    decreases b.len(),
{
    if b.len() > 0 {
        lemma_hex_len(b.drop_last());
        let p = hex_of(b.drop_last());
        let t = seq![hex_digit(b.last() / 16), hex_digit(b.last() % 16)];
        assert forall|i: int| 0 <= i < hex_of(b).len() implies #[trigger] is_hex_char(
            hex_of(b)[i],
        ) by {
            if i < p.len() {
                assert(hex_of(b)[i] == p[i]);
            } else {
                assert(hex_of(b)[i] == t[i - p.len()]);
            }
        }
    }
}

/// Relies on sha3::Keccak256::digest: the 32-byte Keccak-256 digest of the
/// input, which depends on the bytes alone.
#[verifier::external_body]
fn keccak256(data: &[u8]) -> (r: Vec<u8>)
    ensures
        r@ == keccak256_of(data@),
        r@.len() == 32,
{
    <sha3::Keccak256 as sha3::Digest>::digest(data).to_vec()
}

/// The lowercase hex digit for a value below 16, as a one-character string.
fn hex_digit_str(n: u8) -> (r: &'static str)
    requires
        n < 16,
    ensures
        r@ == seq![hex_digit(n)],
{
    let digits = "0123456789abcdef";
    proof {
        reveal_strlit("0123456789abcdef");
    }
    let r = digits.substring_char(n as usize, n as usize + 1);
    assert(r@ =~= seq![hex_digit(n)]);
    r
}

/// Lowercase hex encoding of a byte sequence.
pub fn hex_encode(b: &[u8]) -> (r: String)
    ensures
        r@ == hex_of(b@),
{
    let mut r = String::new();
    let mut i: usize = 0;
    while i < b.len()
        invariant
            i <= b@.len(),
            r@ == hex_of(b@.subrange(0, i as int)),
        decreases b@.len() - i,
    {
        let x = b[i];
        r.append(hex_digit_str(x / 16));
        r.append(hex_digit_str(x % 16));
        proof {
            let s = b@.subrange(0, i as int + 1);
            assert(s.drop_last() =~= b@.subrange(0, i as int));
            assert(s.last() == x);
        }
        i = i + 1;
    }
    assert(b@.subrange(0, b@.len() as int) =~= b@);
    r
}

/// The identifier of a byte sequence: lowercase hex of its Keccak-256 digest.
pub fn hash_data(data: &[u8]) -> (r: String)
    ensures
        r@ == oid_of(data@),
        oid_wf(r@),
{
    let d = keccak256(data);
    let r = hex_encode(d.as_slice());
    proof {
        lemma_hex_len(d@);
    }
    r
}

/// Whether `s` is a well-formed identifier.
pub fn is_valid_oid(s: &str) -> (r: bool)
    ensures
        r == oid_wf(s@),
{
    let n = s.unicode_len();
    if n != OID_LEN {
        return false;
    }
    let mut i: usize = 0;
    while i < n
        invariant
            n == s@.len(),
            i <= n,
            forall|j: int| 0 <= j < i ==> #[trigger] is_hex_char(s@[j]),
        decreases n - i,
    {
        let c = s.get_char(i);
        if !(('0' <= c && c <= '9') || ('a' <= c && c <= 'f')) {
            assert(!is_hex_char(s@[i as int]));
            return false;
        }
        i = i + 1;
    }
    true
}

} // verus!
