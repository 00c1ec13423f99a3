//! Content hashing: a SHA-256 digest rendered as lower-case hex, used to
//! detect whether a working copy has diverged from the last version.

use sha2::Digest;
use vstd::prelude::*;

use crate::numfmt::hex_digit;
use crate::text::{ascii_to_string, chars_of_bytes, lemma_chars_of_bytes_push};

verus! {

/// What sha2's SHA-256 returns: a digest depending on the input alone.
pub uninterp spec fn sha256_of(bytes: Seq<u8>) -> Seq<u8>;

/// Relies on sha2::Sha256: a 32-byte digest that depends on the input
/// bytes alone.
#[verifier::external_body]
fn sha256_digest(bytes: &[u8]) -> (r: Vec<u8>)
    ensures
        r@ == sha256_of(bytes@),
        r@.len() == 32,
{
    sha2::Sha256::digest(bytes).to_vec()
}

/// A byte sequence rendered as lower-case hex, two digits per byte.
pub open spec fn spec_hex_lower(s: Seq<u8>) -> Seq<char> {
    Seq::new(
        2 * s.len(),
        |i: int|
            if i % 2 == 0 {
                hex_digit(s[i / 2] as int / 16)
            } else {
                hex_digit(s[i / 2] as int % 16)
            },
    )
}

/// The content hash the library records: SHA-256 in lower-case hex.
pub open spec fn sha256_hex(bytes: Seq<u8>) -> Seq<char> {
    spec_hex_lower(sha256_of(bytes))
}

/// Hashes content bytes to the 64-character hex form stored in version
/// records.
#[verifier::loop_isolation(false)]
pub fn hash_bytes(bytes: &[u8]) -> (r: String)
    ensures
        r@ == sha256_hex(bytes@),
        r@.len() == 64,
{
    let d = sha256_digest(bytes);
    let n = d.len();
    let mut v: Vec<u8> = Vec::new();
    let mut i: usize = 0;
    while i < n
        invariant
            0 <= i <= n,
            v@.len() == 2 * i,
            chars_of_bytes(v@) == spec_hex_lower(d@.take(i as int)),
            forall|k: int| 0 <= k < v@.len() ==> v@[k] < 128,
        decreases n - i,
    {
        let b = d[i];
        let hi = b / 16;
        let lo = b % 16;
        let hb = if hi < 10 {
            48 + hi
        } else {
            87 + hi
        };
        let lb = if lo < 10 {
            48 + lo
        } else {
            87 + lo
        };
        let ghost pre = v@;
        v.push(hb);
        proof {
            lemma_chars_of_bytes_push(pre, hb);
        }
        let ghost pre2 = v@;
        v.push(lb);
        proof {
            lemma_chars_of_bytes_push(pre2, lb);
            assert(hb as char == hex_digit(b as int / 16));
            assert(lb as char == hex_digit(b as int % 16));
            assert(chars_of_bytes(v@) =~= spec_hex_lower(d@.take(i + 1)));
        }
        i = i + 1;
    }
    proof {
        assert(d@.take(n as int) =~= d@);
    }
    ascii_to_string(v)
}

} // verus!
