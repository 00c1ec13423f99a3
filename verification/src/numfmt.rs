//! Decimal and hexadecimal rendering of integers, used for version blob
//! names, date keys, process-id markers and entry identifiers.

use vstd::prelude::*;

use crate::text::{ascii_to_string, chars_of_bytes, lemma_chars_of_bytes_push};

verus! {

/// The ASCII digit for a value below ten.
pub open spec fn dec_digit(d: int) -> char
    recommends
        0 <= d < 10,
{
    ((48 + d) as u8) as char
}

/// The decimal digits of a non-negative number, most significant first.
pub open spec fn spec_dec(n: int) -> Seq<char>
    recommends
        n >= 0,
    decreases n,
{
    if n < 10 {
        seq![dec_digit(n)]
    } else {
        spec_dec(n / 10).push(dec_digit(n % 10))
    }
}

/// The decimal digits of `n`, left-padded with zeros to width `w`.
pub open spec fn spec_dec_pad(n: int, w: int) -> Seq<char> {
    let d = spec_dec(n);
    if d.len() >= w {
        d
    } else {
        Seq::new((w - d.len()) as nat, |i: int| '0') + d
    }
}

/// The decimal rendering of a signed number, with a leading minus sign
/// when it is negative.
pub open spec fn spec_dec_i64(n: int) -> Seq<char> {
    if n < 0 {
        seq!['-'] + spec_dec(-n)
    } else {
        spec_dec(n)
    }
}

/// Digits are ASCII, so any rendered number can become a `String`.
pub proof fn lemma_spec_dec_ascii(n: int)
    requires
        n >= 0,
    ensures
        forall|i: int|
            0 <= i < spec_dec(n).len() ==> '0' <= #[trigger] spec_dec(n)[i] && spec_dec(n)[i]
                <= '9',
        spec_dec(n).len() >= 1,
    decreases n,
{
    if n >= 10 {
        lemma_spec_dec_ascii(n / 10);
    }
}

/// Distinct numbers render as distinct digit strings.
pub proof fn lemma_spec_dec_injective(a: int, b: int)
    requires
        a >= 0,
        b >= 0,
        a != b,
    ensures
        spec_dec(a) != spec_dec(b),
    decreases a + b,
{
    if a < 10 && b < 10 {
        assert(spec_dec(a)[0] != spec_dec(b)[0]);
    } else if a < 10 && b >= 10 {
        lemma_spec_dec_ascii(b / 10);
        assert(spec_dec(a).len() == 1 && spec_dec(b).len() >= 2);
    } else if a >= 10 && b < 10 {
        lemma_spec_dec_ascii(a / 10);
        assert(spec_dec(a).len() >= 2 && spec_dec(b).len() == 1);
    } else {
        if a / 10 == b / 10 {
            assert(a % 10 != b % 10);
            assert(spec_dec(a).last() != spec_dec(b).last());
        } else {
            lemma_spec_dec_injective(a / 10, b / 10);
            if spec_dec(a) == spec_dec(b) {
                assert(spec_dec(a).drop_last() == spec_dec(b).drop_last());
                assert(spec_dec(a / 10) =~= spec_dec(a).drop_last());
                assert(spec_dec(b / 10) =~= spec_dec(b).drop_last());
                assert(false);
            }
        }
    }
}

/// Appends the decimal digits of `n` as ASCII bytes.
fn push_dec(out: &mut Vec<u8>, n: u64)
    ensures
        chars_of_bytes(final(out)@) == chars_of_bytes(old(out)@) + spec_dec(n as int),
        final(out)@.len() > old(out)@.len(),
        forall|i: int|
            0 <= i < final(out)@.len() ==> (final(out)@[i] < 128 <==> (i < old(out)@.len()
                ==> old(out)@[i] < 128)),
    decreases n,
{
    if n >= 10 {
        push_dec(out, n / 10);
    }
    let ghost pre = out@;
    out.push(48 + (n % 10) as u8);
    proof {
        lemma_chars_of_bytes_push(pre, (48 + (n % 10) as int) as u8);
        if n >= 10 {
            assert(chars_of_bytes(out@) =~= chars_of_bytes(old(out)@) + spec_dec(n as int));
        } else {
            assert(chars_of_bytes(out@) =~= chars_of_bytes(old(out)@) + spec_dec(n as int));
        }
    }
}

/// Renders `n` in decimal.
pub fn format_u64(n: u64) -> (r: String)
    ensures
        r@ == spec_dec(n as int),
{
    let mut v: Vec<u8> = Vec::new();
    push_dec(&mut v, n);
    proof {
        assert(chars_of_bytes(v@) =~= spec_dec(n as int));
    }
    ascii_to_string(v)
}

/// Renders `n` in decimal, left-padded with zeros to width `w`.
#[verifier::loop_isolation(false)]
pub fn format_u64_pad(n: u64, w: usize) -> (r: String)
    ensures
        r@ == spec_dec_pad(n as int, w as int),
{
    let mut d: Vec<u8> = Vec::new();
    push_dec(&mut d, n);
    let ghost digits = spec_dec(n as int);
    proof {
        assert(chars_of_bytes(d@) =~= digits);
    }
    let mut v: Vec<u8> = Vec::new();
    let len = d.len();
    while v.len() + len < w
        invariant
            chars_of_bytes(v@) =~= Seq::new(v@.len(), |i: int| '0'),
            v@.len() + len <= w || v@.len() == 0,
            forall|i: int| 0 <= i < v@.len() ==> v@[i] < 128,
        decreases w - v.len(),
    {
        let ghost pre = v@;
        v.push(48);
        proof {
            lemma_chars_of_bytes_push(pre, 48);
            assert(chars_of_bytes(v@) =~= Seq::new(v@.len(), |i: int| '0'));
        }
    }
    let ghost zeros = chars_of_bytes(v@);
    let mut i: usize = 0;
    while i < len
        invariant
            0 <= i <= len,
            chars_of_bytes(v@) =~= zeros + digits.take(i as int),
            forall|k: int| 0 <= k < v@.len() ==> v@[k] < 128,
        decreases len - i,
    {
        let ghost pre = v@;
        let b = d[i];
        v.push(b);
        proof {
            lemma_chars_of_bytes_push(pre, b);
            assert(chars_of_bytes(d@)[i as int] == digits[i as int]);
            lemma_spec_dec_ascii(n as int);
            assert(b < 128);
            assert(chars_of_bytes(v@) =~= zeros + digits.take(i + 1));
        }
        i = i + 1;
    }
    proof {
        assert(digits.take(len as int) =~= digits);
        assert(chars_of_bytes(v@) =~= zeros + digits);
        assert(chars_of_bytes(v@) =~= spec_dec_pad(n as int, w as int));
    }
    ascii_to_string(v)
}

/// Renders a signed number in decimal.
pub fn format_i64(n: i64) -> (r: String)
    ensures
        r@ == spec_dec_i64(n as int),
{
    if n >= 0 {
        let r = format_u64(n as u64);
        r
    } else {
        let mut v: Vec<u8> = Vec::new();
        v.push(45);
        let ghost pre = v@;
        let mag: u64 = if n == i64::MIN {
            9223372036854775808u64
        } else {
            (-n) as u64
        };
        push_dec(&mut v, mag);
        proof {
            assert(chars_of_bytes(pre) =~= seq!['-']);
            assert(chars_of_bytes(v@) =~= seq!['-'] + spec_dec(mag as int));
            assert(mag as int == -(n as int));
        }
        ascii_to_string(v)
    }
}

/// The ASCII character for a hexadecimal digit, lower case.
pub open spec fn hex_digit(d: int) -> char
    recommends
        0 <= d < 16,
{
    if d < 10 {
        ((48 + d) as u8) as char
    } else {
        ((87 + d) as u8) as char
    }
}

/// The hexadecimal digits of `n`, zero-padded to width `w`, lower case,
/// most significant first.
pub open spec fn spec_hex_pad(n: int, w: nat) -> Seq<char>
    decreases w,
{
    if w == 0 {
        Seq::empty()
    } else {
        spec_hex_pad(n / 16, (w - 1) as nat).push(hex_digit(n % 16))
    }
}

/// Appends `w` hex digits of `n` (low `4*w` bits) as ASCII bytes.
fn push_hex(out: &mut Vec<u8>, n: u64, w: usize)
    ensures
        chars_of_bytes(final(out)@) == chars_of_bytes(old(out)@) + spec_hex_pad(n as int, w as nat),
        final(out)@.len() == old(out)@.len() + w,
        forall|i: int|
            0 <= i < final(out)@.len() ==> (final(out)@[i] < 128 <==> (i < old(out)@.len()
                ==> old(out)@[i] < 128)),
    decreases w,
{
    if w == 0 {
        proof {
            assert(chars_of_bytes(out@) =~= chars_of_bytes(out@) + spec_hex_pad(n as int, 0));
        }
        return ;
    }
    push_hex(out, n / 16, w - 1);
    let ghost pre = out@;
    let d = (n % 16) as u8;
    let b = if d < 10 {
        48 + d
    } else {
        87 + d
    };
    out.push(b);
    proof {
        lemma_chars_of_bytes_push(pre, b);
        assert(b as char == hex_digit(n as int % 16));
        assert(chars_of_bytes(out@) =~= chars_of_bytes(old(out)@) + spec_hex_pad(
            n as int,
            w as nat,
        ));
    }
}

/// Renders the low `4*w` bits of `n` as `w` lower-case hex digits.
pub fn format_hex_pad(n: u64, w: usize) -> (r: String)
    ensures
        r@ == spec_hex_pad(n as int, w as nat),
{
    let mut v: Vec<u8> = Vec::new();
    push_hex(&mut v, n, w);
    proof {
        assert(chars_of_bytes(v@) =~= spec_hex_pad(n as int, w as nat));
    }
    ascii_to_string(v)
}

/// Every character of a padded hex rendering is a lower-case hex digit.
pub proof fn lemma_spec_hex_ascii(n: int, w: nat)
    requires
        n >= 0,
    ensures
        spec_hex_pad(n, w).len() == w,
        forall|i: int|
            0 <= i < w ==> ('0' <= #[trigger] spec_hex_pad(n, w)[i] && spec_hex_pad(n, w)[i] <= '9')
                || ('a' <= spec_hex_pad(n, w)[i] && spec_hex_pad(n, w)[i] <= 'f'),
    decreases w,
{
    if w > 0 {
        lemma_spec_hex_ascii(n / 16, (w - 1) as nat);
        assert(spec_hex_pad(n, w).drop_last() =~= spec_hex_pad(n / 16, (w - 1) as nat));
    }
}

} // verus!
