//! Percent-encoding of route URIs and percent-decoding of request
//! URIs, both pinned to exact byte-level specifications.

use vstd::prelude::*;

verus! {

/// ASCII hex digit, either case.
pub open spec fn is_hex_digit(b: u8) -> bool {
    (48 <= b <= 57) || (97 <= b <= 102) || (65 <= b <= 70)
}

/// Value of an ASCII hex digit.
pub open spec fn hex_val(b: u8) -> u8 {
    if 48 <= b <= 57 {
        (b - 48) as u8
    } else if 97 <= b <= 102 {
        (b - 87) as u8
    } else if 65 <= b <= 70 {
        (b - 55) as u8
    } else {
        0
    }
}

/// Percent-decoding: every `%` followed by two hex digits becomes the
/// byte those digits denote; every other byte passes through.
pub open spec fn pct_decode(s: Seq<u8>) -> Seq<u8>
    decreases s.len(),
{
    if s.len() == 0 {
        seq![]
    } else if s[0] == 37 && s.len() >= 3 && is_hex_digit(s[1]) && is_hex_digit(s[2]) {
        seq![(hex_val(s[1]) * 16 + hex_val(s[2])) as u8] + pct_decode(s.skip(3))
    } else {
        seq![s[0]] + pct_decode(s.skip(1))
    }
}

/// Relies on `percent_encoding::percent_decode`: its iterator turns
/// every `%` followed by two hex digits into the denoted byte and
/// passes all other bytes through unchanged.
#[verifier::external_body]
pub(crate) fn percent_decode_bytes(s: &[u8]) -> (r: Vec<u8>)
    ensures
        r@ == pct_decode(s@),
{
    percent_encoding::percent_decode(s).collect()
}

/// Bytes that a route URI keeps as they are: ASCII alphanumerics and
/// `/ . - _ ~`, so that the URI of a plainly named file reads as the
/// slash-joined path itself.
pub open spec fn is_uri_plain(b: u8) -> bool {
    (48 <= b <= 57) || (65 <= b <= 90) || (97 <= b <= 122) || b == 47 || b == 46 || b == 45 || b
        == 95 || b == 126
}

/// Upper-case ASCII hex digit for a value below 16.
pub open spec fn hex_digit_upper(n: u8) -> u8 {
    if n < 10 {
        (48 + n) as u8
    } else {
        (55 + n) as u8
    }
}

/// Percent-encoding: every byte outside [`is_uri_plain`] becomes `%`
/// and its two upper-case hex digits.
pub open spec fn pct_encode(s: Seq<u8>) -> Seq<u8>
    decreases s.len(),
{
    if s.len() == 0 {
        seq![]
    } else {
        let rest = pct_encode(s.skip(1));
        if is_uri_plain(s[0]) {
            seq![s[0]] + rest
        } else {
            seq![37u8, hex_digit_upper(s[0] / 16), hex_digit_upper(s[0] % 16)] + rest
        }
    }
}

/// Percent-encoding distributes over concatenation: it works byte by
/// byte.
pub proof fn lemma_pct_encode_concat(a: Seq<u8>, b: Seq<u8>)
    ensures
        pct_encode(a + b) == pct_encode(a) + pct_encode(b),
    decreases a.len(),
{
    if a.len() == 0 {
        assert(a + b =~= b);
        assert(pct_encode(a) + pct_encode(b) =~= pct_encode(b));
    } else {
        assert((a + b).skip(1) =~= a.skip(1) + b);
        lemma_pct_encode_concat(a.skip(1), b);
        assert((a + b)[0] == a[0]);
        if is_uri_plain(a[0]) {
            assert(seq![a[0]] + (pct_encode(a.skip(1)) + pct_encode(b)) =~= (seq![a[0]]
                + pct_encode(a.skip(1))) + pct_encode(b));
        } else {
            assert(seq![37u8, hex_digit_upper(a[0] / 16), hex_digit_upper(a[0] % 16)] + (pct_encode(
                a.skip(1),
            ) + pct_encode(b)) =~= (seq![
                37u8,
                hex_digit_upper(a[0] / 16),
                hex_digit_upper(a[0] % 16),
            ] + pct_encode(a.skip(1))) + pct_encode(b));
        }
    }
}

fn hex_upper(n: u8) -> (r: u8)
    requires
        n < 16,
    ensures
        r == hex_digit_upper(n),
{
    if n < 10 {
        48 + n
    } else {
        55 + n
    }
}

/// Percent-encode `s` as [`pct_encode`] describes.
pub fn percent_encode_bytes(s: &[u8]) -> (r: Vec<u8>)
    ensures
        r@ == pct_encode(s@),
{
    let mut r: Vec<u8> = Vec::new();
    let mut i: usize = 0;
    proof {
        assert(s@.take(0) =~= Seq::<u8>::empty());
    }
    while i < s.len()
        invariant
            i <= s@.len(),
            r@ == pct_encode(s@.take(i as int)),
        decreases s@.len() - i,
    {
        let b = s[i];
        let ghost one = seq![s@[i as int]];
        proof {
            lemma_pct_encode_concat(s@.take(i as int), one);
            assert(s@.take(i + 1) =~= s@.take(i as int) + one);
            assert(one.skip(1) =~= Seq::<u8>::empty());
            assert(pct_encode(Seq::<u8>::empty()) =~= Seq::<u8>::empty());
            if is_uri_plain(one[0]) {
                assert(pct_encode(one) =~= seq![one[0]] + Seq::<u8>::empty());
                assert(pct_encode(one) =~= seq![one[0]]);
            } else {
                assert(pct_encode(one) =~= seq![
                    37u8,
                    hex_digit_upper(one[0] / 16),
                    hex_digit_upper(one[0] % 16),
                ] + Seq::<u8>::empty());
                assert(pct_encode(one) =~= seq![
                    37u8,
                    hex_digit_upper(one[0] / 16),
                    hex_digit_upper(one[0] % 16),
                ]);
            }
        }
        if (48 <= b && b <= 57) || (65 <= b && b <= 90) || (97 <= b && b <= 122) || b == 47 || b
            == 46 || b == 45 || b == 95 || b == 126 {
            r.push(b);
        } else {
            r.push(37);
            r.push(hex_upper(b / 16));
            r.push(hex_upper(b % 16));
        }
        i = i + 1;
    }
    proof {
        assert(s@.take(s@.len() as int) =~= s@);
    }
    r
}

} // verus!
