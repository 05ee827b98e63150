//! Conversions between byte sequences and text, used where a caller
//! wants protocol data as a `String`.

use vstd::prelude::*;

verus! {

/// True when every byte of `s` is ASCII.
pub open spec fn ascii_seq(s: Seq<u8>) -> bool {
    forall|i: int| 0 <= i < s.len() ==> #[trigger] s[i] < 128
}

/// The characters with the same codes as the bytes of `s`.
pub open spec fn chars_of(s: Seq<u8>) -> Seq<char> {
    Seq::new(s.len(), |i: int| s[i] as char)
}

/// The bytes with the same codes as the characters of `s`; meaningful
/// for ASCII character sequences.
pub open spec fn ascii_of(s: Seq<char>) -> Seq<u8> {
    Seq::new(s.len(), |i: int| s[i] as u8)
}

/// Relies on `String::from_utf8_lossy`: valid UTF-8 is decoded
/// unchanged, so ASCII bytes become the characters of the same codes.
#[verifier::external_body]
pub fn bytes_to_string(b: &[u8]) -> (r: String)
    ensures
        ascii_seq(b@) ==> r@ == chars_of(b@),
{
    String::from_utf8_lossy(b).into_owned()
}

/// Append the bytes of `src` to `dst`.
pub fn append_bytes(dst: &mut Vec<u8>, src: &[u8])
    ensures
        final(dst)@ == old(dst)@ + src@,
{
    let ghost orig = dst@;
    let mut i: usize = 0;
    proof {
        assert(dst@ =~= orig + src@.take(0));
    }
    while i < src.len()
        invariant
            i <= src@.len(),
            dst@ == orig + src@.take(i as int),
        decreases src@.len() - i,
    {
        dst.push(src[i]);
        proof {
            assert(orig + src@.take(i + 1) =~= (orig + src@.take(i as int)).push(src@[i as int]));
        }
        i = i + 1;
    }
    proof {
        assert(src@.take(src@.len() as int) =~= src@);
    }
}

/// The decimal digits of `n`, most significant first.
pub open spec fn dec_rec(n: nat) -> Seq<u8>
    decreases n,
{
    if n < 10 {
        seq![(48 + n) as u8]
    } else {
        dec_rec(n / 10) + seq![(48 + n % 10) as u8]
    }
}

/// Render `n` in decimal.
pub fn u32_decimal(n: u32) -> (r: Vec<u8>)
    ensures
        r@ == dec_rec(n as nat),
    decreases n,
{
    if n < 10 {
        let mut r: Vec<u8> = Vec::new();
        r.push(48 + (n as u8));
        proof {
            assert(r@ =~= dec_rec(n as nat));
        }
        r
    } else {
        let mut r = u32_decimal(n / 10);
        r.push(48 + ((n % 10) as u8));
        proof {
            assert(r@ =~= dec_rec((n / 10) as nat) + seq![(48 + (n as nat) % 10) as u8]);
        }
        r
    }
}

/// The bytes with the characters' codes, for rendering text whose
/// characters are ASCII into a wire image.
pub fn string_ascii_bytes(s: &str) -> (r: Vec<u8>)
    ensures
        r@ == ascii_of(s@),
{
    let n = s.unicode_len();
    let mut r: Vec<u8> = Vec::new();
    let mut i: usize = 0;
    while i < n
        invariant
            i <= n,
            n == s@.len(),
            r@.len() == i,
            forall|j: int| 0 <= j < i ==> r@[j] == s@[j] as u8,
        decreases n - i,
    {
        let c = s.get_char(i);
        r.push(#[verifier::truncate] (c as u8));
        i = i + 1;
    }
    proof {
        assert(r@ =~= ascii_of(s@));
    }
    r
}

/// A copy of a byte vector with the same contents.
pub fn clone_bytes(v: &Vec<u8>) -> (r: Vec<u8>)
    ensures
        r@ == v@,
{
    let r = v.clone();
    proof {
        assert(r@ =~= v@);
    }
    r
}

/// Byte-for-byte equality of two slices.
pub fn bytes_eq(a: &[u8], b: &[u8]) -> (r: bool)
    ensures
        r == (a@ == b@),
{
    if a.len() != b.len() {
        proof {
            assert(a@ != b@);
        }
        return false;
    }
    let mut i: usize = 0;
    while i < a.len()
        invariant
            i <= a@.len(),
            a@.len() == b@.len(),
            forall|j: int| 0 <= j < i ==> a@[j] == b@[j],
        decreases a@.len() - i,
    {
        if a[i] != b[i] {
            proof {
                assert(a@[i as int] != b@[i as int]);
            }
            return false;
        }
        i = i + 1;
    }
    proof {
        assert(a@ =~= b@);
    }
    true
}

} // verus!
