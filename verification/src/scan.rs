//! Byte-level scanning helpers shared by the request parser: finding
//! delimiters, splitting on CRLF or on whitespace, and trimming.

use vstd::prelude::*;

verus! {

/// Whitespace bytes, as `char::is_whitespace` sees them in ASCII:
/// space, tab, line feed, vertical tab, form feed, carriage return.
pub open spec fn is_ws_byte(b: u8) -> bool {
    b == 32 || b == 9 || b == 10 || b == 11 || b == 12 || b == 13
}

pub fn is_ws(b: u8) -> (r: bool)
    ensures
        r == is_ws_byte(b),
{
    b == 32 || b == 9 || b == 10 || b == 11 || b == 12 || b == 13
}

/// Index of the first whitespace byte of `s`, or a negative value if
/// there is none.
pub open spec fn find_ws(s: Seq<u8>) -> int
    decreases s.len(),
{
    if s.len() == 0 {
        -1
    } else if is_ws_byte(s[0]) {
        0
    } else {
        let r = find_ws(s.skip(1));
        if r < 0 {
            -1
        } else {
            r + 1
        }
    }
}

pub proof fn lemma_find_ws_none(s: Seq<u8>)
    requires
        forall|j: int| 0 <= j < s.len() ==> !is_ws_byte(#[trigger] s[j]),
    ensures
        find_ws(s) < 0,
    decreases s.len(),
{
    if s.len() > 0 {
        assert(forall|j: int| 0 <= j < s.skip(1).len() ==> s.skip(1)[j] == s[j + 1]);
        lemma_find_ws_none(s.skip(1));
    }
}

pub proof fn lemma_find_ws_at(s: Seq<u8>, i: int)
    requires
        0 <= i < s.len(),
        is_ws_byte(s[i]),
        forall|j: int| 0 <= j < i ==> !is_ws_byte(#[trigger] s[j]),
    ensures
        find_ws(s) == i,
    decreases s.len(),
{
    if i > 0 {
        assert(forall|j: int| 0 <= j < s.skip(1).len() ==> s.skip(1)[j] == s[j + 1]);
        lemma_find_ws_at(s.skip(1), i - 1);
    }
}

/// Index of the first occurrence of `c` in `s`, or a negative value.
pub open spec fn find_byte(s: Seq<u8>, c: u8) -> int
    decreases s.len(),
{
    if s.len() == 0 {
        -1
    } else if s[0] == c {
        0
    } else {
        let r = find_byte(s.skip(1), c);
        if r < 0 {
            -1
        } else {
            r + 1
        }
    }
}

pub proof fn lemma_find_byte_none(s: Seq<u8>, c: u8)
    requires
        forall|j: int| 0 <= j < s.len() ==> #[trigger] s[j] != c,
    ensures
        find_byte(s, c) < 0,
    decreases s.len(),
{
    if s.len() > 0 {
        assert(forall|j: int| 0 <= j < s.skip(1).len() ==> s.skip(1)[j] == s[j + 1]);
        lemma_find_byte_none(s.skip(1), c);
    }
}

pub proof fn lemma_find_byte_at(s: Seq<u8>, c: u8, i: int)
    requires
        0 <= i < s.len(),
        s[i] == c,
        forall|j: int| 0 <= j < i ==> #[trigger] s[j] != c,
    ensures
        find_byte(s, c) == i,
    decreases s.len(),
{
    if i > 0 {
        assert(forall|j: int| 0 <= j < s.skip(1).len() ==> s.skip(1)[j] == s[j + 1]);
        lemma_find_byte_at(s.skip(1), c, i - 1);
    }
}

/// Scan for the first occurrence of `c` at or after `start`.
pub fn find_byte_from(s: &[u8], start: usize, c: u8) -> (r: Option<usize>)
    requires
        start <= s@.len(),
    ensures
        match r {
            Some(j) => {
                &&& start <= j
                &&& j < s@.len()
                &&& find_byte(s@.skip(start as int), c) == j - start
            },
            None => find_byte(s@.skip(start as int), c) < 0,
        },
{
    let ghost suf = s@.skip(start as int);
    proof {
        assert(forall|t: int| 0 <= t < suf.len() ==> suf[t] == s@[start + t]);
    }
    let mut j = start;
    loop
        invariant
            start <= j <= s@.len(),
            suf == s@.skip(start as int),
            forall|t: int| 0 <= t < suf.len() ==> suf[t] == s@[start + t],
            forall|t: int| 0 <= t < j - start ==> #[trigger] suf[t] != c,
        decreases s@.len() - j,
    {
        if j >= s.len() {
            proof {
                lemma_find_byte_none(suf, c);
            }
            return None;
        }
        if s[j] == c {
            proof {
                lemma_find_byte_at(suf, c, j - start);
            }
            return Some(j);
        }
        j = j + 1;
    }
}

/// True when a CRLF pair starts at index `j` of `s`.
pub open spec fn crlf_at(s: Seq<u8>, j: int) -> bool {
    0 <= j && j + 1 < s.len() && s[j] == 13 && s[j + 1] == 10
}

/// Index of the first CRLF pair of `s`, or a negative value.
pub open spec fn find_crlf(s: Seq<u8>) -> int
    decreases s.len(),
{
    if s.len() < 2 {
        -1
    } else if s[0] == 13 && s[1] == 10 {
        0
    } else {
        let r = find_crlf(s.skip(1));
        if r < 0 {
            -1
        } else {
            r + 1
        }
    }
}

/// A CRLF pair stands at `j + 1` of `s` exactly when one stands at
/// `j` of `s` without its first byte.
pub proof fn lemma_crlf_shift(s: Seq<u8>, j: int)
    requires
        s.len() >= 1,
        j >= 0,
    ensures
        crlf_at(s, j + 1) == crlf_at(s.skip(1), j),
{
    if 0 <= j && j + 1 < s.skip(1).len() {
        assert(s.skip(1)[j] == s[j + 1]);
        assert(s.skip(1)[j + 1] == s[j + 2]);
    }
}

pub proof fn lemma_find_crlf_none(s: Seq<u8>)
    requires
        forall|j: int| !crlf_at(s, j),
    ensures
        find_crlf(s) < 0,
    decreases s.len(),
{
    if s.len() >= 2 {
        assert(!crlf_at(s, 0));
        assert forall|j: int| !crlf_at(s.skip(1), j) by {
            if j >= 0 {
                lemma_crlf_shift(s, j);
                assert(!crlf_at(s, j + 1));
            }
        }
        lemma_find_crlf_none(s.skip(1));
    }
}

pub proof fn lemma_find_crlf_at(s: Seq<u8>, i: int)
    requires
        crlf_at(s, i),
        forall|j: int| 0 <= j < i ==> !crlf_at(s, j),
    ensures
        find_crlf(s) == i,
    decreases s.len(),
{
    if i > 0 {
        assert(!crlf_at(s, 0));
        lemma_crlf_shift(s, i - 1);
        assert(crlf_at(s.skip(1), i - 1));
        assert forall|j: int| 0 <= j < i - 1 implies !crlf_at(s.skip(1), j) by {
            lemma_crlf_shift(s, j);
            assert(!crlf_at(s, j + 1));
        }
        lemma_find_crlf_at(s.skip(1), i - 1);
    }
}

/// Scan for the first CRLF pair at or after `start`.
pub fn find_crlf_from(s: &[u8], start: usize) -> (r: Option<usize>)
    requires
        start <= s@.len(),
    ensures
        match r {
            Some(j) => {
                &&& start <= j
                &&& j + 1 < s@.len()
                &&& find_crlf(s@.skip(start as int)) == j - start
            },
            None => find_crlf(s@.skip(start as int)) < 0,
        },
{
    let ghost suf = s@.skip(start as int);
    proof {
        assert(forall|t: int| 0 <= t < suf.len() ==> suf[t] == s@[start + t]);
    }
    let mut j = start;
    loop
        invariant
            start <= j <= s@.len(),
            suf == s@.skip(start as int),
            forall|t: int| 0 <= t < suf.len() ==> suf[t] == s@[start + t],
            forall|t: int| 0 <= t < j - start ==> !crlf_at(suf, t),
        decreases s@.len() - j,
    {
        if s.len() - j < 2 {
            proof {
                assert(forall|t: int| t >= j - start ==> !crlf_at(suf, t));
                lemma_find_crlf_none(suf);
            }
            return None;
        }
        if s[j] == 13 && s[j + 1] == 10 {
            proof {
                assert(crlf_at(suf, j - start));
                lemma_find_crlf_at(suf, j - start);
            }
            return Some(j);
        }
        proof {
            assert(!crlf_at(suf, j - start));
        }
        j = j + 1;
    }
}

/// Scan for the first whitespace byte at or after `start`.
pub fn find_ws_from(s: &[u8], start: usize) -> (r: Option<usize>)
    requires
        start <= s@.len(),
    ensures
        match r {
            Some(j) => {
                &&& start <= j
                &&& j < s@.len()
                &&& find_ws(s@.skip(start as int)) == j - start
            },
            None => find_ws(s@.skip(start as int)) < 0,
        },
{
    let ghost suf = s@.skip(start as int);
    proof {
        assert(forall|t: int| 0 <= t < suf.len() ==> suf[t] == s@[start + t]);
    }
    let mut j = start;
    loop
        invariant
            start <= j <= s@.len(),
            suf == s@.skip(start as int),
            forall|t: int| 0 <= t < suf.len() ==> suf[t] == s@[start + t],
            forall|t: int| 0 <= t < j - start ==> !is_ws_byte(#[trigger] suf[t]),
        decreases s@.len() - j,
    {
        if j >= s.len() {
            proof {
                lemma_find_ws_none(suf);
            }
            return None;
        }
        if is_ws(s[j]) {
            proof {
                lemma_find_ws_at(suf, j - start);
            }
            return Some(j);
        }
        j = j + 1;
    }
}

/// The lines of `s`: pieces separated by CRLF pairs, in order.  A
/// sequence without a CRLF is a single line; a trailing CRLF yields a
/// final empty line.
pub open spec fn split_crlf(s: Seq<u8>) -> Seq<Seq<u8>>
    decreases s.len(),
{
    let i = find_crlf(s);
    if 0 <= i && i + 1 < s.len() {
        seq![s.take(i)] + split_crlf(s.skip(i + 2))
    } else {
        seq![s]
    }
}

/// The whitespace-separated pieces of `s`, empty pieces included, as
/// `str::split(char::is_whitespace)` yields them.
pub open spec fn split_ws(s: Seq<u8>) -> Seq<Seq<u8>>
    decreases s.len(),
{
    let i = find_ws(s);
    if 0 <= i && i < s.len() {
        seq![s.take(i)] + split_ws(s.skip(i + 1))
    } else {
        seq![s]
    }
}

pub proof fn lemma_split_crlf_len(s: Seq<u8>)
    ensures
        split_crlf(s).len() >= 1,
    decreases s.len(),
{
}

/// Split `s` into its CRLF-separated lines.
pub fn split_lines(s: &[u8]) -> (r: Vec<Vec<u8>>)
    ensures
        r.deep_view() == split_crlf(s@),
{
    let mut r: Vec<Vec<u8>> = Vec::new();
    let mut start: usize = 0;
    proof {
        assert(s@.skip(0) =~= s@);
        assert(r.deep_view() =~= Seq::<Seq<u8>>::empty());
        assert(r.deep_view() + split_crlf(s@) =~= split_crlf(s@));
    }
    loop
        invariant
            start <= s@.len(),
            split_crlf(s@) == r.deep_view() + split_crlf(s@.skip(start as int)),
        decreases s@.len() - start,
    {
        let ghost suf = s@.skip(start as int);
        let ghost prev = r.deep_view();
        match find_crlf_from(s, start) {
            Some(j) => {
                let piece = vstd::slice::slice_to_vec(vstd::slice::slice_subrange(s, start, j));
                proof {
                    assert(find_crlf(suf) == j - start);
                    assert(crlf_at(suf, j - start)) by {
                        lemma_find_crlf_props(suf);
                    }
                    assert(suf.take(j - start) =~= s@.subrange(start as int, j as int));
                    assert(suf.skip(j - start + 2) =~= s@.skip(j + 2));
                    assert(split_crlf(suf) == seq![suf.take(j - start)] + split_crlf(
                        s@.skip(j + 2),
                    ));
                }
                r.push(piece);
                proof {
                    assert(piece.deep_view() =~= piece@);
                    assert(r.deep_view() =~= prev + seq![piece@]);
                    assert(split_crlf(s@) =~= r.deep_view() + split_crlf(s@.skip(j + 2)));
                }
                let _n: usize = s.len();
                start = j + 2;
            },
            None => {
                let piece = vstd::slice::slice_to_vec(
                    vstd::slice::slice_subrange(s, start, s.len()),
                );
                proof {
                    assert(split_crlf(suf) == seq![suf]);
                    assert(suf =~= s@.subrange(start as int, s@.len() as int));
                }
                r.push(piece);
                proof {
                    assert(piece.deep_view() =~= piece@);
                    assert(r.deep_view() =~= prev + seq![piece@]);
                    assert(split_crlf(s@) =~= r.deep_view());
                }
                return r;
            },
        }
    }
}

/// When `find_crlf` finds an index, a CRLF pair stands there and none
/// stands earlier.
pub proof fn lemma_find_crlf_props(s: Seq<u8>)
    ensures
        find_crlf(s) >= 0 ==> crlf_at(s, find_crlf(s)),
        find_crlf(s) >= 0 ==> forall|j: int| 0 <= j < find_crlf(s) ==> !crlf_at(s, j),
    decreases s.len(),
{
    if s.len() >= 2 && !(s[0] == 13 && s[1] == 10) {
        lemma_find_crlf_props(s.skip(1));
        if find_crlf(s) >= 0 {
            lemma_crlf_shift(s, find_crlf(s) - 1);
            assert forall|j: int| 0 <= j < find_crlf(s) implies !crlf_at(s, j) by {
                if j > 0 {
                    lemma_crlf_shift(s, j - 1);
                    assert(!crlf_at(s.skip(1), j - 1));
                }
            }
        }
    }
}

/// When `find_ws` finds an index, a whitespace byte stands there and
/// none stands earlier.
pub proof fn lemma_find_ws_props(s: Seq<u8>)
    ensures
        find_ws(s) >= 0 ==> 0 <= find_ws(s) < s.len(),
        find_ws(s) >= 0 ==> is_ws_byte(s[find_ws(s)]),
        find_ws(s) >= 0 ==> forall|j: int| 0 <= j < find_ws(s) ==> !is_ws_byte(#[trigger] s[j]),
    decreases s.len(),
{
    if s.len() > 0 && !is_ws_byte(s[0]) {
        lemma_find_ws_props(s.skip(1));
        if find_ws(s) >= 0 {
            assert(s.skip(1)[find_ws(s) - 1] == s[find_ws(s)]);
            assert forall|j: int| 0 <= j < find_ws(s) implies !is_ws_byte(s[j]) by {
                if j > 0 {
                    assert(s.skip(1)[j - 1] == s[j]);
                    assert(!is_ws_byte(s.skip(1)[j - 1]));
                }
            }
        }
    }
}

/// Split `s` into its whitespace-separated pieces.
pub fn split_whitespace(s: &[u8]) -> (r: Vec<Vec<u8>>)
    ensures
        r.deep_view() == split_ws(s@),
{
    let mut r: Vec<Vec<u8>> = Vec::new();
    let mut start: usize = 0;
    proof {
        assert(s@.skip(0) =~= s@);
        assert(r.deep_view() =~= Seq::<Seq<u8>>::empty());
        assert(r.deep_view() + split_ws(s@) =~= split_ws(s@));
    }
    loop
        invariant
            start <= s@.len(),
            split_ws(s@) == r.deep_view() + split_ws(s@.skip(start as int)),
        decreases s@.len() - start,
    {
        let ghost suf = s@.skip(start as int);
        let ghost prev = r.deep_view();
        match find_ws_from(s, start) {
            Some(j) => {
                let piece = vstd::slice::slice_to_vec(vstd::slice::slice_subrange(s, start, j));
                proof {
                    assert(find_ws(suf) == j - start);
                    lemma_find_ws_props(suf);
                    assert(suf.take(j - start) =~= s@.subrange(start as int, j as int));
                    assert(suf.skip(j - start + 1) =~= s@.skip(j + 1));
                    assert(split_ws(suf) == seq![suf.take(j - start)] + split_ws(s@.skip(j + 1)));
                }
                r.push(piece);
                proof {
                    assert(piece.deep_view() =~= piece@);
                    assert(r.deep_view() =~= prev + seq![piece@]);
                    assert(split_ws(s@) =~= r.deep_view() + split_ws(s@.skip(j + 1)));
                }
                let _n: usize = s.len();
                start = j + 1;
            },
            None => {
                let piece = vstd::slice::slice_to_vec(
                    vstd::slice::slice_subrange(s, start, s.len()),
                );
                proof {
                    assert(split_ws(suf) == seq![suf]);
                    assert(suf =~= s@.subrange(start as int, s@.len() as int));
                }
                r.push(piece);
                proof {
                    assert(piece.deep_view() =~= piece@);
                    assert(r.deep_view() =~= prev + seq![piece@]);
                    assert(split_ws(s@) =~= r.deep_view());
                }
                return r;
            },
        }
    }
}

/// `s` with leading whitespace removed.
pub open spec fn trim_front(s: Seq<u8>) -> Seq<u8>
    decreases s.len(),
{
    if s.len() > 0 && is_ws_byte(s[0]) {
        trim_front(s.skip(1))
    } else {
        s
    }
}

/// `s` with trailing whitespace removed.
pub open spec fn trim_back(s: Seq<u8>) -> Seq<u8>
    decreases s.len(),
{
    if s.len() > 0 && is_ws_byte(s[s.len() - 1]) {
        trim_back(s.take(s.len() - 1))
    } else {
        s
    }
}

/// `s` with whitespace removed from both ends, as `str::trim` does.
pub open spec fn trim_spec(s: Seq<u8>) -> Seq<u8> {
    trim_back(trim_front(s))
}

/// Trim whitespace from both ends of `s`.
pub fn trim_bytes(s: &[u8]) -> (r: Vec<u8>)
    ensures
        r@ == trim_spec(s@),
{
    let mut a: usize = 0;
    proof {
        assert(s@.skip(0) =~= s@);
    }
    while a < s.len() && is_ws(s[a])
        invariant
            a <= s@.len(),
            trim_front(s@) == trim_front(s@.skip(a as int)),
        decreases s@.len() - a,
    {
        proof {
            assert(s@.skip(a as int).skip(1) =~= s@.skip(a + 1));
        }
        a = a + 1;
    }
    let ghost t = s@.skip(a as int);
    proof {
        assert(trim_front(s@) == t);
    }
    let mut b: usize = s.len();
    proof {
        assert(t.take(b - a) =~= t);
    }
    while b > a && is_ws(s[b - 1])
        invariant
            a <= b <= s@.len(),
            t == s@.skip(a as int),
            trim_back(t) == trim_back(t.take(b - a)),
        decreases b,
    {
        proof {
            let p = t.take(b - a);
            assert(p[p.len() - 1] == s@[b - 1]);
            assert(p.take(p.len() - 1) =~= t.take(b - 1 - a));
        }
        b = b - 1;
    }
    proof {
        let p = t.take(b - a);
        if b > a {
            assert(p[p.len() - 1] == s@[b - 1]);
        }
        assert(trim_back(p) == p);
        assert(p =~= s@.subrange(a as int, b as int));
    }
    vstd::slice::slice_to_vec(vstd::slice::slice_subrange(s, a, b))
}

} // verus!
