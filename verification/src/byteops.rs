use vstd::prelude::*;
use vstd::utf8::{decode_utf8, valid_utf8};

verus! {

/// `b` followed by zero bytes up to a total length of `n`.
pub open spec fn zero_pad(b: Seq<u8>, n: int) -> Seq<u8> {
    b + Seq::new((n - b.len()) as nat, |i: int| 0u8)
}

/// `b` with every trailing zero byte removed.
pub open spec fn trim_zeros(b: Seq<u8>) -> Seq<u8>
    decreases b.len(),
{
    if b.len() > 0 && b.last() == 0u8 {
        trim_zeros(b.drop_last())
    } else {
        b
    }
}

/// `p` is a prefix of `a`.
pub open spec fn is_prefix_of(p: Seq<u8>, a: Seq<u8>) -> bool {
    p.len() <= a.len() && a.subrange(0, p.len() as int) == p
}

/// Position of the first occurrence of `c` in `s`, or `s.len()` if absent.
pub open spec fn first_pos(s: Seq<u8>, c: u8) -> int
    decreases s.len(),
{
    if s.len() == 0 {
        0
    } else if s[0] == c {
        0
    } else {
        1 + first_pos(s.skip(1), c)
    }
}

pub proof fn lemma_first_pos_bounds(s: Seq<u8>, c: u8)
    ensures
        0 <= first_pos(s, c) <= s.len(),
        first_pos(s, c) < s.len() ==> s[first_pos(s, c)] == c,
        forall|j: int| 0 <= j < first_pos(s, c) ==> s[j] != c,
    decreases s.len(),
{
    if s.len() > 0 && s[0] != c {
        let t = s.skip(1);
        lemma_first_pos_bounds(t, c);
        assert(forall|j: int| 0 <= j < t.len() ==> t[j] == s[j + 1]);
        if first_pos(s, c) < s.len() {
            assert(s[first_pos(s, c)] == t[first_pos(t, c)]);
        }
        assert forall|j: int| 0 <= j < first_pos(s, c) implies s[j] != c by {
            if j > 0 {
                assert(s[j] == t[j - 1]);
            }
        }
    }
}

/// Trimming removes exactly the zero tail: if everything from `k` on is zero
/// and the byte before `k` (if any) is not, the trimmed value is the first `k` bytes.
pub proof fn lemma_trim_zeros_is(b: Seq<u8>, k: int)
    requires
        0 <= k <= b.len(),
        forall|j: int| k <= j < b.len() ==> b[j] == 0u8,
        k > 0 ==> b[k - 1] != 0u8,
    ensures
        trim_zeros(b) == b.subrange(0, k),
    decreases b.len(),
{
    if b.len() == 0 {
        assert(trim_zeros(b) =~= b.subrange(0, k));
    } else if k == b.len() {
        assert(b.last() != 0u8);
        assert(trim_zeros(b) =~= b.subrange(0, k));
    } else {
        assert(b.last() == 0u8);
        lemma_trim_zeros_is(b.drop_last(), k);
        assert(b.drop_last().subrange(0, k) =~= b.subrange(0, k));
    }
}

/// `b` does not end in a zero byte, so zero padding can be undone.
pub open spec fn no_trailing_zero(b: Seq<u8>) -> bool {
    b.len() == 0 || b.last() != 0u8
}

/// Trimming never lengthens a sequence.
pub proof fn lemma_trim_zeros_le(b: Seq<u8>)
    ensures
        trim_zeros(b).len() <= b.len(),
    decreases b.len(),
{
    if b.len() > 0 && b.last() == 0u8 {
        lemma_trim_zeros_le(b.drop_last());
    }
}

/// Padding with zeros and trimming gives the original back, provided the
/// original does not itself end in a zero byte.
pub proof fn lemma_trim_zero_pad(b: Seq<u8>, n: int)
    requires
        b.len() <= n,
        b.len() > 0 ==> b.last() != 0u8,
    ensures
        zero_pad(b, n).len() == n,
        trim_zeros(zero_pad(b, n)) == b,
{
    let p = zero_pad(b, n);
    lemma_trim_zeros_is(p, b.len() as int);
    assert(p.subrange(0, b.len() as int) =~= b);
}

/// Compares two byte slices for equality of their contents.
pub fn bytes_eq(a: &[u8], b: &[u8]) -> (r: bool)
    ensures
        r == (a@ == b@),
{
    if a.len() != b.len() {
        assert(a@ != b@);
        return false;
    }
    let n: usize = a.len();
    let mut i: usize = 0;
    while i < n
        invariant
            0 <= i <= n,
            n == a@.len() == b@.len(),
            forall|j: int| 0 <= j < i ==> a@[j] == b@[j],
        decreases n - i,
    {
        if a[i] != b[i] {
            return false;
        }
        i += 1;
    }
    assert(a@ =~= b@);
    true
}

/// Whether `p` is a prefix of `a`, byte for byte.
pub fn starts_with_bytes(a: &[u8], p: &[u8]) -> (r: bool)
    ensures
        r == is_prefix_of(p@, a@),
{
    if p.len() > a.len() {
        return false;
    }
    let head = vstd::slice::slice_subrange(a, 0, p.len());
    bytes_eq(head, p)
}

/// Length of `b` once its trailing zero bytes are dropped.
pub fn trimmed_len(b: &[u8]) -> (k: usize)
    ensures
        k <= b@.len(),
        b@.subrange(0, k as int) == trim_zeros(b@),
{
    let mut k: usize = b.len();
    while k > 0 && b[k - 1] == 0
        invariant
            0 <= k <= b@.len(),
            forall|j: int| k <= j < b@.len() ==> b@[j] == 0u8,
        decreases k,
    {
        k -= 1;
    }
    proof {
        lemma_trim_zeros_is(b@, k as int);
    }
    k
}

/// Index of the first occurrence of `c` in `b`, or `b.len()` if absent.
pub fn find_first(b: &[u8], c: u8) -> (r: usize)
    ensures
        r == first_pos(b@, c),
{
    let n: usize = b.len();
    let mut i: usize = 0;
    while i < n
        invariant
            0 <= i <= n,
            n == b@.len(),
            forall|j: int| 0 <= j < i ==> b@[j] != c,
        decreases n - i,
    {
        if b[i] == c {
            proof {
                lemma_first_pos_bounds(b@, c);
            }
            return i;
        }
        i += 1;
    }
    proof {
        lemma_first_pos_bounds(b@, c);
    }
    n
}

/// Copy of `b` extended with zero bytes to length `n`.
pub fn pad_to(b: &[u8], n: usize) -> (r: Vec<u8>)
    requires
        b@.len() <= n,
    ensures
        r@ == zero_pad(b@, n as int),
{
    let mut r = vstd::slice::slice_to_vec(b);
    while r.len() < n
        invariant
            b@.len() <= r@.len() <= n,
            r@.subrange(0, b@.len() as int) == b@,
            forall|j: int| b@.len() <= j < r@.len() ==> r@[j] == 0u8,
        decreases n - r.len(),
    {
        r.push(0u8);
        assert(r@.subrange(0, b@.len() as int) =~= b@);
    }
    assert(r@ =~= zero_pad(b@, n as int));
    r
}

/// What `String::from_utf8_lossy` makes of a byte sequence; it depends on the
/// bytes alone.
pub uninterp spec fn lossy_decode(b: Seq<u8>) -> Seq<char>;

/// Relies on `String::from_utf8_lossy`: the result is a function of the bytes
/// alone, and valid UTF-8 input decodes to exactly its own characters.
#[verifier::external_body]
pub fn bytes_to_string_lossy(b: &[u8]) -> (r: String)
    ensures
        r@ == lossy_decode(b@),
        valid_utf8(b@) ==> r@ == decode_utf8(b@),
{
    String::from_utf8_lossy(b).into_owned()
}

/// Relies on `String::from_utf8`: it succeeds exactly on valid UTF-8 and
/// decodes those bytes to their own characters.
#[verifier::external_body]
pub fn vec_to_string(v: Vec<u8>) -> (r: Option<String>)
    ensures
        match r {
            Some(s) => valid_utf8(v@) && s@ == decode_utf8(v@),
            None => !valid_utf8(v@),
        },
{
    String::from_utf8(v).ok()
}

} // verus!
