//! The hash-combining helpers of the C interface: single FNV-1a rounds with
//! the seed threaded through explicitly. Integers are hashed as their
//! little-endian bytes.
use vstd::prelude::*;

use crate::fnv::{fnv1a, Fnv1a32, FNV1_32A_INIT};
use crate::typedefs::st_index_t;

verus! {

/// The four bytes of `i`, least significant first.
pub open spec fn bytes_of_u32(i: u32) -> Seq<u8> {
    seq![i as u8, (i >> 8u32) as u8, (i >> 16u32) as u8, (i >> 24u32) as u8]
}

/// The eight bytes of `i`, least significant first.
pub open spec fn bytes_of_u64(i: u64) -> Seq<u8> {
    seq![
        i as u8,
        (i >> 8u64) as u8,
        (i >> 16u64) as u8,
        (i >> 24u64) as u8,
        (i >> 32u64) as u8,
        (i >> 40u64) as u8,
        (i >> 48u64) as u8,
        (i >> 56u64) as u8,
    ]
}

fn u32_bytes(i: u32) -> (r: Vec<u8>)
    ensures
        r@ == bytes_of_u32(i),
{
    let r = vec![i as u8, (i >> 8u32) as u8, (i >> 16u32) as u8, (i >> 24u32) as u8];
    proof {
        assert(r@ =~= bytes_of_u32(i));
    }
    r
}

fn u64_bytes(i: u64) -> (r: Vec<u8>)
    ensures
        r@ == bytes_of_u64(i),
{
    let r = vec![
        i as u8,
        (i >> 8u64) as u8,
        (i >> 16u64) as u8,
        (i >> 24u64) as u8,
        (i >> 32u64) as u8,
        (i >> 40u64) as u8,
        (i >> 48u64) as u8,
        (i >> 56u64) as u8,
    ];
    proof {
        assert(r@ =~= bytes_of_u64(i));
    }
    r
}

/// Hashes `data` with FNV-1a, starting from the low 32 bits of `h`.
pub fn st_hash(data: &[u8], h: st_index_t) -> (r: st_index_t)
    ensures
        r == fnv1a(h as u32, data@) as st_index_t,
{
    let mut hasher = Fnv1a32::with_seed(h as u32);
    hasher.write(data);
    hasher.finish() as st_index_t
}

/// One FNV-1a pass over the four bytes of `i`, starting from `h`.
pub fn st_hash_uint32(h: st_index_t, i: u32) -> (r: st_index_t)
    ensures
        r == fnv1a(h as u32, bytes_of_u32(i)) as st_index_t,
{
    let mut hasher = Fnv1a32::with_seed(h as u32);
    let bytes = u32_bytes(i);
    hasher.write(bytes.as_slice());
    hasher.finish() as st_index_t
}

/// One FNV-1a pass over the eight bytes of `i`, starting from `h`.
pub fn st_hash_uint(h: st_index_t, i: st_index_t) -> (r: st_index_t)
    ensures
        r == fnv1a(h as u32, bytes_of_u64(i as u64)) as st_index_t,
{
    let mut hasher = Fnv1a32::with_seed(h as u32);
    let bytes = u64_bytes(i as u64);
    hasher.write(bytes.as_slice());
    hasher.finish() as st_index_t
}

/// Finishes a hash: the state is the hash.
pub fn st_hash_end(h: st_index_t) -> (r: st_index_t)
    ensures
        r == h,
{
    h
}

/// Starts a hash from `h`: FNV-1a of its eight bytes from the standard
/// initial state.
pub fn st_hash_start(h: st_index_t) -> (r: st_index_t)
    ensures
        r == fnv1a(FNV1_32A_INIT, bytes_of_u64(h as u64)) as st_index_t,
{
    let mut hasher = Fnv1a32::new();
    let bytes = u64_bytes(h as u64);
    hasher.write(bytes.as_slice());
    hasher.finish() as st_index_t
}

/// `b` with ASCII upper-case letters turned to lower case.
pub open spec fn ascii_lower(b: u8) -> u8 {
    if 65 <= b <= 90 {
        (b + 32) as u8
    } else {
        b
    }
}

/// The bytes with ASCII letters folded to lower case.
pub open spec fn ascii_folded(bytes: Seq<u8>) -> Seq<u8> {
    bytes.map_values(|b: u8| ascii_lower(b))
}

fn fold_byte(b: u8) -> (r: u8)
    ensures
        r == ascii_lower(b),
{
    if 65 <= b && b <= 90 {
        b + 32
    } else {
        b
    }
}

/// Hash of a string key: FNV-1a of its bytes from the standard initial state.
pub fn str_hash(data: &[u8]) -> (r: st_index_t)
    ensures
        r == fnv1a(FNV1_32A_INIT, data@) as st_index_t,
{
    let mut hasher = Fnv1a32::new();
    hasher.write(data);
    hasher.finish() as st_index_t
}

/// Hash of a string key that ignores ASCII case: FNV-1a of the folded bytes.
pub fn str_case_hash(data: &[u8]) -> (r: st_index_t)
    ensures
        r == fnv1a(FNV1_32A_INIT, ascii_folded(data@)) as st_index_t,
{
    let mut folded: Vec<u8> = Vec::with_capacity(data.len());
    let mut i: usize = 0;
    while i < data.len()
        invariant
            0 <= i <= data@.len(),
            folded@ == ascii_folded(data@.subrange(0, i as int)),
        decreases data@.len() - i,
    {
        folded.push(fold_byte(data[i]));
        i = i + 1;
        proof {
            assert(folded@ =~= ascii_folded(data@.subrange(0, i as int)));
        }
    }
    proof {
        assert(data@.subrange(0, data@.len() as int) =~= data@);
    }
    let mut hasher = Fnv1a32::new();
    hasher.write(folded.as_slice());
    hasher.finish() as st_index_t
}

/// Three-way comparison of `a` and `b` from position `i` on, byte by byte
/// after folding ASCII case, over the positions both have.
pub open spec fn casecmp_from(a: Seq<u8>, b: Seq<u8>, i: int) -> i32
    decreases a.len() - i,
{
    if i < 0 || i >= a.len() || i >= b.len() {
        0i32
    } else if ascii_lower(a[i]) > ascii_lower(b[i]) {
        1i32
    } else if ascii_lower(a[i]) < ascii_lower(b[i]) {
        -1i32
    } else {
        casecmp_from(a, b, i + 1)
    }
}

/// Orders strings first by length, then by their case-folded bytes.
pub open spec fn strcasecmp_spec(a: Seq<u8>, b: Seq<u8>) -> i32 {
    if a.len() > b.len() {
        1i32
    } else if a.len() < b.len() {
        -1i32
    } else {
        casecmp_from(a, b, 0)
    }
}

/// Compares the bytes of two NUL-terminated strings position by position
/// from `i` on, over the positions both have: a string that ends first (a
/// NUL byte) is smaller, two that end together are equal, and otherwise the
/// case-folded bytes decide.
pub open spec fn strncasecmp_from(a: Seq<u8>, b: Seq<u8>, i: int) -> i32
    decreases a.len() - i,
{
    if i < 0 || i >= a.len() || i >= b.len() {
        0i32
    } else if a[i] == 0 && b[i] == 0 {
        0i32
    } else if b[i] == 0 {
        1i32
    } else if a[i] == 0 {
        -1i32
    } else if ascii_lower(a[i]) > ascii_lower(b[i]) {
        1i32
    } else if ascii_lower(a[i]) < ascii_lower(b[i]) {
        -1i32
    } else {
        strncasecmp_from(a, b, i + 1)
    }
}

/// Compares two strings ignoring ASCII case: a longer string is greater;
/// strings of one length compare by their first differing folded byte.
/// Returns 0 exactly when they are equal up to case.
pub fn st_locale_insensitive_strcasecmp(s1: &[u8], s2: &[u8]) -> (r: i32)
    ensures
        r == strcasecmp_spec(s1@, s2@),
        (r == 0) == (ascii_folded(s1@) == ascii_folded(s2@)),
{
    if s1.len() > s2.len() {
        proof {
            assert(ascii_folded(s1@).len() != ascii_folded(s2@).len());
        }
        return 1;
    } else if s1.len() < s2.len() {
        proof {
            assert(ascii_folded(s1@).len() != ascii_folded(s2@).len());
        }
        return -1;
    }
    let mut i: usize = 0;
    while i < s1.len()
        invariant
            s1@.len() == s2@.len(),
            0 <= i <= s1@.len(),
            casecmp_from(s1@, s2@, 0) == casecmp_from(s1@, s2@, i as int),
            forall|j: int| 0 <= j < i ==> ascii_lower(s1@[j]) == ascii_lower(s2@[j]),
        decreases s1@.len() - i,
    {
        let c1 = fold_byte(s1[i]);
        let c2 = fold_byte(s2[i]);
        if c1 > c2 {
            proof {
                assert(ascii_folded(s1@)[i as int] != ascii_folded(s2@)[i as int]);
            }
            return 1;
        } else if c1 < c2 {
            proof {
                assert(ascii_folded(s1@)[i as int] != ascii_folded(s2@)[i as int]);
            }
            return -1;
        }
        i = i + 1;
    }
    proof {
        assert(ascii_folded(s1@) =~= ascii_folded(s2@));
    }
    0i32
}

/// The length of a prefix of at most `n` of `len` items.
pub open spec fn prefix_len(n: int, len: int) -> int {
    if n < len {
        n
    } else {
        len
    }
}

/// Compares at most `n` bytes of two NUL-terminated strings ignoring ASCII
/// case (see `strncasecmp_from`); `s1` and `s2` hold those bytes.
pub fn st_locale_insensitive_strncasecmp(s1: &[u8], s2: &[u8], n: usize) -> (r: i32)
    ensures
        r == strncasecmp_from(
            s1@.subrange(0, prefix_len(n as int, s1@.len() as int)),
            s2@.subrange(0, prefix_len(n as int, s2@.len() as int)),
            0,
        ),
{
    let ghost a = s1@.subrange(0, prefix_len(n as int, s1@.len() as int));
    let ghost b = s2@.subrange(0, prefix_len(n as int, s2@.len() as int));
    let mut i: usize = 0;
    while i < n && i < s1.len() && i < s2.len()
        invariant
            0 <= i,
            i <= a.len() && i <= b.len(),
            a == s1@.subrange(0, prefix_len(n as int, s1@.len() as int)),
            b == s2@.subrange(0, prefix_len(n as int, s2@.len() as int)),
            strncasecmp_from(a, b, 0) == strncasecmp_from(a, b, i as int),
        decreases n - i,
    {
        let left = s1[i];
        let right = s2[i];
        proof {
            assert(a[i as int] == left && b[i as int] == right);
        }
        if left == 0 && right == 0 {
            return 0;
        } else if right == 0 {
            return 1;
        } else if left == 0 {
            return -1;
        }
        let c1 = fold_byte(left);
        let c2 = fold_byte(right);
        if c1 > c2 {
            return 1;
        } else if c1 < c2 {
            return -1;
        }
        i = i + 1;
    }
    0
}

} // verus!
