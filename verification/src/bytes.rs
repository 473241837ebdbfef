//! Byte-level primitives: little-endian integers, UTF-8 validity, byte
//! string comparison, prefixes, substrings and decimal rendering.

use vstd::prelude::*;
use vstd::utf8::*;

verus! {

broadcast use vstd::seq_lib::group_seq_properties;

/// `n` bytes starting at `pos` lie inside `s`.
pub open spec fn in_bounds(s: Seq<u8>, pos: int, n: int) -> bool {
    0 <= pos && 0 <= n && pos + n <= s.len()
}

/// The little-endian value of the 4 bytes of `s` at `pos`.
pub open spec fn le_u32(s: Seq<u8>, pos: int) -> int {
    s[pos] as int + s[pos + 1] as int * 0x100 + s[pos + 2] as int * 0x1_0000
        + s[pos + 3] as int * 0x100_0000
}

/// The little-endian value of the 8 bytes of `s` at `pos`.
pub open spec fn le_u64(s: Seq<u8>, pos: int) -> int {
    le_u32(s, pos) + le_u32(s, pos + 4) * 0x1_0000_0000
}

/// Reads a little-endian `u32` at `pos`, or `None` when fewer than 4 bytes remain there.
pub fn read_u32_le(data: &[u8], pos: u64) -> (r: Option<u32>)
    ensures
        r == (if in_bounds(data@, pos as int, 4) {
            Some(le_u32(data@, pos as int) as u32)
        } else {
            None::<u32>
        }),
{
    let len = data.len() as u64;
    if pos > len || len - pos < 4 {
        return None;
    }
    let i = pos as usize;
    let v: u32 = data[i] as u32 + data[i + 1] as u32 * 0x100 + data[i + 2] as u32 * 0x1_0000
        + data[i + 3] as u32 * 0x100_0000;
    Some(v)
}

/// Reads a little-endian `u64` at `pos`, or `None` when fewer than 8 bytes remain there.
pub fn read_u64_le(data: &[u8], pos: u64) -> (r: Option<u64>)
    ensures
        r == (if in_bounds(data@, pos as int, 8) {
            Some(le_u64(data@, pos as int) as u64)
        } else {
            None::<u64>
        }),
{
    let len = data.len() as u64;
    if pos > len || len - pos < 8 {
        return None;
    }
    let i = pos as usize;
    let lo: u64 = data[i] as u64 + data[i + 1] as u64 * 0x100 + data[i + 2] as u64 * 0x1_0000
        + data[i + 3] as u64 * 0x100_0000;
    let hi: u64 = data[i + 4] as u64 + data[i + 5] as u64 * 0x100 + data[i + 6] as u64
        * 0x1_0000 + data[i + 7] as u64 * 0x100_0000;
    Some(lo + hi * 0x1_0000_0000)
}

/// Copies `data[start..end]` into a new vector.
pub fn copy_range(data: &[u8], start: usize, end: usize) -> (out: Vec<u8>)
    requires
        start <= end <= data@.len(),
    ensures
        out@ == data@.subrange(start as int, end as int),
{
    let mut out: Vec<u8> = Vec::new();
    let mut i = start;
    while i < end
        invariant
            start <= i <= end <= data@.len(),
            out@ == data@.subrange(start as int, i as int),
        decreases end - i,
    {
        out.push(data[i]);
        i = i + 1;
    }
    out
}

/// Byte length of the well-formed UTF-8 scalar that starts `data[i..end]`,
/// or 0 when that range does not start with one.
fn first_scalar_len(data: &[u8], i: usize, end: usize) -> (n: usize)
    requires
        i < end <= data@.len(),
    ensures
        n != 0 <==> valid_first_scalar(data@.subrange(i as int, end as int)),
        n != 0 ==> n == length_of_first_scalar(data@.subrange(i as int, end as int)),
{
    let ghost s = data@.subrange(i as int, end as int);
    let rem = end - i;
    let b0 = data[i];
    if b0 <= 0x7f {
        return 1;
    }
    if 0xc0 <= b0 && b0 <= 0xdf {
        if rem < 2 {
            return 0;
        }
        let b1 = data[i + 1];
        assert(s[1] == b1);
        if !(0x80 <= b1 && b1 <= 0xbf) {
            return 0;
        }
        let cp: u32 = (((b0 & 0x1F) as u32) << 6) | ((b1 & 0x3f) as u32);
        if 0x80 <= cp && !(0xD800 <= cp && cp <= 0xDFFF) {
            return 2;
        }
        return 0;
    }
    if 0xe0 <= b0 && b0 <= 0xef {
        if rem < 3 {
            return 0;
        }
        let b1 = data[i + 1];
        let b2 = data[i + 2];
        assert(s[1] == b1 && s[2] == b2);
        if !(0x80 <= b1 && b1 <= 0xbf && 0x80 <= b2 && b2 <= 0xbf) {
            return 0;
        }
        let cp: u32 = (((b0 & 0x0F) as u32) << 12) | (((b1 & 0x3f) as u32) << 6) | ((b2
            & 0x3f) as u32);
        if 0x800 <= cp && !(0xD800 <= cp && cp <= 0xDFFF) {
            return 3;
        }
        return 0;
    }
    if 0xf0 <= b0 && b0 <= 0xf7 {
        if rem < 4 {
            return 0;
        }
        let b1 = data[i + 1];
        let b2 = data[i + 2];
        let b3 = data[i + 3];
        assert(s[1] == b1 && s[2] == b2 && s[3] == b3);
        if !(0x80 <= b1 && b1 <= 0xbf && 0x80 <= b2 && b2 <= 0xbf && 0x80 <= b3 && b3
            <= 0xbf) {
            return 0;
        }
        let cp: u32 = (((b0 & 0x07) as u32) << 18) | (((b1 & 0x3f) as u32) << 12) | (((b2
            & 0x3f) as u32) << 6) | ((b3 & 0x3f) as u32);
        if 0x10000 <= cp && cp <= 0x10ffff && !(0xD800 <= cp && cp <= 0xDFFF) {
            return 4;
        }
        return 0;
    }
    0
}

/// Whether `data[start..end]` is well-formed UTF-8.
pub fn is_valid_utf8(data: &[u8], start: usize, end: usize) -> (b: bool)
    requires
        start <= end <= data@.len(),
    ensures
        b == valid_utf8(data@.subrange(start as int, end as int)),
{
    let mut i = start;
    while i < end
        invariant
            start <= i <= end <= data@.len(),
            valid_utf8(data@.subrange(start as int, end as int)) == valid_utf8(
                data@.subrange(i as int, end as int),
            ),
        decreases end - i,
    {
        let ghost s = data@.subrange(i as int, end as int);
        let n = first_scalar_len(data, i, end);
        if n == 0 {
            return false;
        }
        assert(pop_first_scalar(s) =~= data@.subrange(i + n, end as int));
        i = i + n;
    }
    assert(data@.subrange(i as int, end as int).len() == 0);
    true
}

/// Whether two byte strings are equal.
pub fn bytes_eq(a: &[u8], b: &[u8]) -> (r: bool)
    ensures
        r == (a@ == b@),
{
    if a.len() != b.len() {
        return false;
    }
    let mut i: usize = 0;
    while i < a.len()
        invariant
            a@.len() == b@.len(),
            i <= a@.len(),
            forall|j: int| 0 <= j < i ==> a@[j] == b@[j],
        decreases a@.len() - i,
    {
        if a[i] != b[i] {
            return false;
        }
        i = i + 1;
    }
    assert(a@ =~= b@);
    true
}

/// `p` is a prefix of `s`.
pub open spec fn has_prefix(s: Seq<u8>, p: Seq<u8>) -> bool {
    p.len() <= s.len() && s.subrange(0, p.len() as int) == p
}

/// `p` occurs in `s` starting at index `i`.
pub open spec fn occurs_at(s: Seq<u8>, p: Seq<u8>, i: int) -> bool {
    0 <= i && i + p.len() <= s.len() && s.subrange(i, i + p.len()) == p
}

/// `p` occurs somewhere in `s`.
pub open spec fn contains_bytes(s: Seq<u8>, p: Seq<u8>) -> bool {
    exists|i: int| occurs_at(s, p, i)
}

/// Whether `p` occurs in `s` at index `at`.
fn matches_at(s: &[u8], p: &[u8], at: usize) -> (r: bool)
    requires
        at + p@.len() <= s@.len(),
    ensures
        r == occurs_at(s@, p@, at as int),
{
    let n = s.len();
    let mut j: usize = 0;
    while j < p.len()
        invariant
            n == s@.len(),
            at + p@.len() <= s@.len(),
            j <= p@.len(),
            forall|k: int| 0 <= k < j ==> s@[at + k] == p@[k],
        decreases p@.len() - j,
    {
        if s[at + j] != p[j] {
            assert(s@.subrange(at as int, at + p@.len())[j as int] != p@[j as int]);
            return false;
        }
        j = j + 1;
    }
    assert(s@.subrange(at as int, at + p@.len()) =~= p@);
    true
}

/// Whether `s` starts with `p`.
pub fn starts_with(s: &[u8], p: &[u8]) -> (r: bool)
    ensures
        r == has_prefix(s@, p@),
{
    if p.len() > s.len() {
        return false;
    }
    matches_at(s, p, 0)
}

/// Whether `p` occurs anywhere in `s`.
pub fn contains(s: &[u8], p: &[u8]) -> (r: bool)
    ensures
        r == contains_bytes(s@, p@),
{
    if p.len() > s.len() {
        return false;
    }
    let last = s.len() - p.len();
    let mut at: usize = 0;
    while at <= last
        invariant
            last == s@.len() - p@.len(),
            at <= last + 1,
            forall|i: int| 0 <= i < at ==> !occurs_at(s@, p@, i),
        decreases last + 1 - at,
    {
        if matches_at(s, p, at) {
            return true;
        }
        if at == last {
            return false;
        }
        at = at + 1;
    }
    false
}

/// The decimal digits of `n`, most significant first, as ASCII bytes.
pub open spec fn decimal(n: nat) -> Seq<u8>
    decreases n,
{
    if n < 10 {
        seq![(48 + n) as u8]
    } else {
        decimal(n / 10).push((48 + n % 10) as u8)
    }
}

/// Appends the decimal rendering of `n` to `out`.
pub fn push_decimal(out: &mut Vec<u8>, n: usize)
    ensures
        final(out)@ == old(out)@ + decimal(n as nat),
    decreases n,
{
    if n >= 10 {
        push_decimal(out, n / 10);
    }
    let d = (n % 10) as u8;
    out.push(48 + d);
    assert(final(out)@ =~= old(out)@ + decimal(n as nat));
}

/// Appends the bytes of `s` to `out`.
pub fn push_all(out: &mut Vec<u8>, s: &[u8])
    ensures
        final(out)@ == old(out)@ + s@,
{
    let mut i: usize = 0;
    while i < s.len()
        invariant
            i <= s@.len(),
            out@ == old(out)@ + s@.subrange(0, i as int),
        decreases s@.len() - i,
    {
        out.push(s[i]);
        i = i + 1;
    }
    assert(s@.subrange(0, i as int) =~= s@);
}

} // verus!
