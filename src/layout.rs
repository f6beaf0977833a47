//! Byte-level layout of atoms: integer fields, headers, padding and
//! whole-atom comparison.
use vstd::prelude::*;

use crate::atom::LV2Atom;

verus! {

/// Width of an atom header (`size` then `type`).
pub const ATOM_HEADER_SIZE: u32 = 8;

/// The little-endian `u32` stored in the four bytes at `i`.
pub open spec fn u32_at(s: Seq<u8>, i: int) -> u32 {
    (s[i] as u32) | ((s[i + 1] as u32) << 8u32) | ((s[i + 2] as u32) << 16u32) | ((s[i + 3] as u32)
        << 24u32)
}

/// The little-endian `u64` stored in the eight bytes at `i`.
pub open spec fn u64_at(s: Seq<u8>, i: int) -> u64 {
    (u32_at(s, i) as u64) | ((u32_at(s, i + 4) as u64) << 32u64)
}

/// `s` with the little-endian encoding of `v` stored at `i`.
pub open spec fn with_u32(s: Seq<u8>, i: int, v: u32) -> Seq<u8> {
    s.update(i, (v & 0xffu32) as u8).update(i + 1, ((v >> 8u32) & 0xffu32) as u8).update(
        i + 2,
        ((v >> 16u32) & 0xffu32) as u8,
    ).update(i + 3, ((v >> 24u32) & 0xffu32) as u8)
}

/// The header of the atom whose first byte is at `i`.
pub open spec fn atom_at(s: Seq<u8>, i: int) -> LV2Atom {
    LV2Atom { size: u32_at(s, i), type_: u32_at(s, i + 4) }
}

/// `n` rounded up to the next multiple of 8.
pub open spec fn padded(n: int) -> int {
    n + 7 - (n + 7) % 8
}

proof fn lemma_bytes_of_u32(v: u32)
    by (bit_vector)
    ensures
        (((v & 0xffu32) as u8) as u32) | ((((v >> 8u32) & 0xffu32) as u8 as u32) << 8u32) | ((((v
            >> 16u32) & 0xffu32) as u8 as u32) << 16u32) | ((((v >> 24u32) & 0xffu32) as u8 as u32)
            << 24u32) == v,
{
}

/// Reading back a stored `u32` gives the stored value.
pub proof fn lemma_with_u32(s: Seq<u8>, i: int, v: u32)
    requires
        0 <= i,
        i + 4 <= s.len(),
    ensures
        with_u32(s, i, v).len() == s.len(),
        u32_at(with_u32(s, i, v), i) == v,
        forall|j: int| 0 <= j < s.len() && !(i <= j < i + 4) ==> #[trigger] with_u32(s, i, v)[j] == s[j],
{
    lemma_bytes_of_u32(v);
}

/// Padding is idempotent, never shrinks its argument, and lands on a
/// multiple of 8 less than 8 bytes above it.
pub proof fn lemma_pad_idempotent(n: int)
    ensures
        padded(padded(n)) == padded(n),
        padded(n) >= n,
        padded(n) < n + 8,
        padded(n) % 8 == 0,
{
}

/// Reads the little-endian `u32` at `off`.
pub fn read_u32(buf: &[u8], off: usize) -> (r: u32)
    requires
        off + 4 <= buf@.len(),
    ensures
        r == u32_at(buf@, off as int),
{
    (buf[off] as u32) | ((buf[off + 1] as u32) << 8u32) | ((buf[off + 2] as u32) << 16u32) | ((
    buf[off + 3] as u32) << 24u32)
}

/// Reads the little-endian `u64` at `off`.
pub fn read_u64(buf: &[u8], off: usize) -> (r: u64)
    requires
        off + 8 <= buf@.len(),
    ensures
        r == u64_at(buf@, off as int),
{
    // the length is a usize, which bounds the offsets below
    let _n = buf.len();
    let lo = read_u32(buf, off);
    let hi = read_u32(buf, off + 4);
    (lo as u64) | ((hi as u64) << 32u64)
}

/// Stores `v` little-endian at `off`, leaving every other byte alone.
pub fn write_u32(buf: &mut Vec<u8>, off: usize, v: u32)
    requires
        off + 4 <= old(buf)@.len(),
    ensures
        final(buf)@ == with_u32(old(buf)@, off as int, v),
        u32_at(final(buf)@, off as int) == v,
{
    let _n = buf.len();
    proof {
        lemma_with_u32(buf@, off as int, v);
    }
    buf[off] = (v & 0xffu32) as u8;
    buf[off + 1] = ((v >> 8u32) & 0xffu32) as u8;
    buf[off + 2] = ((v >> 16u32) & 0xffu32) as u8;
    buf[off + 3] = ((v >> 24u32) & 0xffu32) as u8;
}

/// Reads the atom header at `off`.
pub fn read_atom(buf: &[u8], off: usize) -> (r: LV2Atom)
    requires
        off + 8 <= buf@.len(),
    ensures
        r == atom_at(buf@, off as int),
{
    let _n = buf.len();
    LV2Atom { size: read_u32(buf, off), type_: read_u32(buf, off + 4) }
}

/// Pads a size to 64 bits.
pub fn lv2_atom_pad_size(size: u32) -> (r: u32)
    requires
        size <= u32::MAX - 7,
    ensures
        r == padded(size as int),
{
    assert(((size + 7) as u32 & !7u32) == (size + 7) - (size + 7) % 8) by (bit_vector)
        requires
            size <= u32::MAX - 7,
    ;
    (size + 7) & !7u32
}

/// Returns the total size of `atom`, header included.
pub fn lv2_atom_total_size(atom: &LV2Atom) -> (r: u32)
    requires
        atom.size <= u32::MAX - 8,
    ensures
        r == ATOM_HEADER_SIZE + atom.size,
{
    ATOM_HEADER_SIZE + atom.size
}

/// Returns true iff `atom` is absent, or is the null atom (type and size 0).
pub fn lv2_atom_is_null(atom: Option<&LV2Atom>) -> (r: bool)
    ensures
        r == match atom {
            None => true,
            Some(a) => a.type_ == 0 && a.size == 0,
        },
{
    match atom {
        None => true,
        Some(a) => a.type_ == 0 && a.size == 0,
    }
}

} // verus!

verus! {

/// `s` holds a whole atom from its first byte: header and `size` body bytes.
pub open spec fn holds_atom(s: Seq<u8>) -> bool {
    8 <= s.len() && 8 + u32_at(s, 0) <= s.len()
}

/// The body bytes of the atom at the start of `s`.
pub open spec fn atom_body(s: Seq<u8>) -> Seq<u8> {
    s.subrange(8, 8 + u32_at(s, 0))
}

/// Two atoms are equal when their types, their sizes and their body bytes are.
pub open spec fn atoms_equal(a: Seq<u8>, b: Seq<u8>) -> bool {
    atom_at(a, 0) == atom_at(b, 0) && atom_body(a) == atom_body(b)
}

/// Atoms with equal headers are unequal as soon as one body byte differs.
pub proof fn lemma_equals_single_byte(a: Seq<u8>, b: Seq<u8>, k: int)
    requires
        holds_atom(a),
        holds_atom(b),
        atom_at(a, 0) == atom_at(b, 0),
        0 <= k < u32_at(a, 0),
        a[8 + k] != b[8 + k],
    ensures
        !atoms_equal(a, b),
{
    assert(atom_body(a)[k] != atom_body(b)[k]);
}

/// Returns true iff the atoms at the start of `a` and of `b` are equal: same
/// type, same size and identical body bytes.
pub fn lv2_atom_equals(a: &[u8], b: &[u8]) -> (r: bool)
    requires
        holds_atom(a@),
        holds_atom(b@),
    ensures
        r == atoms_equal(a@, b@),
{
    let _na = a.len();
    let _nb = b.len();
    let ha = read_atom(a, 0);
    let hb = read_atom(b, 0);
    if ha.type_ != hb.type_ || ha.size != hb.size {
        return false;
    }
    let n = ha.size as usize;
    let mut k: usize = 0;
    while k < n
        invariant
            n == u32_at(a@, 0),
            n == u32_at(b@, 0),
            8 + n <= a@.len(),
            8 + n <= b@.len(),
            a@.len() <= usize::MAX,
            k <= n,
            forall|j: int| 8 <= j < 8 + k ==> a@[j] == b@[j],
        decreases n - k,
    {
        if a[8 + k] != b[8 + k] {
            assert(atom_body(a@)[k as int] != atom_body(b@)[k as int]);
            return false;
        }
        k = k + 1;
    }
    assert(atom_body(a@) =~= atom_body(b@));
    true
}

} // verus!
