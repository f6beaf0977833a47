//! Objects: an atom whose body is `{id, otype}` followed by property bodies,
//! each padded to 8 bytes; and the query that picks property values by key.
//! An object buffer holds the object atom from its first byte; properties
//! start at byte 16.
use vstd::prelude::*;
use vstd::set_lib::set_int_range;

use crate::atom::{LV2Atom, LV2AtomObject, LV2AtomPropertyBody};
use crate::layout::{padded, read_atom, read_u32, u32_at};
use crate::sequence::walk_gap;

verus! {

/// Width of a property body's fixed part: key, context, value header.
pub const PROPERTY_HEADER_SIZE: u32 = 16;

/// Width of an object's fixed body: `id` then `otype`.
pub const OBJECT_BODY_SIZE: u32 = 8;

/// The size of the value atom of the property at `pos`.
pub open spec fn prop_value_size(s: Seq<u8>, pos: int) -> int {
    u32_at(s, pos + 8) as int
}

/// The distance from the property at `pos` to the next one: the padded
/// size of its fixed part and value body together.
pub open spec fn prop_step(s: Seq<u8>, pos: int) -> int {
    padded(16 + prop_value_size(s, pos))
}

/// The key of the property at `pos`.
pub open spec fn prop_key(s: Seq<u8>, pos: int) -> u32 {
    u32_at(s, pos)
}

/// The fixed part of the property at `pos`.
pub open spec fn property_at(s: Seq<u8>, pos: int) -> LV2AtomPropertyBody {
    LV2AtomPropertyBody {
        key: u32_at(s, pos),
        context: u32_at(s, pos + 4),
        value: LV2Atom { size: u32_at(s, pos + 8), type_: u32_at(s, pos + 12) },
    }
}

#[via_fn]
proof fn prop_offsets_decreases(s: Seq<u8>, pos: int, end: int) {
    crate::layout::lemma_pad_idempotent(16 + prop_value_size(s, pos));
}

#[via_fn]
proof fn props_in_decreases(s: Seq<u8>, pos: int, end: int) {
    crate::layout::lemma_pad_idempotent(16 + prop_value_size(s, pos));
}

/// The offsets of the properties visited from `pos` while the cursor is
/// below `end`.
pub open spec fn prop_offsets(s: Seq<u8>, pos: int, end: int) -> Seq<int>
    decreases walk_gap(pos, end)
    via prop_offsets_decreases
{
    if pos >= end {
        Seq::empty()
    } else {
        seq![pos] + prop_offsets(s, pos + prop_step(s, pos), end)
    }
}

/// Every property visited from `pos` towards `end` lies whole inside `s`.
pub open spec fn props_in(s: Seq<u8>, pos: int, end: int) -> bool
    decreases walk_gap(pos, end)
    via props_in_decreases
{
    if pos >= end {
        true
    } else {
        pos + 16 + prop_value_size(s, pos) <= s.len() && props_in(s, pos + prop_step(s, pos), end)
    }
}

/// The logical size of the object held by `s`.
pub open spec fn obj_size(s: Seq<u8>) -> int {
    u32_at(s, 0) as int
}

/// A well-formed object buffer: its properties lie inside the buffer.
pub open spec fn obj_wf(s: Seq<u8>) -> bool {
    16 <= s.len() && props_in(s, 16, 8 + obj_size(s))
}

/// The offsets of the properties of the object held by `s`, in stored order.
pub open spec fn obj_props(s: Seq<u8>) -> Seq<int> {
    prop_offsets(s, 16, 8 + obj_size(s))
}

/// Returns the offset of the first property of the object body at `body`.
pub fn lv2_atom_object_begin(body: usize) -> (r: usize)
    requires
        body + 8 <= usize::MAX,
    ensures
        r == body + 8,
{
    body + 8
}

/// Returns true iff the cursor `i` has reached the end of an object body at
/// `body` whose atom has the given (unpadded) size.
pub fn lv2_atom_object_is_end(body: usize, size: u32, i: usize) -> (r: bool)
    ensures
        r == (i >= body + size),
{
    i >= body && i - body >= size as usize
}

/// Returns the offset of the property following the one at `i`.
pub fn lv2_atom_object_next(buf: &[u8], i: usize) -> (r: usize)
    requires
        i + 16 + prop_value_size(buf@, i as int) <= buf@.len() <= isize::MAX,
    ensures
        r == i + prop_step(buf@, i as int),
{
    let size = read_u32(buf, i + 8);
    let whole: u64 = PROPERTY_HEADER_SIZE as u64 + size as u64;
    let step: u64 = (whole + 7) - (whole + 7) % 8;
    i + step as usize
}

/// Reads the fixed part of the property at `off`.
pub fn read_property(buf: &[u8], off: usize) -> (r: LV2AtomPropertyBody)
    requires
        off + 16 <= buf@.len(),
    ensures
        r == property_at(buf@, off as int),
{
    let _n = buf.len();
    LV2AtomPropertyBody {
        key: read_u32(buf, off),
        context: read_u32(buf, off + 4),
        value: read_atom(buf, off + 8),
    }
}

impl LV2AtomObject {
    /// Returns, in stored order, the offsets of the properties of the object
    /// held by `buf`.
    pub fn foreach(buf: &[u8]) -> (r: Vec<usize>)
        requires
            obj_wf(buf@),
            buf@.len() <= isize::MAX,
        ensures
            r@.len() == obj_props(buf@).len(),
            forall|k: int| 0 <= k < r@.len() ==> r@[k] == obj_props(buf@)[k],
    {
        let size = read_u32(buf, 0);
        let ghost end = 8 + size;
        let mut out: Vec<usize> = Vec::new();
        let mut it = lv2_atom_object_begin(OBJECT_BODY_SIZE as usize);
        while !lv2_atom_object_is_end(OBJECT_BODY_SIZE as usize, size, it)
            invariant
                buf@.len() <= isize::MAX,
                end == 8 + obj_size(buf@),
                end == 8 + size,
                it <= buf@.len() + 8,
                props_in(buf@, it as int, end),
                obj_props(buf@) =~= out@.map_values(|p: usize| p as int) + prop_offsets(
                    buf@,
                    it as int,
                    end,
                ),
            decreases walk_gap(it as int, end),
        {
            proof {
                crate::layout::lemma_pad_idempotent(16 + prop_value_size(buf@, it as int));
            }
            let ghost old_out = out@;
            out.push(it);
            let next = lv2_atom_object_next(buf, it);
            assert(out@.map_values(|p: usize| p as int) =~= old_out.map_values(|p: usize| p as int)
                + seq![it as int]);
            assert(prop_offsets(buf@, it as int, end) =~= seq![it as int] + prop_offsets(
                buf@,
                next as int,
                end,
            ));
            it = next;
        }
        assert(prop_offsets(buf@, it as int, end) =~= Seq::<int>::empty());
        assert forall|k: int| 0 <= k < out@.len() implies out@[k] == obj_props(buf@)[k] by {
            assert(out@.map_values(|p: usize| p as int)[k] == out@[k] as int);
        }
        out
    }
}

} // verus!

verus! {

/// A single entry in an object query.
#[derive(Debug, Clone, Copy)]
pub struct LV2AtomObjectQuery {
    /// Key to query (set by the caller); 0 ends a query list.
    pub key: u32,
    /// Offset of the found value atom (set by the query).
    pub value: Option<usize>,
}

/// A query entry for [`lv2_atom_object_get`].
#[derive(Debug, Clone, Copy)]
pub struct ObjectHelper {
    /// Property key.
    pub key: u32,
    /// Offset of the found value atom.
    pub atom: Option<usize>,
}

/// The number of entries of `q` from `i` on before the first with key 0.
pub open spec fn query_len(q: Seq<LV2AtomObjectQuery>, i: int) -> int
    decreases q.len() - i,
{
    if i < 0 || i >= q.len() || q[i].key == 0 {
        if i < 0 {
            0
        } else {
            i
        }
    } else {
        query_len(q, i + 1)
    }
}

/// The first entry at or after `j` and before `n` that asks for `key` and is
/// still unfilled, or `n` if there is none.
pub open spec fn open_slot(q: Seq<LV2AtomObjectQuery>, n: int, key: u32, j: int) -> int
    decreases n - j,
{
    if j >= n {
        n
    } else if q[j].key == key && q[j].value is None {
        j
    } else {
        open_slot(q, n, key, j + 1)
    }
}

/// `q` after the property with `key`, whose value atom is at `val`, is
/// offered to its first `n` entries.
pub open spec fn query_fill(q: Seq<LV2AtomObjectQuery>, n: int, key: u32, val: usize) -> Seq<
    LV2AtomObjectQuery,
> {
    let j = open_slot(q, n, key, 0);
    if j < n {
        q.update(j, (LV2AtomObjectQuery { key: q[j].key, value: Some(val) }))
    } else {
        q
    }
}

/// The entries after offering the properties at `offs` in order, and how
/// many entries were filled.
pub open spec fn query_run(s: Seq<u8>, q: Seq<LV2AtomObjectQuery>, n: int, offs: Seq<int>) -> (
    Seq<LV2AtomObjectQuery>,
    int,
)
    decreases offs.len(),
{
    if offs.len() == 0 {
        (q, 0)
    } else {
        let p = offs[0];
        let filled = if open_slot(q, n, prop_key(s, p), 0) < n {
            1int
        } else {
            0
        };
        let rest = query_run(s, query_fill(q, n, prop_key(s, p), (p + 8) as usize), n, offs.drop_first());
        (rest.0, rest.1 + filled)
    }
}

/// The entries of a query list seen as query entries.
pub open spec fn helpers_as_query(h: Seq<ObjectHelper>) -> Seq<LV2AtomObjectQuery> {
    h.map_values(|e: ObjectHelper| LV2AtomObjectQuery { key: e.key, value: e.atom })
}

proof fn lemma_query_len(q: Seq<LV2AtomObjectQuery>, i: int)
    requires
        0 <= i <= q.len(),
    ensures
        i <= query_len(q, i) <= q.len(),
        forall|k: int| i <= k < query_len(q, i) ==> q[k].key != 0,
        query_len(q, i) < q.len() ==> q[query_len(q, i)].key == 0,
    decreases q.len() - i,
{
    if i < q.len() && q[i].key != 0 {
        lemma_query_len(q, i + 1);
    }
}

proof fn lemma_open_slot(q: Seq<LV2AtomObjectQuery>, n: int, key: u32, j: int)
    requires
        0 <= j <= n <= q.len(),
    ensures
        j <= open_slot(q, n, key, j) <= n,
        open_slot(q, n, key, j) < n ==> q[open_slot(q, n, key, j)].key == key && q[open_slot(
            q,
            n,
            key,
            j,
        )].value is None,
        (forall|k: int| j <= k < n ==> q[k].value is Some) ==> open_slot(q, n, key, j) == n,
    decreases n - j,
{
    if j < n {
        lemma_open_slot(q, n, key, j + 1);
    }
}

proof fn lemma_run_full(s: Seq<u8>, q: Seq<LV2AtomObjectQuery>, n: int, offs: Seq<int>)
    requires
        0 <= n <= q.len(),
        forall|k: int| 0 <= k < n ==> q[k].value is Some,
    ensures
        query_run(s, q, n, offs) == (q, 0int),
    decreases offs.len(),
{
    if offs.len() > 0 {
        lemma_open_slot(q, n, prop_key(s, offs[0]), 0);
        lemma_run_full(s, q, n, offs.drop_first());
    }
}

/// Offers the properties of the object held by `buf`, in stored order, to
/// the first `n` entries of `slots`; stops once all of them are filled.
fn fill_slots(buf: &[u8], slots: &mut Vec<LV2AtomObjectQuery>, n: usize) -> (r: usize)
    requires
        obj_wf(buf@),
        buf@.len() <= isize::MAX,
        n <= old(slots)@.len(),
    ensures
        final(slots)@ == query_run(buf@, old(slots)@, n as int, obj_props(buf@)).0,
        r == query_run(buf@, old(slots)@, n as int, obj_props(buf@)).1,
        r <= n,
        final(slots)@.len() == old(slots)@.len(),
{
    let ghost q0 = slots@;
    let ghost all = obj_props(buf@);
    let size = read_u32(buf, 0);
    let ghost end = 8 + size;
    let ghost mut filled: Set<int> = Set::empty();
    let mut matches: usize = 0;
    let mut it = lv2_atom_object_begin(OBJECT_BODY_SIZE as usize);
    proof {
        vstd::set_lib::lemma_int_range(0, n as int);
    }
    while matches < n && !lv2_atom_object_is_end(OBJECT_BODY_SIZE as usize, size, it)
        invariant
            buf@.len() <= isize::MAX,
            end == 8 + obj_size(buf@),
            end == 8 + size,
            it <= buf@.len() + 8,
            props_in(buf@, it as int, end),
            all == obj_props(buf@),
            n <= slots@.len(),
            slots@.len() == q0.len(),
            query_run(buf@, slots@, n as int, prop_offsets(buf@, it as int, end)).0 == query_run(
                buf@,
                q0,
                n as int,
                all,
            ).0,
            query_run(buf@, slots@, n as int, prop_offsets(buf@, it as int, end)).1 + matches
                == query_run(buf@, q0, n as int, all).1,
            set_int_range(0, n as int).finite(),
            set_int_range(0, n as int).len() == n,
            filled.subset_of(set_int_range(0, n as int)),
            filled.finite(),
            filled.len() == matches,
            matches <= n,
            forall|k: int| #[trigger] filled.contains(k) ==> slots@[k].value is Some,
        decreases walk_gap(it as int, end),
    {
        proof {
            crate::layout::lemma_pad_idempotent(16 + prop_value_size(buf@, it as int));
            lemma_open_slot(slots@, n as int, prop_key(buf@, it as int), 0);
        }
        let ghost offs = prop_offsets(buf@, it as int, end);
        let ghost before = slots@;
        let key = read_u32(buf, it);
        let value = it + 8;
        let mut j: usize = 0;
        let mut found = false;
        while j < n && !found
            invariant
                n <= slots@.len(),
                j <= n,
                slots@.len() == before.len(),
                !found ==> slots@ == before && open_slot(before, n as int, key, 0) == open_slot(
                    before,
                    n as int,
                    key,
                    j as int,
                ),
                found ==> j >= 1 && open_slot(before, n as int, key, 0) == j - 1 && slots@
                    == before.update(
                    j - 1,
                    (LV2AtomObjectQuery { key: before[j - 1].key, value: Some(value) }),
                ),
            decreases n - j + (if found {
                0int
            } else {
                1
            }),
        {
            if slots[j].key == key && slots[j].value.is_none() {
                let k = slots[j].key;
                slots[j] = LV2AtomObjectQuery { key: k, value: Some(value) };
                found = true;
            }
            j = j + 1;
        }
        proof {
            assert(offs[0] == it as int);
            assert(offs.drop_first() =~= prop_offsets(buf@, it + prop_step(buf@, it as int), end));
            assert(slots@ == query_fill(before, n as int, key, value));
            if found {
                let js = (j - 1) as int;
                assert(!filled.contains(js));
                filled = filled.insert(js);
                assert(forall|k: int| #[trigger] filled.contains(k) ==> slots@[k].value is Some);
            }
        }
        if found {
            matches = matches + 1;
        }
        it = lv2_atom_object_next(buf, it);
    }
    proof {
        if matches == n {
            vstd::set_lib::lemma_subset_equality(filled, set_int_range(0, n as int));
            assert forall|k: int| 0 <= k < n implies slots@[k].value is Some by {
                assert(filled.contains(k));
            }
            lemma_run_full(buf@, slots@, n as int, prop_offsets(buf@, it as int, end));
        } else {
            assert(prop_offsets(buf@, it as int, end) =~= Seq::<int>::empty());
        }
    }
    matches
}

/// Gets an object's values for several keys in one pass.
///
/// `query` lists the keys to look up, ending at the first entry with key 0
/// (or at the end of the list). Each property, in stored order, fills the
/// first still unfilled entry that asks for its key with the offset of its
/// value atom; the walk stops once every entry is filled. Returns the
/// number of entries filled.
pub fn lv2_atom_object_query(buf: &[u8], query: &mut Vec<LV2AtomObjectQuery>) -> (r: i32)
    requires
        obj_wf(buf@),
        buf@.len() <= isize::MAX,
        old(query)@.len() <= i32::MAX,
    ensures
        final(query)@ == query_run(
            buf@,
            old(query)@,
            query_len(old(query)@, 0),
            obj_props(buf@),
        ).0,
        r == query_run(buf@, old(query)@, query_len(old(query)@, 0), obj_props(buf@)).1,
{
    let mut n: usize = 0;
    proof {
        lemma_query_len(query@, 0);
    }
    while n < query.len() && query[n].key != 0
        invariant
            n <= query@.len(),
            query_len(query@, 0) == query_len(query@, n as int),
        decreases query@.len() - n,
    {
        n = n + 1;
    }
    let matches = fill_slots(buf, query, n);
    matches as i32
}

/// Gets an object's values for the keys of `query`, as
/// [`lv2_atom_object_query`] does, over the whole list.
pub fn lv2_atom_object_get(buf: &[u8], query: &mut Vec<ObjectHelper>) -> (r: i32)
    requires
        obj_wf(buf@),
        buf@.len() <= isize::MAX,
        old(query)@.len() <= i32::MAX,
    ensures
        final(query)@.len() == old(query)@.len(),
        helpers_as_query(final(query)@) == query_run(
            buf@,
            helpers_as_query(old(query)@),
            old(query)@.len() as int,
            obj_props(buf@),
        ).0,
        r == query_run(
            buf@,
            helpers_as_query(old(query)@),
            old(query)@.len() as int,
            obj_props(buf@),
        ).1,
{
    let ghost h0 = query@;
    let mut slots: Vec<LV2AtomObjectQuery> = Vec::new();
    let mut i: usize = 0;
    while i < query.len()
        invariant
            i <= query@.len(),
            query@ == h0,
            slots@ =~= helpers_as_query(h0).subrange(0, i as int),
        decreases query@.len() - i,
    {
        slots.push(LV2AtomObjectQuery { key: query[i].key, value: query[i].atom });
        i = i + 1;
    }
    let n = query.len();
    let matches = fill_slots(buf, &mut slots, n);
    let ghost filled = slots@;
    let mut k: usize = 0;
    while k < n
        invariant
            n == query@.len(),
            n == h0.len(),
            slots@ == filled,
            filled.len() == n,
            k <= n,
            forall|m: int|
                0 <= m < k ==> query@[m] == (ObjectHelper { key: filled[m].key, atom: filled[m].value }),
            forall|m: int| k <= m < n ==> query@[m] == h0[m],
        decreases n - k,
    {
        query[k] = ObjectHelper { key: slots[k].key, atom: slots[k].value };
        k = k + 1;
    }
    proof {
        assert(helpers_as_query(h0).subrange(0, n as int) =~= helpers_as_query(h0));
        assert(helpers_as_query(query@) =~= filled);
    }
    matches as i32
}

} // verus!
