//! The order of an ordinary object's own property keys: integer-index keys
//! in ascending numeric order, then the other string keys in the order the
//! properties were created, then symbol keys in that order. Private slots
//! never show.

use vstd::prelude::*;

verus! {

/// What a slot's name is.
#[derive(Clone, Copy, Debug, PartialEq, Eq, Structural)]
pub enum KeyClass {
    /// A canonical integer index, with its value.
    Index(u32),
    /// Any other string.
    Name,
    /// A symbol.
    Symbol,
    /// A name the runtime cannot turn into a key; such a slot is skipped.
    Unnamed,
}

/// One property slot as the key collection sees it.
#[derive(Clone, Copy, Debug, PartialEq, Eq, Structural)]
pub struct OwnKeySlot {
    pub name_id: u32,
    pub private: bool,
    pub enumerable: bool,
    pub class: KeyClass,
}

pub open spec fn index_of(e: OwnKeySlot) -> u32 {
    match e.class {
        KeyClass::Index(i) => i,
        _ => 0,
    }
}

/// The slots of `s` for which `p` holds, in order.
pub open spec fn keep(s: Seq<OwnKeySlot>, p: spec_fn(OwnKeySlot) -> bool) -> Seq<OwnKeySlot>
    decreases s.len(),
{
    if s.len() == 0 {
        Seq::empty()
    } else if p(s.last()) {
        keep(s.drop_last(), p).push(s.last())
    } else {
        keep(s.drop_last(), p)
    }
}

/// The first position from `from` on whose index exceeds `key`.
pub open spec fn first_greater(s: Seq<OwnKeySlot>, key: u32, from: int) -> int
    decreases s.len() - from,
{
    if from < 0 || from >= s.len() {
        s.len() as int
    } else if index_of(s[from]) > key {
        from
    } else {
        first_greater(s, key, from + 1)
    }
}

/// `x` inserted after every slot whose index is at most its own.
pub open spec fn insert_by_index(s: Seq<OwnKeySlot>, x: OwnKeySlot) -> Seq<OwnKeySlot> {
    s.insert(first_greater(s, index_of(x), 0), x)
}

/// `s` sorted by index, keeping the order of equal indices.
pub open spec fn sort_by_index(s: Seq<OwnKeySlot>) -> Seq<OwnKeySlot>
    decreases s.len(),
{
    if s.len() == 0 {
        Seq::empty()
    } else {
        insert_by_index(sort_by_index(s.drop_last()), s.last())
    }
}

pub open spec fn name_ids(s: Seq<OwnKeySlot>) -> Seq<u32> {
    s.map_values(|e: OwnKeySlot| e.name_id)
}

pub open spec fn visible(e: OwnKeySlot, enumerable_only: bool) -> bool {
    !e.private && (!enumerable_only || e.enumerable)
}

pub open spec fn is_index_key(e: OwnKeySlot, enumerable_only: bool) -> bool {
    visible(e, enumerable_only) && e.class is Index
}

pub open spec fn is_name_key(e: OwnKeySlot, enumerable_only: bool) -> bool {
    visible(e, enumerable_only) && e.class is Name
}

pub open spec fn is_symbol_key(e: OwnKeySlot) -> bool {
    !e.private && e.class is Symbol
}

/// The own string keys, as name ids: integer indices ascending, then the
/// other names in creation order.
pub open spec fn spec_own_string_keys(slots: Seq<OwnKeySlot>, enumerable_only: bool) -> Seq<u32> {
    name_ids(
        sort_by_index(keep(slots, |e: OwnKeySlot| is_index_key(e, enumerable_only))) + keep(
            slots,
            |e: OwnKeySlot| is_name_key(e, enumerable_only),
        ),
    )
}

/// The own property keys, as name ids: the string keys, then the symbols;
/// or the symbols alone.
pub open spec fn spec_own_property_keys(slots: Seq<OwnKeySlot>, symbols_only: bool) -> Seq<u32> {
    let symbols = name_ids(keep(slots, |e: OwnKeySlot| is_symbol_key(e)));
    if symbols_only {
        symbols
    } else {
        spec_own_string_keys(slots, false) + symbols
    }
}

/// The slots of `slots` for which `p` holds, in order.
fn keep_slots(slots: &Vec<OwnKeySlot>, kind: u8, enumerable_only: bool) -> (r: Vec<OwnKeySlot>)
    requires
        kind < 3,
    ensures
        r@ == keep(
            slots@,
            |e: OwnKeySlot|
                if kind == 0 {
                    is_index_key(e, enumerable_only)
                } else if kind == 1 {
                    is_name_key(e, enumerable_only)
                } else {
                    is_symbol_key(e)
                },
        ),
{
    let ghost p = |e: OwnKeySlot|
        if kind == 0 {
            is_index_key(e, enumerable_only)
        } else if kind == 1 {
            is_name_key(e, enumerable_only)
        } else {
            is_symbol_key(e)
        };
    let mut out: Vec<OwnKeySlot> = Vec::new();
    let mut i: usize = 0;
    while i < slots.len()
        invariant
            i <= slots@.len(),
            out@ == keep(slots@.take(i as int), p),
            forall|e: OwnKeySlot|
                #[trigger] p(e) == if kind == 0 {
                    is_index_key(e, enumerable_only)
                } else if kind == 1 {
                    is_name_key(e, enumerable_only)
                } else {
                    is_symbol_key(e)
                },
        decreases slots@.len() - i,
    {
        let e = slots[i];
        let visible = !e.private && (!enumerable_only || e.enumerable);
        let take = if kind == 0 {
            visible && match e.class {
                KeyClass::Index(_) => true,
                _ => false,
            }
        } else if kind == 1 {
            visible && match e.class {
                KeyClass::Name => true,
                _ => false,
            }
        } else {
            !e.private && match e.class {
                KeyClass::Symbol => true,
                _ => false,
            }
        };
        proof {
            assert(slots@.take(i + 1).drop_last() =~= slots@.take(i as int));
            assert(slots@.take(i + 1).last() == e);
            assert(take == p(e));
        }
        if take {
            out.push(e);
        }
        i += 1;
    }
    proof {
        assert(slots@.take(slots@.len() as int) =~= slots@);
    }
    out
}

fn index_value(e: &OwnKeySlot) -> (r: u32)
    ensures
        r == index_of(*e),
{
    match e.class {
        KeyClass::Index(i) => i,
        _ => 0,
    }
}

/// Sorts by index, stably (insertion sort).
fn sorted_by_index(s: &Vec<OwnKeySlot>) -> (r: Vec<OwnKeySlot>)
    ensures
        r@ == sort_by_index(s@),
{
    let mut out: Vec<OwnKeySlot> = Vec::new();
    let mut i: usize = 0;
    while i < s.len()
        invariant
            i <= s@.len(),
            out@ == sort_by_index(s@.take(i as int)),
        decreases s@.len() - i,
    {
        let x = s[i];
        let key = index_value(&x);
        let mut k: usize = 0;
        while k < out.len()
            invariant
                k <= out@.len(),
                first_greater(out@, key, 0) == first_greater(out@, key, k as int),
            ensures
                k <= out@.len(),
                first_greater(out@, key, 0) == k,
            decreases out@.len() - k,
        {
            if index_value(&out[k]) > key {
                break;
            }
            k += 1;
        }
        out.insert(k, x);
        proof {
            assert(s@.take(i + 1).drop_last() =~= s@.take(i as int));
            assert(s@.take(i + 1).last() == x);
        }
        i += 1;
    }
    proof {
        assert(s@.take(s@.len() as int) =~= s@);
    }
    out
}

fn push_name_ids(out: &mut Vec<u32>, s: &Vec<OwnKeySlot>)
    ensures
        final(out)@ == old(out)@ + name_ids(s@),
{
    let mut i: usize = 0;
    while i < s.len()
        invariant
            i <= s@.len(),
            out@ == old(out)@ + name_ids(s@.take(i as int)),
        decreases s@.len() - i,
    {
        out.push(s[i].name_id);
        i += 1;
        proof {
            assert(old(out)@ + name_ids(s@.take(i as int)) =~= (old(out)@ + name_ids(s@.take(i - 1))).push(
                s@[i - 1].name_id,
            ));
        }
    }
    proof {
        assert(s@.take(s@.len() as int) =~= s@);
    }
}

/// The own string keys of an object, as name ids (only enumerable ones
/// when `enumerable_only`).
pub fn own_string_keys(slots: &Vec<OwnKeySlot>, enumerable_only: bool) -> (r: Vec<u32>)
    ensures
        r@ == spec_own_string_keys(slots@, enumerable_only),
{
    let indices = keep_slots(slots, 0, enumerable_only);
    let names = keep_slots(slots, 1, enumerable_only);
    let sorted = sorted_by_index(&indices);
    let mut out: Vec<u32> = Vec::new();
    push_name_ids(&mut out, &sorted);
    push_name_ids(&mut out, &names);
    proof {
        let ghost pi = |e: OwnKeySlot| is_index_key(e, enumerable_only);
        let ghost pn = |e: OwnKeySlot| is_name_key(e, enumerable_only);
        assert(indices@ == keep(slots@, pi)) by {
            lemma_keep_ext(slots@, |e: OwnKeySlot| if 0u8 == 0 { is_index_key(e, enumerable_only) } else if 0u8 == 1 {
                is_name_key(e, enumerable_only) } else { is_symbol_key(e) }, pi);
        }
        assert(names@ == keep(slots@, pn)) by {
            lemma_keep_ext(slots@, |e: OwnKeySlot| if 1u8 == 0 { is_index_key(e, enumerable_only) } else if 1u8 == 1 {
                is_name_key(e, enumerable_only) } else { is_symbol_key(e) }, pn);
        }
        assert(name_ids(sorted@ + names@) =~= name_ids(sorted@) + name_ids(names@));
        assert(out@ =~= Seq::<u32>::empty() + name_ids(sorted@) + name_ids(names@));
    }
    out
}

/// The own property keys of an object, as name ids: string keys then
/// symbols, or the symbols alone when `symbols_only`.
pub fn own_property_keys(slots: &Vec<OwnKeySlot>, symbols_only: bool) -> (r: Vec<u32>)
    ensures
        r@ == spec_own_property_keys(slots@, symbols_only),
{
    let symbols = keep_slots(slots, 2, false);
    let mut out: Vec<u32> = if symbols_only {
        Vec::new()
    } else {
        own_string_keys(slots, false)
    };
    let ghost before = out@;
    push_name_ids(&mut out, &symbols);
    proof {
        lemma_keep_ext(slots@, |e: OwnKeySlot| if 2u8 == 0 { is_index_key(e, false) } else if 2u8 == 1 {
            is_name_key(e, false) } else { is_symbol_key(e) }, |e: OwnKeySlot| is_symbol_key(e));
        if symbols_only {
            assert(out@ =~= name_ids(symbols@));
        }
    }
    out
}

/// Two predicates that agree keep the same slots.
proof fn lemma_keep_ext(s: Seq<OwnKeySlot>, p: spec_fn(OwnKeySlot) -> bool, q: spec_fn(OwnKeySlot) -> bool)
    requires
        forall|e: OwnKeySlot| #[trigger] p(e) == q(e),
    ensures
        keep(s, p) == keep(s, q),
    decreases s.len(),
{
    if s.len() > 0 {
        lemma_keep_ext(s.drop_last(), p, q);
    }
}

pub open spec fn ascending_by_index(s: Seq<OwnKeySlot>) -> bool {
    forall|i: int, j: int| 0 <= i < j < s.len() ==> index_of(#[trigger] s[i]) <= index_of(#[trigger] s[j])
}

proof fn lemma_first_greater(s: Seq<OwnKeySlot>, key: u32, from: int)
    requires
        0 <= from <= s.len(),
    ensures
        from <= first_greater(s, key, from) <= s.len(),
        forall|j: int| from <= j < first_greater(s, key, from) ==> index_of(#[trigger] s[j]) <= key,
        first_greater(s, key, from) < s.len() ==> index_of(s[first_greater(s, key, from)]) > key,
    decreases s.len() - from,
{
    if from < s.len() && index_of(s[from]) <= key {
        lemma_first_greater(s, key, from + 1);
    }
}

proof fn lemma_insert_sorted(s: Seq<OwnKeySlot>, x: OwnKeySlot)
    requires
        ascending_by_index(s),
    ensures
        ascending_by_index(insert_by_index(s, x)),
        insert_by_index(s, x).len() == s.len() + 1,
        insert_by_index(s, x).to_multiset() == s.to_multiset().insert(x),
{
    let pos = first_greater(s, index_of(x), 0);
    lemma_first_greater(s, index_of(x), 0);
    let t = s.insert(pos, x);
    vstd::seq_lib::to_multiset_insert(s, pos, x);
    assert forall|i: int, j: int| 0 <= i < j < t.len() implies index_of(#[trigger] t[i]) <= index_of(
        #[trigger] t[j],
    ) by {
        if j < pos {
            assert(t[i] == s[i] && t[j] == s[j]);
        } else if j == pos {
            assert(t[i] == s[i]);
        } else if i < pos {
            assert(t[i] == s[i] && t[j] == s[j - 1]);
            assert(index_of(s[i]) <= index_of(x));
            assert(index_of(s[pos]) > index_of(x));
            if pos < j - 1 {
                assert(index_of(s[pos]) <= index_of(s[j - 1]));
            }
        } else if i == pos {
            assert(t[j] == s[j - 1]);
            assert(index_of(s[pos]) > index_of(x));
            if pos < j - 1 {
                assert(index_of(s[pos]) <= index_of(s[j - 1]));
            }
        } else {
            assert(t[i] == s[i - 1] && t[j] == s[j - 1]);
        }
    }
}

/// The integer-index keys come out in ascending order of their index, each
/// of them exactly once.
pub proof fn law_index_keys_ascend(s: Seq<OwnKeySlot>)
    ensures
        ascending_by_index(sort_by_index(s)),
        sort_by_index(s).len() == s.len(),
        sort_by_index(s).to_multiset() == s.to_multiset(),
    decreases s.len(),
{
    if s.len() > 0 {
        law_index_keys_ascend(s.drop_last());
        lemma_insert_sorted(sort_by_index(s.drop_last()), s.last());
        vstd::seq_lib::to_multiset_build(s.drop_last(), s.last());
        assert(s.drop_last().push(s.last()) =~= s);
    } else {
        assert(sort_by_index(s) =~= s);
    }
}

/// Only visible slots of the right kind are kept, in their order: a slot
/// is kept exactly when it passes, and the kept slots keep their relative
/// order.
pub proof fn law_keep_selects(s: Seq<OwnKeySlot>, p: spec_fn(OwnKeySlot) -> bool, e: OwnKeySlot)
    ensures
        keep(s, p).contains(e) <==> (s.contains(e) && p(e)),
        keep(s, p).len() <= s.len(),
        s.len() > 0 ==> keep(s, p) == if p(s.last()) {
            keep(s.drop_last(), p).push(s.last())
        } else {
            keep(s.drop_last(), p)
        },
    decreases s.len(),
{
    if s.len() > 0 {
        law_keep_selects(s.drop_last(), p, e);
        assert(s =~= s.drop_last().push(s.last()));
        if keep(s, p).contains(e) {
            if p(s.last()) && e == s.last() {
            } else {
                let k = choose|k: int| 0 <= k < keep(s, p).len() && keep(s, p)[k] == e;
                if p(s.last()) {
                    assert(keep(s.drop_last(), p).contains(e) || e == s.last());
                    if e != s.last() {
                        assert(keep(s.drop_last(), p)[k] == e);
                    }
                } else {
                    assert(keep(s.drop_last(), p)[k] == e);
                }
                assert(s.drop_last().contains(e) ==> s.contains(e)) by {
                    if s.drop_last().contains(e) {
                        let m = choose|m: int| 0 <= m < s.drop_last().len() && s.drop_last()[m] == e;
                        assert(s[m] == e);
                    }
                }
            }
        }
        if s.contains(e) && p(e) {
            let m = choose|m: int| 0 <= m < s.len() && s[m] == e;
            if m == s.len() - 1 {
                assert(keep(s, p)[keep(s, p).len() - 1] == e);
            } else {
                assert(s.drop_last()[m] == e);
                assert(keep(s.drop_last(), p).contains(e));
                let k = choose|k: int| 0 <= k < keep(s.drop_last(), p).len() && keep(s.drop_last(), p)[k] == e;
                assert(keep(s, p)[k] == e);
            }
        }
    }
}

/// The string keys: the index keys in ascending index order, then the
/// other names in creation order; the property keys add the symbols after
/// them, or are the symbols alone.
pub proof fn law_own_keys_layout(slots: Seq<OwnKeySlot>, enumerable_only: bool, symbols_only: bool)
    ensures
        ({
            let idx = sort_by_index(keep(slots, |e: OwnKeySlot| is_index_key(e, enumerable_only)));
            let names = keep(slots, |e: OwnKeySlot| is_name_key(e, enumerable_only));
            let r = spec_own_string_keys(slots, enumerable_only);
            &&& ascending_by_index(idx)
            &&& r.len() == idx.len() + names.len()
            &&& forall|i: int| 0 <= i < idx.len() ==> r[i] == (#[trigger] idx[i]).name_id
            &&& forall|i: int| 0 <= i < names.len() ==> r[idx.len() + i] == (#[trigger] names[i]).name_id
        }),
        spec_own_property_keys(slots, true) == name_ids(keep(slots, |e: OwnKeySlot| is_symbol_key(e))),
        spec_own_property_keys(slots, false) == spec_own_string_keys(slots, false) + name_ids(
            keep(slots, |e: OwnKeySlot| is_symbol_key(e)),
        ),
{
    law_index_keys_ascend(keep(slots, |e: OwnKeySlot| is_index_key(e, enumerable_only)));
    let idx = sort_by_index(keep(slots, |e: OwnKeySlot| is_index_key(e, enumerable_only)));
    let names = keep(slots, |e: OwnKeySlot| is_name_key(e, enumerable_only));
    assert forall|i: int| 0 <= i < names.len() implies spec_own_string_keys(slots, enumerable_only)[idx.len() + i]
        == (#[trigger] names[i]).name_id by {
        assert((idx + names)[idx.len() + i] == names[i]);
    }
    assert forall|i: int| 0 <= i < idx.len() implies spec_own_string_keys(slots, enumerable_only)[i]
        == (#[trigger] idx[i]).name_id by {
        assert((idx + names)[i] == idx[i]);
    }
}

/// Which slots give keys: private slots never do; with `enumerable_only`,
/// only enumerable ones; an index slot gives an index key, a named one a
/// name key, a symbol slot a symbol key whatever its enumerability, and an
/// unnamed slot none.
pub proof fn law_key_kinds(e: OwnKeySlot, enumerable_only: bool)
    ensures
        is_index_key(e, enumerable_only) <==> (!e.private && (!enumerable_only || e.enumerable)
            && e.class is Index),
        is_name_key(e, enumerable_only) <==> (!e.private && (!enumerable_only || e.enumerable)
            && e.class == KeyClass::Name),
        is_symbol_key(e) <==> (!e.private && e.class == KeyClass::Symbol),
        e.class matches KeyClass::Index(i) ==> index_of(e) == i,
{
}

} // verus!
