//! Tables of numbered slots, in which a new object takes the lowest free slot
//! and the table grows only when no slot is free.
use vstd::prelude::*;

verus! {

/// Slot `k` is free and every slot before it is taken.
pub open spec fn is_first_free<T>(s: Seq<Option<T>>, k: int) -> bool {
    &&& 0 <= k < s.len()
    &&& s[k] is None
    &&& forall|x: int| 0 <= x < k ==> #[trigger] s[x] is Some
}

/// The slot a new object takes: the lowest free slot, or a new slot at the
/// end when none is free.
pub open spec fn slot_for<T>(s: Seq<Option<T>>) -> int {
    if exists|k: int| is_first_free(s, k) {
        choose|k: int| is_first_free(s, k)
    } else {
        s.len() as int
    }
}

/// The table after `v` has been placed in the slot that `slot_for` names.
pub open spec fn place<T>(s: Seq<Option<T>>, v: T) -> Seq<Option<T>> {
    if slot_for(s) < s.len() {
        s.update(slot_for(s), Some(v))
    } else {
        s.push(Some(v))
    }
}

proof fn lemma_first_free_unique<T>(s: Seq<Option<T>>, a: int, b: int)
    requires
        is_first_free(s, a),
        is_first_free(s, b),
    ensures
        a == b,
{
    if a < b {
        assert(s[a] is Some);
    } else if b < a {
        assert(s[b] is Some);
    }
}

/// The lowest free slot of `list`, if any.
pub fn find_free_slot<T>(list: &Vec<Option<T>>) -> (r: Option<usize>)
    ensures
        r is Some <==> slot_for(list@) < list@.len(),
        r matches Some(k) ==> k == slot_for(list@),
        r is None ==> slot_for(list@) == list@.len(),
        forall|x: int| 0 <= x < slot_for(list@) ==> #[trigger] list@[x] is Some,
{
    let len = list.len();
    for i in 0..len
        invariant
            len == list.len(),
            forall|x: int| 0 <= x < i ==> #[trigger] list@[x] is Some,
    {
        if list[i].is_none() {
            proof {
                assert(is_first_free(list@, i as int));
                lemma_first_free_unique(list@, i as int, slot_for(list@));
            }
            return Some(i);
        }
    }
    assert(!exists|k: int| is_first_free(list@, k));
    None
}

/// Places `v` in the lowest free slot of `list`, or in a new slot at the end
/// when none is free, and returns the slot's index.
pub fn place_in_free_slot<T>(list: &mut Vec<Option<T>>, v: T) -> (id: usize)
    ensures
        id == slot_for(old(list)@),
        final(list)@ == place(old(list)@, v),
        final(list)@[id as int] == Some(v),
        id <= old(list)@.len(),
        forall|x: int| 0 <= x < id ==> #[trigger] old(list)@[x] is Some,
        forall|x: int|
            0 <= x < old(list)@.len() && x != id ==> #[trigger] final(list)@[x] == old(list)@[x],
        id < old(list)@.len() ==> old(list)@[id as int] is None && final(list)@.len() == old(list)@.len(),
        id == old(list)@.len() ==> final(list)@ == old(list)@.push(Some(v)),
{
    match find_free_slot(list) {
        Some(id) => {
            list.set(id, Some(v));
            id
        },
        None => {
            list.push(Some(v));
            list.len() - 1
        },
    }
}

} // verus!
