//! The secret key: one optional key per slot of the universe.
//!
//! A store is made with every slot filled. After that the only way to change
//! it is to delete slots, and a deleted slot stays empty.
use crate::M;
use vstd::prelude::*;

verus! {

/// Whether slot `id` exists in `slots` and holds a key.
pub open spec fn is_present<S>(slots: Seq<Option<S>>, id: int) -> bool {
    0 <= id < slots.len() && slots[id] is Some
}

/// Whether `id` is one of `ids`.
pub open spec fn selects(ids: Seq<usize>, id: int) -> bool {
    exists|j: int| 0 <= j < ids.len() && #[trigger] ids[j] == id
}

/// `slots` with every slot that `ids` lists emptied.
pub open spec fn punctured<S>(slots: Seq<Option<S>>, ids: Seq<usize>) -> Seq<Option<S>> {
    Seq::new(
        slots.len(),
        |i: int|
            if selects(ids, i) {
                None
            } else {
                slots[i]
            },
    )
}

/// The first of `ids`, in the order given, whose slot holds a key.
pub open spec fn first_present<S>(slots: Seq<Option<S>>, ids: Seq<usize>) -> Option<usize>
    decreases ids.len(),
{
    if ids.len() == 0 {
        None
    } else if is_present(slots, ids[0] as int) {
        Some(ids[0])
    } else {
        first_present(slots, ids.drop_first())
    }
}

/// All slots filled, slot `i` with `keys[i]`.
pub open spec fn filled<S>(keys: Seq<S>) -> Seq<Option<S>> {
    Seq::new(keys.len(), |i: int| Some(keys[i]))
}

/// `first_present` finds a listed slot that holds a key and that no filled
/// slot comes before in the list; it finds nothing exactly if no listed slot
/// holds a key.
pub proof fn lemma_first_present<S>(slots: Seq<Option<S>>, ids: Seq<usize>)
    ensures
        match first_present(slots, ids) {
            Some(id) => exists|p: int|
                {
                    &&& 0 <= p < ids.len()
                    &&& #[trigger] ids[p] == id
                    &&& is_present(slots, id as int)
                    &&& forall|q: int|
                        0 <= q < p ==> !is_present(slots, #[trigger] ids[q] as int)
                },
            None => forall|q: int|
                0 <= q < ids.len() ==> !is_present(slots, #[trigger] ids[q] as int),
        },
    decreases ids.len(),
{
    if ids.len() == 0 {
    } else if is_present(slots, ids[0] as int) {
        assert(ids[0] == ids[0]);
    } else {
        let rest = ids.drop_first();
        lemma_first_present(slots, rest);
        match first_present(slots, rest) {
            Some(id) => {
                let p = choose|p: int|
                    {
                        &&& 0 <= p < rest.len()
                        &&& #[trigger] rest[p] == id
                        &&& is_present(slots, id as int)
                        &&& forall|q: int|
                            0 <= q < p ==> !is_present(slots, #[trigger] rest[q] as int)
                    };
                assert(ids[p + 1] == id);
                assert forall|q: int| 0 <= q < p + 1 implies !is_present(
                    slots,
                    #[trigger] ids[q] as int,
                ) by {
                    if q > 0 {
                        assert(rest[q - 1] == ids[q]);
                    }
                }
            },
            None => {
                assert forall|q: int| 0 <= q < ids.len() implies !is_present(
                    slots,
                    #[trigger] ids[q] as int,
                ) by {
                    if q > 0 {
                        assert(rest[q - 1] == ids[q]);
                    }
                }
            },
        }
    }
}

/// The secret key store: slot `i` holds the key of identity `i`, or nothing
/// once it has been deleted.
pub struct Sk<S> {
    slots: Vec<Option<S>>,
}

impl<S> View for Sk<S> {
    type V = Seq<Option<S>>;

    closed spec fn view(&self) -> Seq<Option<S>> {
        self.slots@
    }
}

impl<S> Sk<S> {
    /// A store has one slot for each identity of the universe.
    pub open spec fn wf(&self) -> bool {
        self@.len() == M
    }

    /// Makes the store of a fresh key: slot `i` holds `keys[i]`. There has to
    /// be exactly one key for each slot of the universe.
    pub fn from_keys(keys: Vec<S>) -> (store: Option<Sk<S>>)
        ensures
            store is Some <==> keys@.len() == M,
            store matches Some(store) ==> store.wf() && store@ == filled(keys@),
    {
        if keys.len() != M {
            return None;
        }
        let ghost all = keys@;
        let mut slots: Vec<Option<S>> = Vec::with_capacity(M);
        for key in it: keys
            invariant
                it.seq() == all,
                slots@.len() == it.index(),
                forall|j: int| 0 <= j < slots@.len() ==> slots@[j] == Some(all[j]),
        {
            slots.push(Some(key));
        }
        assert(slots@ =~= filled(all));
        Some(Sk { slots })
    }

    /// The key in slot `id`, if the slot exists and has not been deleted.
    pub fn get(&self, id: usize) -> (key: Option<&S>)
        ensures
            match key {
                Some(key) => is_present(self@, id as int) && self@[id as int] == Some(*key),
                None => !is_present(self@, id as int),
            },
    {
        if id < self.slots.len() {
            self.slots[id].as_ref()
        } else {
            None
        }
    }

    /// Deletes the keys of the slots that `ids` lists. A slot that is already
    /// empty stays empty, and an entry that names no slot changes nothing.
    pub fn delete(&mut self, ids: &[usize])
        ensures
            final(self)@ == punctured(old(self)@, ids@),
            old(self).wf() ==> final(self).wf(),
    {
        let mut n: usize = 0;
        while n < ids.len()
            invariant
                n <= ids.len(),
                self@ == punctured(old(self)@, ids@.take(n as int)),
            decreases ids.len() - n,
        {
            let id = ids[n];
            if id < self.slots.len() {
                self.slots[id] = None;
            }
            proof {
                let head = ids@.take(n as int);
                let next = ids@.take(n as int + 1);
                assert(next[n as int] == id);
                assert forall|i: int| 0 <= i < self@.len() implies self@[i] == punctured(
                    old(self)@,
                    next,
                )[i] by {
                    if selects(head, i) {
                        let j = choose|j: int| 0 <= j < head.len() && #[trigger] head[j] == i;
                        assert(next[j] == i);
                    } else if i == id {
                    } else {
                        if selects(next, i) {
                            let j = choose|j: int| 0 <= j < next.len() && #[trigger] next[j] == i;
                            assert(head[j] == i);
                        }
                    }
                }
                assert(self@ =~= punctured(old(self)@, next));
            }
            n += 1;
        }
        assert(ids@.take(ids@.len() as int) =~= ids@);
    }

    /// The first of `ids`, in the order given, whose slot holds a key,
    /// together with that key.
    pub fn first_present(&self, ids: &[usize]) -> (found: Option<(usize, &S)>)
        ensures
            match found {
                Some((id, key)) => first_present(self@, ids@) == Some(id) && self@[id as int]
                    == Some(*key),
                None => first_present(self@, ids@) is None,
            },
    {
        let mut n: usize = 0;
        assert(ids@.skip(0) =~= ids@);
        while n < ids.len()
            invariant
                n <= ids.len(),
                first_present(self@, ids@) == first_present(self@, ids@.skip(n as int)),
            decreases ids.len() - n,
        {
            let id = ids[n];
            proof {
                let rest = ids@.skip(n as int);
                assert(rest[0] == id);
                assert(rest.drop_first() =~= ids@.skip(n as int + 1));
            }
            if let Some(key) = self.get(id) {
                return Some((id, key));
            }
            n += 1;
        }
        assert(ids@.skip(ids@.len() as int).len() == 0);
        None
    }
}

} // verus!
