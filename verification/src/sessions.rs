//! Request ids for requests that await a reply.
//!
//! Ids start at 1 (0 marks a request that wants no reply) and are recycled
//! first-in, first-out once their reply has been taken.
use vstd::prelude::*;
use std::collections::{HashMap, VecDeque};

verus! {

/// The sessions as plain values: the live items by id, and the ids free for
/// reuse, oldest first.
#[verifier::ext_equal]
pub struct SessionsView<T> {
    pub map: Map<u64, T>,
    pub free: Seq<u64>,
}

/// `k` is live or free.
pub open spec fn id_known<T>(v: SessionsView<T>, k: u64) -> bool {
    v.map.contains_key(k) || v.free.contains(k)
}

/// Every id from 1 up to the number of ids ever handed out is either live or
/// free, never both, and no id is free twice.
pub open spec fn sessions_wf<T>(v: SessionsView<T>) -> bool {
    &&& v.map.dom().finite()
    &&& v.free.no_duplicates()
    &&& forall|k: u64| v.map.contains_key(k) ==> !v.free.contains(k)
    &&& forall|k: u64| #[trigger] id_known(v, k) <==> 1 <= k <= v.map.len() + v.free.len()
}

/// Another id can be handed out without leaving `u64`.
pub open spec fn sessions_have_room<T>(v: SessionsView<T>) -> bool {
    v.map.len() + v.free.len() < u64::MAX
}

/// Storing `item`: under the oldest free id if there is one, else under the
/// next id never used.
pub open spec fn spec_insert<T>(v: SessionsView<T>, item: T) -> (SessionsView<T>, u64) {
    if v.free.len() > 0 {
        let id = v.free[0];
        (SessionsView { map: v.map.insert(id, item), free: v.free.drop_first() }, id)
    } else {
        let id = (v.map.len() + 1) as u64;
        (SessionsView { map: v.map.insert(id, item), free: v.free }, id)
    }
}

/// Taking the item stored under `id`, which becomes free.
pub open spec fn spec_take<T>(v: SessionsView<T>, id: u64) -> (SessionsView<T>, Option<T>) {
    if v.map.contains_key(id) {
        (SessionsView { map: v.map.remove(id), free: v.free.push(id) }, Some(v.map[id]))
    } else {
        (v, None)
    }
}

/// Inserting keeps the sessions well formed and hands out an id that is not
/// 0 and not live.
pub proof fn lemma_insert_fresh<T>(v: SessionsView<T>, item: T)
    requires
        sessions_wf(v),
        sessions_have_room(v),
    ensures
        sessions_wf(spec_insert(v, item).0),
        spec_insert(v, item).1 >= 1,
        !v.map.contains_key(spec_insert(v, item).1),
        spec_insert(v, item).0.map.len() + spec_insert(v, item).0.free.len() == v.map.len()
            + v.free.len() + (if v.free.len() > 0 { 0int } else { 1int }),
{
    let (w, id) = spec_insert(v, item);
    if v.free.len() > 0 {
        assert(v.free.contains(id));
        assert(id_known(v, id));
        assert(!v.map.contains_key(id));
        assert(w.map.len() == v.map.len() + 1);
        assert forall|k: u64| w.free.contains(k) implies v.free.contains(k) && k != id by {
            let j = choose|j: int| 0 <= j < w.free.len() && w.free[j] == k;
            assert(v.free[j + 1] == k);
        }
        assert forall|k: u64| v.free.contains(k) && k != id implies w.free.contains(k) by {
            let j = choose|j: int| 0 <= j < v.free.len() && v.free[j] == k;
            assert(j != 0);
            assert(w.free[j - 1] == k);
        }
        assert(w.free.no_duplicates()) by {
            assert forall|a: int, b: int| 0 <= a < w.free.len() && 0 <= b < w.free.len() && a != b
                implies w.free[a] != w.free[b] by {
                assert(w.free[a] == v.free[a + 1]);
                assert(w.free[b] == v.free[b + 1]);
            }
        }
        assert forall|k: u64| #[trigger] id_known(w, k) <==> 1 <= k <= w.map.len() + w.free.len() by {
            assert(id_known(v, k) <==> 1 <= k <= v.map.len() + v.free.len());
        }
        assert forall|k: u64| w.map.contains_key(k) implies !w.free.contains(k) by {
            if k != id {
                assert(v.map.contains_key(k));
            }
        }
    } else {
        assert(id_known(v, id) <==> 1 <= id <= v.map.len() + v.free.len());
        assert(!v.map.contains_key(id));
        assert(w.map.len() == v.map.len() + 1);
        assert forall|k: u64| #[trigger] id_known(w, k) <==> 1 <= k <= w.map.len() + w.free.len() by {
            assert(id_known(v, k) <==> 1 <= k <= v.map.len() + v.free.len());
        }
    }
}

/// Taking keeps the sessions well formed.
pub proof fn lemma_take_wf<T>(v: SessionsView<T>, id: u64)
    requires
        sessions_wf(v),
    ensures
        sessions_wf(spec_take(v, id).0),
        spec_take(v, id).0.map.len() + spec_take(v, id).0.free.len() == v.map.len()
            + v.free.len(),
{
    if v.map.contains_key(id) {
        let w = spec_take(v, id).0;
        assert(w.map.len() == v.map.len() - 1);
        assert forall|k: u64| w.free.contains(k) <==> (v.free.contains(k) || k == id) by {
            if w.free.contains(k) {
                let j = choose|j: int| 0 <= j < w.free.len() && w.free[j] == k;
                if j < v.free.len() {
                    assert(v.free[j] == k);
                }
            }
            if v.free.contains(k) {
                let j = choose|j: int| 0 <= j < v.free.len() && v.free[j] == k;
                assert(w.free[j] == k);
            }
            if k == id {
                assert(w.free[v.free.len() as int] == k);
            }
        }
        assert(w.free.no_duplicates()) by {
            assert forall|a: int, b: int| 0 <= a < w.free.len() && 0 <= b < w.free.len() && a != b
                implies w.free[a] != w.free[b] by {
                if a < v.free.len() && b < v.free.len() {
                } else if a < v.free.len() {
                    assert(v.free.contains(w.free[a]));
                } else if b < v.free.len() {
                    assert(v.free.contains(w.free[b]));
                }
            }
        }
        assert forall|k: u64| #[trigger] id_known(w, k) <==> 1 <= k <= w.map.len() + w.free.len() by {
            assert(id_known(v, k) <==> 1 <= k <= v.map.len() + v.free.len());
        }
    }
}

/// The item stored by `insert` is what `take` gives back for the id that
/// `insert` handed out.
pub proof fn lemma_take_inserted<T>(v: SessionsView<T>, item: T)
    requires
        sessions_wf(v),
        sessions_have_room(v),
    ensures
        spec_take(spec_insert(v, item).0, spec_insert(v, item).1).1 == Some(item),
{
}

/// Taking an id that is not live changes nothing and gives nothing.
pub proof fn lemma_take_absent<T>(v: SessionsView<T>, id: u64)
    requires
        !v.map.contains_key(id),
    ensures
        spec_take(v, id) == (v, None::<T>),
{
}

/// A taken id is handed out again once the ids freed before it have been.
pub proof fn lemma_taken_id_reused<T>(v: SessionsView<T>, id: u64, item: T)
    requires
        sessions_wf(v),
        v.map.contains_key(id),
        v.free.len() == 0,
    ensures
        spec_insert(spec_take(v, id).0, item).1 == id,
{
    assert(spec_take(v, id).0.free =~= seq![id]);
}

/// The ids of the requests that await a reply, and what will deliver it.
pub struct InnerSessions<T> {
    map: HashMap<u64, T>,
    free: VecDeque<u64>,
}

impl<T> View for InnerSessions<T> {
    type V = SessionsView<T>;

    closed spec fn view(&self) -> SessionsView<T> {
        SessionsView { map: self.map@, free: self.free@ }
    }
}

impl<T> InnerSessions<T> {
    pub fn new() -> (r: Self)
        ensures
            r@.map == Map::<u64, T>::empty(),
            r@.free == Seq::<u64>::empty(),
            sessions_wf(r@),
    {
        Self { map: HashMap::new(), free: VecDeque::new() }
    }

    /// Another id can be handed out.
    pub fn has_room(&self) -> (r: bool)
        ensures
            r == sessions_have_room(self@),
    {
        (self.map.len() as u128) + (self.free.len() as u128) < u64::MAX as u128
    }

    /// Stores `item` and returns its id: the oldest free id, or else the next
    /// one never used.
    pub fn insert(&mut self, item: T) -> (id: u64)
        requires
            sessions_wf(old(self)@),
            sessions_have_room(old(self)@),
        ensures
            (final(self)@, id) == spec_insert(old(self)@, item),
            sessions_wf(final(self)@),
            id >= 1,
            !old(self)@.map.contains_key(id),
    {
        proof {
            lemma_insert_fresh(self@, item);
        }
        let id = if let Some(id) = self.free.pop_front() {
            id
        } else {
            self.map.len() as u64 + 1
        };
        self.map.insert(id, item);
        proof {
            assert(self@.free =~= spec_insert(old(self)@, item).0.free);
        }
        id
    }

    /// Takes the item stored under `id`, if there is one; its id becomes free.
    pub fn take(&mut self, id: &u64) -> (r: Option<T>)
        requires
            sessions_wf(old(self)@),
        ensures
            (final(self)@, r) == spec_take(old(self)@, *id),
            sessions_wf(final(self)@),
    {
        proof {
            lemma_take_wf(self@, *id);
        }
        if let Some(item) = self.map.remove(id) {
            self.free.push_back(*id);
            assert(self@ =~= spec_take(old(self)@, *id).0);
            Some(item)
        } else {
            assert(self@ =~= spec_take(old(self)@, *id).0);
            None
        }
    }
}

} // verus!
