//! The actor registry: the model of the runtime that keeps at most one
//! actor instance per entity id. It maps each id that has been written to
//! its rating sequence; reads of unknown ids see the empty sequence, and a
//! write creates the instance on first access. Its view is a map from id
//! bytes to rating sequences, so isolation between ids is part of every
//! contract.

use vstd::prelude::*;

use crate::actor::{effective_record, CompetencyActor};
use crate::model::CompetencyRating;

verus! {

/// No two of the ids hold the same bytes.
pub open spec fn distinct_ids(ids: Seq<Vec<u8>>) -> bool {
    forall|i: int, j: int| 0 <= i < j < ids.len() ==> ids[i]@ != ids[j]@
}

/// Some id holds exactly the bytes `k`.
pub open spec fn id_in(ids: Seq<Vec<u8>>, k: Seq<u8>) -> bool {
    exists|i: int| 0 <= i < ids.len() && ids[i]@ == k
}

/// The position of the id holding the bytes `k`.
pub open spec fn idx_of(ids: Seq<Vec<u8>>, k: Seq<u8>) -> int {
    choose|i: int| 0 <= i < ids.len() && ids[i]@ == k
}

proof fn lemma_idx_unique(ids: Seq<Vec<u8>>, i: int, k: Seq<u8>)
    requires
        distinct_ids(ids),
        0 <= i < ids.len(),
        ids[i]@ == k,
    ensures
        id_in(ids, k),
        idx_of(ids, k) == i,
{
    assert(id_in(ids, k));
    let j = idx_of(ids, k);
    if j < i {
        assert(ids[j]@ != ids[i]@);
    } else if i < j {
        assert(ids[i]@ != ids[j]@);
    }
}

/// The sequence stored under `k`, or the empty one where nothing is.
pub open spec fn stored_or_empty(m: Map<Seq<u8>, Seq<CompetencyRating>>, k: Seq<u8>) -> Seq<
    CompetencyRating,
> {
    if m.contains_key(k) {
        m[k]
    } else {
        Seq::<CompetencyRating>::empty()
    }
}

/// One actor instance per entity id, created on first write.
pub struct ActorRegistry {
    ids: Vec<Vec<u8>>,
    actors: Vec<CompetencyActor>,
}

impl View for ActorRegistry {
    type V = Map<Seq<u8>, Seq<CompetencyRating>>;

    closed spec fn view(&self) -> Map<Seq<u8>, Seq<CompetencyRating>> {
        Map::new(
            |k: Seq<u8>| id_in(self.ids@, k),
            |k: Seq<u8>| self.actors@[idx_of(self.ids@, k)]@,
        )
    }
}

/// Compares two byte strings.
pub(crate) fn bytes_eq(a: &Vec<u8>, b: &Vec<u8>) -> (r: bool)
    ensures
        r == (a@ == b@),
{
    if a.len() != b.len() {
        return false;
    }
    let mut i: usize = 0;
    while i < a.len()
        invariant
            0 <= i <= a@.len() == b@.len(),
            forall|j: int| 0 <= j < i ==> a@[j] == b@[j],
        decreases a@.len() - i,
    {
        if a[i] != b[i] {
            return false;
        }
        i = i + 1;
    }
    proof {
        assert(a@ =~= b@);
    }
    true
}

/// Copies a byte string.
fn copy_bytes(a: &Vec<u8>) -> (r: Vec<u8>)
    ensures
        r@ == a@,
{
    let mut out: Vec<u8> = Vec::new();
    let mut i: usize = 0;
    while i < a.len()
        invariant
            0 <= i <= a@.len(),
            out@ == a@.subrange(0, i as int),
        decreases a@.len() - i,
    {
        out.push(a[i]);
        i = i + 1;
        proof {
            assert(out@ =~= a@.subrange(0, i as int));
        }
    }
    proof {
        assert(out@ =~= a@);
    }
    out
}

impl ActorRegistry {
    /// Well-formed: one actor per id, ids pairwise distinct.
    pub closed spec fn wf(&self) -> bool {
        &&& self.ids@.len() == self.actors@.len()
        &&& distinct_ids(self.ids@)
    }

    /// A fresh registry holds no actor at all.
    pub fn new() -> (r: ActorRegistry)
        ensures
            r.wf(),
            r@ == Map::<Seq<u8>, Seq<CompetencyRating>>::empty(),
    {
        let r = ActorRegistry { ids: Vec::new(), actors: Vec::new() };
        proof {
            assert(r@ =~= Map::<Seq<u8>, Seq<CompetencyRating>>::empty());
        }
        r
    }

    fn find(&self, id: &Vec<u8>) -> (r: Option<usize>)
        requires
            self.wf(),
        ensures
            match r {
                Some(i) => 0 <= i < self.ids@.len() && self.ids@[i as int]@ == id@,
                None => !id_in(self.ids@, id@),
            },
    {
        let mut i: usize = 0;
        while i < self.ids.len()
            invariant
                0 <= i <= self.ids@.len(),
                forall|j: int| 0 <= j < i ==> self.ids@[j]@ != id@,
            decreases self.ids@.len() - i,
        {
            if bytes_eq(&self.ids[i], id) {
                return Some(i);
            }
            i = i + 1;
        }
        None
    }

    /// Reads the sequence for `id`: what its actor holds, or the empty
    /// sequence where no write has created one yet. No side effect.
    pub fn read(&self, id: &Vec<u8>) -> (r: Vec<CompetencyRating>)
        requires
            self.wf(),
        ensures
            r@ == stored_or_empty(self@, id@),
    {
        match self.find(id) {
            Some(i) => {
                proof {
                    lemma_idx_unique(self.ids@, i as int, id@);
                }
                self.actors[i].read()
            },
            None => Vec::new(),
        }
    }

    /// Appends one record to the actor for `id`, creating the actor on
    /// first access, and returns the resulting full sequence. Every other
    /// id keeps exactly the sequence it had: the new view is the old one
    /// with only the entry for `id` replaced.
    pub fn append(&mut self, id: &Vec<u8>, rec: Option<CompetencyRating>) -> (r: Vec<
        CompetencyRating,
    >)
        requires
            old(self).wf(),
        ensures
            final(self).wf(),
            final(self)@ == old(self)@.insert(
                id@,
                stored_or_empty(old(self)@, id@).push(effective_record(rec)),
            ),
            r@ == final(self)@[id@],
    {
        let ghost m0 = old(self)@;
        let ghost target = stored_or_empty(m0, id@).push(effective_record(rec));
        match self.find(id) {
            Some(i) => {
                proof {
                    lemma_idx_unique(self.ids@, i as int, id@);
                }
                let mut a = self.actors.remove(i);
                let r = a.append(rec);
                self.actors.insert(i, a);
                proof {
                    assert(self.actors@ =~= old(self).actors@.update(i as int, a));
                    assert(self.actors@[i as int]@ == target);
                    assert forall|k: Seq<u8>| #[trigger] id_in(self.ids@, k) && k != id@ implies
                        self@[k] == m0[k] by {
                        let w = choose|j: int|
                            0 <= j < self.ids@.len() && self.ids@[j]@ == k;
                        lemma_idx_unique(self.ids@, w, k);
                        assert(w != i);
                    }
                    assert(self@ =~= m0.insert(id@, target));
                }
                r
            },
            None => {
                let key = copy_bytes(id);
                self.ids.push(key);
                let mut a = CompetencyActor::new();
                let r = a.append(rec);
                self.actors.push(a);
                proof {
                    let ids1 = self.ids@;
                    let n = old(self).ids@.len() as int;
                    assert(ids1 =~= old(self).ids@.push(key));
                    assert(distinct_ids(ids1)) by {
                        assert forall|i: int, j: int| 0 <= i < j < ids1.len() implies ids1[i]@
                            != ids1[j]@ by {
                            if j < n {
                                assert(old(self).ids@[i]@ != old(self).ids@[j]@);
                            } else {
                                assert(ids1[j]@ == id@);
                                assert(old(self).ids@[i]@ != id@);
                            }
                        }
                    }
                    lemma_idx_unique(ids1, n, id@);
                    assert(self.actors@[n]@ == target);
                    assert(!m0.contains_key(id@));
                    assert forall|k: Seq<u8>| #[trigger] id_in(ids1, k) && k != id@ implies id_in(
                        old(self).ids@,
                        k,
                    ) && self@[k] == m0[k] by {
                        let w = choose|j: int| 0 <= j < ids1.len() && ids1[j]@ == k;
                        assert(w != n);
                        assert(old(self).ids@[w]@ == k);
                        lemma_idx_unique(ids1, w, k);
                        lemma_idx_unique(old(self).ids@, w, k);
                    }
                    assert forall|k: Seq<u8>| #[trigger] id_in(old(self).ids@, k) implies id_in(
                        ids1,
                        k,
                    ) by {
                        let w = choose|j: int|
                            0 <= j < old(self).ids@.len() && old(self).ids@[j]@ == k;
                        assert(ids1[w]@ == k);
                    }
                    assert(self@ =~= m0.insert(id@, target));
                }
                r
            },
        }
    }
}

/// Appending under one id leaves every other id's sequence untouched: what
/// a read of `other` returns after an append to `id` is exactly what it
/// returned before.
pub proof fn lemma_isolation(
    m: Map<Seq<u8>, Seq<CompetencyRating>>,
    id: Seq<u8>,
    rec: Option<CompetencyRating>,
    other: Seq<u8>,
)
    requires
        other != id,
    ensures
        stored_or_empty(
            m.insert(id, stored_or_empty(m, id).push(effective_record(rec))),
            other,
        ) == stored_or_empty(m, other),
{
}


/// A read against a fresh registry — immediately after creation, before any
/// append — answers the empty sequence, whatever non-empty id it addresses.
pub proof fn lemma_fresh_read_empty(m: Map<Seq<u8>, Seq<CompetencyRating>>, id: Seq<u8>)
    requires
        m == Map::<Seq<u8>, Seq<CompetencyRating>>::empty(),
        id.len() > 0,
    ensures
        stored_or_empty(m, id) == Seq::<CompetencyRating>::empty(),
{
}

} // verus!
