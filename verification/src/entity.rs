//! Entities and how records are found by their identity.

use vstd::prelude::*;

verus! {

/// The identity of an entity of the game world.
pub type Entity = u64;

/// A record that belongs to one entity.
pub trait Identified {
    /// The identity of the entity that the record belongs to.
    spec fn ident(&self) -> Entity;

    /// The identity of the entity that the record belongs to.
    fn id(&self) -> (id: Entity)
        ensures
            id == self.ident(),
    ;
}

/// Whether one of the records belongs to `id`.
pub open spec fn holds_id<T: Identified>(records: Seq<T>, id: Entity) -> bool {
    exists|i: int| 0 <= i < records.len() && #[trigger] records[i].ident() == id
}

/// Whether the record at `i` is the first one that belongs to `id`.
pub open spec fn is_first_with_id<T: Identified>(records: Seq<T>, id: Entity, i: int) -> bool {
    &&& 0 <= i < records.len()
    &&& records[i].ident() == id
    &&& forall|j: int| 0 <= j < i ==> #[trigger] records[j].ident() != id
}

/// The place of the first record that belongs to `id`, if there is one.
pub open spec fn index_of<T: Identified>(records: Seq<T>, id: Entity) -> Option<int> {
    if holds_id(records, id) {
        Some(choose|i: int| is_first_with_id(records, id, i))
    } else {
        None
    }
}

/// The first record that belongs to `id` is the one that `index_of` gives.
pub proof fn lemma_index_of_first<T: Identified>(records: Seq<T>, id: Entity, i: int)
    requires
        is_first_with_id(records, id, i),
    ensures
        index_of(records, id) == Some(i),
{
    assert(holds_id(records, id));
    let k = choose|k: int| is_first_with_id(records, id, k);
    assert(is_first_with_id(records, id, k));
    if k < i {
        assert(records[k].ident() != id);
    } else if i < k {
        assert(records[i].ident() != id);
    }
}

/// Where `index_of` gives a place, the first record that belongs to `id` is
/// there; where it gives none, no record belongs to `id`.
pub proof fn lemma_index_of<T: Identified>(records: Seq<T>, id: Entity)
    ensures
        match index_of(records, id) {
            Some(i) => is_first_with_id(records, id, i),
            None => !holds_id(records, id),
        },
{
    if holds_id(records, id) {
        let w = choose|i: int| 0 <= i < records.len() && #[trigger] records[i].ident() == id;
        lemma_first_exists(records, id, w);
    }
}

/// Where a record at or before `bound` belongs to `id`, some record is the
/// first to do so.
proof fn lemma_first_exists<T: Identified>(records: Seq<T>, id: Entity, bound: int)
    requires
        0 <= bound < records.len(),
        records[bound].ident() == id,
    ensures
        exists|i: int| is_first_with_id(records, id, i),
    decreases bound,
{
    if exists|j: int| 0 <= j < bound && #[trigger] records[j].ident() == id {
        let j = choose|j: int| 0 <= j < bound && #[trigger] records[j].ident() == id;
        lemma_first_exists(records, id, j);
    } else {
        assert(is_first_with_id(records, id, bound));
    }
}

/// The place of the first record that belongs to `id`, if there is one.
pub fn find<T: Identified>(records: &Vec<T>, id: Entity) -> (found: Option<usize>)
    ensures
        match found {
            Some(i) => index_of(records@, id) == Some(i as int),
            None => index_of(records@, id) is None,
        },
        found matches Some(i) ==> is_first_with_id(records@, id, i as int),
        found is None ==> !holds_id(records@, id),
{
    let mut i: usize = 0;
    while i < records.len()
        invariant
            i <= records.len(),
            forall|j: int| 0 <= j < i ==> #[trigger] records@[j].ident() != id,
        decreases records.len() - i,
    {
        if records[i].id() == id {
            proof {
                lemma_index_of_first(records@, id, i as int);
            }
            return Some(i);
        }
        i = i + 1;
    }
    None
}

} // verus!
