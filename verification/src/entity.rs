//! A store of entities, each with a numeric id handed out when it is spawned.
//!
//! What an entity carries besides its id is up to the user of the store.

use vstd::prelude::*;

verus! {

/// An entity: its id and its data.
#[derive(Clone, Copy, Debug)]
pub struct Entity<T> {
    pub id: u32,
    pub data: T,
}

/// Position of the first entity at or after `start` whose id is `id`, or -1.
pub open spec fn index_from<T>(s: Seq<Entity<T>>, id: u32, start: int) -> int
    decreases s.len() - start,
{
    if start < 0 || start >= s.len() {
        -1
    } else if s[start].id == id {
        start
    } else {
        index_from(s, id, start + 1)
    }
}

/// Position of the first entity whose id is `id`, or -1 if there is none.
pub open spec fn index_of_id<T>(s: Seq<Entity<T>>, id: u32) -> int {
    index_from(s, id, 0)
}

/// The first entity whose id is `id`, if any.
pub open spec fn lookup<T>(s: Seq<Entity<T>>, id: u32) -> Option<Entity<T>> {
    if index_of_id(s, id) >= 0 {
        Some(s[index_of_id(s, id)])
    } else {
        None
    }
}

/// Ids appear in strictly increasing order and all lie below `next_id`;
/// in particular no id appears twice.
pub open spec fn ids_well_formed<T>(s: Seq<Entity<T>>, next_id: u32) -> bool {
    &&& forall|i: int, j: int| 0 <= i < j < s.len() ==> s[i].id < s[j].id
    &&& forall|i: int| 0 <= i < s.len() ==> #[trigger] s[i].id < next_id
}

proof fn lemma_index_from_bounds<T>(s: Seq<Entity<T>>, id: u32, start: int)
    requires
        0 <= start,
    ensures
        index_from(s, id, start) == -1 || (start <= index_from(s, id, start) < s.len()
            && s[index_from(s, id, start)].id == id),
        index_from(s, id, start) == -1 ==> forall|j: int| start <= j < s.len() ==> s[j].id != id,
        forall|j: int| start <= j < index_from(s, id, start) ==> s[j].id != id,
    decreases s.len() - start,
{
    if start < s.len() && s[start].id != id {
        lemma_index_from_bounds(s, id, start + 1);
    }
}

/// The first entity with a given id is at position `i` exactly when `s[i]`
/// has that id and no earlier entity does.
pub proof fn lemma_index_of_id<T>(s: Seq<Entity<T>>, id: u32)
    ensures
        index_of_id(s, id) == -1 <==> forall|j: int| 0 <= j < s.len() ==> s[j].id != id,
        index_of_id(s, id) != -1 ==> {
            &&& 0 <= index_of_id(s, id) < s.len()
            &&& s[index_of_id(s, id)].id == id
            &&& forall|j: int| 0 <= j < index_of_id(s, id) ==> s[j].id != id
        },
{
    lemma_index_from_bounds(s, id, 0);
}

/// Entities and the next id to hand out.
pub struct EntityStore<T> {
    entities: Vec<Entity<T>>,
    next_id: u32,
}

impl<T> Default for EntityStore<T> {
    /// An empty store, as `new` makes it.
    fn default() -> (s: Self)
        ensures
            s.entities() == Seq::<Entity<T>>::empty(),
            s.next_id_spec() == 0,
    {
        Self::new()
    }
}

impl<T> EntityStore<T> {
    /// The entities, in the order they were spawned.
    pub closed spec fn entities(&self) -> Seq<Entity<T>> {
        self.entities@
    }

    /// The id the next spawned entity will get.
    pub closed spec fn next_id_spec(&self) -> u32 {
        self.next_id
    }

    /// The store's ids are well formed.
    pub open spec fn wf(&self) -> bool {
        ids_well_formed(self.entities(), self.next_id_spec())
    }

    /// An empty store; the first entity will get id 0.
    pub fn new() -> (s: Self)
        ensures
            s.entities() == Seq::<Entity<T>>::empty(),
            s.next_id_spec() == 0,
            s.wf(),
    {
        EntityStore { entities: Vec::new(), next_id: 0 }
    }

    /// The id the next spawned entity will get.
    pub fn next_id(&self) -> (id: u32)
        ensures
            id == self.next_id_spec(),
    {
        self.next_id
    }

    /// Adds an entity carrying `data` and returns its id.
    pub fn spawn(&mut self, data: T) -> (id: u32)
        requires
            old(self).next_id_spec() < u32::MAX,
        ensures
            id == old(self).next_id_spec(),
            final(self).next_id_spec() == old(self).next_id_spec() + 1,
            final(self).entities() == old(self).entities().push(Entity { id, data }),
            old(self).wf() ==> final(self).wf(),
    {
        proof {
            if self.wf() {
                lemma_spawn(self.entities@, self.next_id, data, 0);
            }
        }
        let id = self.next_id;
        self.next_id = self.next_id + 1;
        self.entities.push(Entity { id, data });
        id
    }

    fn position(&self, id: u32) -> (p: Option<usize>)
        ensures
            match p {
                Some(i) => i == index_of_id(self.entities(), id) && i < self.entities().len(),
                None => index_of_id(self.entities(), id) == -1,
            },
    {
        proof {
            lemma_index_of_id(self.entities@, id);
        }
        let mut i: usize = 0;
        while i < self.entities.len()
            invariant
                i <= self.entities@.len(),
                index_of_id(self.entities@, id) == index_from(self.entities@, id, i as int),
            decreases self.entities@.len() - i,
        {
            if self.entities[i].id == id {
                return Some(i);
            }
            i += 1;
        }
        None
    }

    /// The first entity with id `id`, if any.
    pub fn get(&self, id: u32) -> (r: Option<&Entity<T>>)
        ensures
            match r {
                Some(e) => lookup(self.entities(), id) == Some(*e),
                None => lookup(self.entities(), id) is None,
            },
    {
        match self.position(id) {
            Some(i) => Some(&self.entities[i]),
            None => None,
        }
    }

    /// Mutable access to the first entity with id `id`, if any.
    pub fn get_mut(&mut self, id: u32) -> (r: Option<&mut Entity<T>>)
        ensures
            match r {
                Some(e) => {
                    &&& lookup(old(self).entities(), id) == Some(*e)
                    &&& final(self).entities() == old(self).entities().update(
                        index_of_id(old(self).entities(), id),
                        *final(e),
                    )
                    &&& final(self).next_id_spec() == old(self).next_id_spec()
                },
                None => {
                    &&& lookup(old(self).entities(), id) is None
                    &&& final(self).entities() == old(self).entities()
                    &&& final(self).next_id_spec() == old(self).next_id_spec()
                },
            },
    {
        match self.position(id) {
            Some(i) => Some(&mut self.entities[i]),
            None => None,
        }
    }

    /// Removes the first entity with id `id`; tells whether there was one.
    pub fn remove(&mut self, id: u32) -> (removed: bool)
        ensures
            removed == (lookup(old(self).entities(), id) is Some),
            removed ==> final(self).entities() == old(self).entities().remove(
                index_of_id(old(self).entities(), id),
            ),
            !removed ==> final(self).entities() == old(self).entities(),
            final(self).next_id_spec() == old(self).next_id_spec(),
            old(self).wf() ==> final(self).wf(),
    {
        proof {
            if self.wf() && lookup(self.entities@, id) is Some {
                lemma_remove(self.entities@, self.next_id, id, id);
            }
        }
        match self.position(id) {
            Some(pos) => {
                self.entities.remove(pos);
                true
            },
            None => false,
        }
    }

    /// All entities, in the order they were spawned.
    pub fn iter(&self) -> (s: &[Entity<T>])
        ensures
            s@ == self.entities(),
    {
        self.entities.as_slice()
    }

    /// All entities, mutably, in the order they were spawned.
    pub fn iter_mut(&mut self) -> (s: &mut [Entity<T>])
        ensures
            s@ == old(self).entities(),
            final(self).entities() == final(s)@,
            final(self).next_id_spec() == old(self).next_id_spec(),
    {
        self.entities.as_mut_slice()
    }
}

/// In a well-formed store an id occurs at most once, so the entity found
/// for an id is the one at the position that holds it.
pub proof fn lemma_unique_position<T>(s: Seq<Entity<T>>, next_id: u32, i: int)
    requires
        ids_well_formed(s, next_id),
        0 <= i < s.len(),
    ensures
        index_of_id(s, s[i].id) == i,
        lookup(s, s[i].id) == Some(s[i]),
{
    lemma_index_of_id(s, s[i].id);
}

/// Spawning keeps the ids well formed; the new id was not in use before,
/// the spawned entity is found under it, and every other id finds what it
/// found before.
pub proof fn lemma_spawn<T>(s: Seq<Entity<T>>, next_id: u32, data: T, other: u32)
    requires
        ids_well_formed(s, next_id),
        next_id < u32::MAX,
    ensures
        lookup(s, next_id) is None,
        ids_well_formed(s.push(Entity { id: next_id, data }), (next_id + 1) as u32),
        lookup(s.push(Entity { id: next_id, data }), next_id) == Some(Entity { id: next_id, data }),
        other != next_id ==> lookup(s.push(Entity { id: next_id, data }), other) == lookup(s, other),
{
    let t = s.push(Entity { id: next_id, data });
    lemma_index_of_id(s, next_id);
    assert(ids_well_formed(t, (next_id + 1) as u32));
    lemma_unique_position(t, (next_id + 1) as u32, s.len() as int);
    lemma_index_of_id(s, other);
    lemma_index_of_id(t, other);
    if other != next_id {
        if index_of_id(s, other) != -1 {
            assert(t[index_of_id(s, other)] == s[index_of_id(s, other)]);
            lemma_unique_position(t, (next_id + 1) as u32, index_of_id(s, other));
        } else {
            assert forall|j: int| 0 <= j < t.len() implies t[j].id != other by {
                if j < s.len() {
                    assert(t[j] == s[j]);
                }
            }
        }
    }
}

/// Removing an entity from a well-formed store keeps the ids well formed,
/// after which its id finds nothing, while every other id finds what it
/// found before.
pub proof fn lemma_remove<T>(s: Seq<Entity<T>>, next_id: u32, id: u32, other: u32)
    requires
        ids_well_formed(s, next_id),
        lookup(s, id) is Some,
    ensures
        ids_well_formed(s.remove(index_of_id(s, id)), next_id),
        lookup(s.remove(index_of_id(s, id)), id) is None,
        other != id ==> lookup(s.remove(index_of_id(s, id)), other) == lookup(s, other),
{
    let k = index_of_id(s, id);
    lemma_index_of_id(s, id);
    let t = s.remove(k);
    assert(forall|j: int| 0 <= j < t.len() ==> t[j] == if j < k { s[j] } else { s[j + 1] });
    assert(ids_well_formed(t, next_id));
    lemma_index_of_id(t, id);
    if index_of_id(t, id) != -1 {
        let j = index_of_id(t, id);
        if j < k {
            assert(s[j].id == id);
        } else {
            assert(s[j + 1].id == id);
            assert(s[k].id < s[j + 1].id);
        }
    }
    lemma_index_of_id(s, other);
    lemma_index_of_id(t, other);
    if other != id {
        if index_of_id(s, other) != -1 {
            let m = index_of_id(s, other);
            let m2 = if m < k { m } else { m - 1 };
            assert(t[m2] == s[m]);
            lemma_unique_position(t, next_id, m2);
        } else {
            assert forall|j: int| 0 <= j < t.len() implies t[j].id != other by {
                if j < k {
                    assert(t[j] == s[j]);
                } else {
                    assert(t[j] == s[j + 1]);
                }
            }
        }
    }
}

/// Lookup finds an entity carrying the id asked for, one that is in the
/// store, and finds nothing only when no entity carries that id.
pub proof fn lemma_lookup_finds_id<T>(s: Seq<Entity<T>>, id: u32)
    ensures
        lookup(s, id) matches Some(e) ==> e.id == id && s.contains(e),
        lookup(s, id) is None <==> forall|j: int| 0 <= j < s.len() ==> s[j].id != id,
{
    lemma_index_of_id(s, id);
    if index_of_id(s, id) != -1 {
        assert(s[index_of_id(s, id)] == s[index_of_id(s, id)]);
    }
}

} // verus!
