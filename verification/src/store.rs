//! The component store: rows of components addressed by entity handles.
//!
//! The store is a vector of slots. A handle names a slot and the generation
//! the slot had when the handle was issued; removing an entity bumps the
//! generation, so a handle that was removed never becomes valid again.

use vstd::prelude::*;
use crate::components::{Component, Row};
use crate::entity::Entity;
use crate::error::WorldError;

verus! {

/// The rows after a component was attached to the entity `e`.
pub open spec fn attached<T: Component>(rows: Map<Entity, Row>, e: Entity, value: T) -> Map<
    Entity,
    Row,
> {
    rows.insert(e, T::with_column(rows[e], Some(value)))
}

/// The rows after the component of kind `T` was detached from the entity
/// `e`.
pub open spec fn detached<T: Component>(rows: Map<Entity, Row>, e: Entity) -> Map<Entity, Row> {
    rows.insert(e, T::with_column(rows[e], None))
}

/// Whether `get` finds a component of kind `T` on the entity `e`.
pub open spec fn found<T: Component>(rows: Map<Entity, Row>, e: Entity) -> Option<T> {
    if rows.contains_key(e) {
        T::column(rows[e])
    } else {
        None
    }
}

/// A component that was attached is found; once it is detached, nothing of
/// its kind is found (`get` answers `NotFound`); and attaching a fresh value
/// afterwards makes that value found, not the old one.
pub proof fn law_attach_detach_round_trip<T: Component>(
    rows: Map<Entity, Row>,
    e: Entity,
    first: T,
    fresh: T,
)
    requires
        rows.contains_key(e),
    ensures
        found::<T>(attached::<T>(rows, e, first), e) == Some(first),
        found::<T>(detached::<T>(attached::<T>(rows, e, first), e), e).is_none(),
        found::<T>(attached::<T>(detached::<T>(attached::<T>(rows, e, first), e), e, fresh), e)
            == Some(fresh),
{
    let one = attached::<T>(rows, e, first);
    let two = detached::<T>(one, e);
    T::column_laws(rows[e], Some(first));
    T::column_laws(one[e], None);
    T::column_laws(two[e], Some(fresh));
}

/// Attaching or detaching a component of one entity leaves every other
/// entity as it was.
pub proof fn law_attach_touches_one_entity<T: Component>(
    rows: Map<Entity, Row>,
    e: Entity,
    other: Entity,
    value: T,
)
    requires
        other != e,
    ensures
        attached::<T>(rows, e, value).contains_key(other) == rows.contains_key(other),
        attached::<T>(rows, e, value)[other] == rows[other],
        detached::<T>(rows, e).contains_key(other) == rows.contains_key(other),
        detached::<T>(rows, e)[other] == rows[other],
{
}

struct Slot {
    generation: u64,
    live: bool,
    row: Row,
}

/// Rows of components, one per live entity.
pub struct Store {
    slots: Vec<Slot>,
    free: Vec<usize>,
}

impl View for Store {
    type V = Map<Entity, Row>;

    /// The live entities and what each of them holds.
    closed spec fn view(&self) -> Map<Entity, Row> {
        Map::new(|e: Entity| self.live_at(e), |e: Entity| self.slots[e.index as int].row)
    }
}

impl Store {
    spec fn live_at(&self, e: Entity) -> bool {
        &&& e.index < self.slots.len()
        &&& self.slots[e.index as int].live
        &&& self.slots[e.index as int].generation == e.generation
    }

    /// The handles that were removed: none of them is live, and none will
    /// ever be issued again.
    pub closed spec fn spent(&self) -> Set<Entity> {
        Set::new(
            |e: Entity|
                e.index < self.slots.len() && e.generation < self.slots[e.index as int].generation,
        )
    }

    /// The store's internal invariant.
    pub closed spec fn wf(&self) -> bool {
        &&& forall|i: int|
            0 <= i < self.slots.len() && (#[trigger] self.slots[i]).live
                ==> self.slots[i].generation < u64::MAX
        &&& forall|i: int|
            0 <= i < self.slots.len() && !(#[trigger] self.slots[i]).live ==> self.slots[i].row
                == Row::empty()
        &&& forall|k: int|
            0 <= k < self.free.len() ==> {
                &&& (#[trigger] self.free[k]) < self.slots.len()
                &&& !self.slots[self.free[k] as int].live
                &&& self.slots[self.free[k] as int].generation < u64::MAX
            }
        &&& forall|j: int, k: int|
            0 <= j < k < self.free.len() ==> self.free[j] != self.free[k]
    }

    /// A live handle is not a spent one.
    pub proof fn lemma_live_not_spent(&self, e: Entity)
        ensures
            !(self@.contains_key(e) && self.spent().contains(e)),
    {
    }

    /// Two live handles never share a slot.
    pub proof fn lemma_live_slots_differ(&self, a: Entity, b: Entity)
        requires
            self@.contains_key(a),
            self@.contains_key(b),
            a.index == b.index,
        ensures
            a == b,
    {
    }

    /// An empty store.
    pub fn new() -> (store: Store)
        ensures
            store.wf(),
            store@ == Map::<Entity, Row>::empty(),
            store.spent() == Set::<Entity>::empty(),
    {
        let store = Store { slots: Vec::new(), free: Vec::new() };
        assert(store@ =~= Map::<Entity, Row>::empty());
        assert(store.spent() =~= Set::<Entity>::empty());
        store
    }

    /// Allocates a new entity that holds nothing. Its handle is fresh:
    /// neither live nor spent before the call.
    pub fn create(&mut self) -> (e: Entity)
        requires
            old(self).wf(),
        ensures
            final(self).wf(),
            !old(self)@.contains_key(e),
            !old(self).spent().contains(e),
            final(self)@ == old(self)@.insert(e, Row::empty()),
            final(self).spent() == old(self).spent(),
    {
        let entity = match self.free.pop() {
            Some(i) => {
                self.slots[i].live = true;
                Entity { index: i, generation: self.slots[i].generation }
            },
            None => {
                let i: usize = self.slots.len();
                self.slots.push(Slot { generation: 0, live: true, row: Row::new() });
                Entity { index: i, generation: 0 }
            },
        };
        assert(self@ =~= old(self)@.insert(entity, Row::empty()));
        assert(self.spent() =~= old(self).spent());
        entity
    }

    /// Whether the handle names a live entity.
    pub fn contains(&self, e: Entity) -> (live: bool)
        ensures
            live == self@.contains_key(e),
    {
        e.index < self.slots.len() && self.slots[e.index].live && self.slots[e.index].generation
            == e.generation
    }

    /// Removes an entity with everything it holds and spends its handle.
    /// A handle that is not live is refused with `NotFound`.
    pub fn remove(&mut self, e: Entity) -> (r: Result<(), WorldError>)
        requires
            old(self).wf(),
        ensures
            final(self).wf(),
            r.is_ok() == old(self)@.contains_key(e),
            r.is_err() ==> r == Err::<(), WorldError>(WorldError::NotFound),
            r.is_err() ==> final(self)@ == old(self)@ && final(self).spent() == old(self).spent(),
            r.is_ok() ==> final(self)@ == old(self)@.remove(e),
            r.is_ok() ==> final(self).spent() == old(self).spent().insert(e),
    {
        if !self.contains(e) {
            return Err(WorldError::NotFound);
        }
        let i: usize = e.index;
        let next: u64 = e.generation + 1;
        self.slots[i].live = false;
        self.slots[i].generation = next;
        self.slots[i].row = Row::new();
        if next < u64::MAX {
            self.free.push(i);
        }
        assert(self@ =~= old(self)@.remove(e));
        assert(self.spent() =~= old(self).spent().insert(e));
        Ok(())
    }

    /// Removes every entity. Every handle that was live is spent afterwards.
    pub fn clear(&mut self)
        requires
            old(self).wf(),
        ensures
            final(self).wf(),
            final(self)@ == Map::<Entity, Row>::empty(),
            final(self).spent() == old(self).spent().union(old(self)@.dom()),
    {
        let n: usize = self.slots.len();
        let mut i: usize = 0;
        while i < n
            invariant
                self.wf(),
                i <= n,
                n == self.slots.len(),
                n == old(self).slots.len(),
                forall|k: int| 0 <= k < i ==> !(#[trigger] self.slots[k]).live,
                forall|k: int| i <= k < n ==> (#[trigger] self.slots[k]) == old(self).slots[k],
                forall|k: int|
                    0 <= k < i ==> (#[trigger] self.slots[k]).generation == old(
                        self,
                    ).slots[k].generation + if old(self).slots[k].live {
                        1int
                    } else {
                        0int
                    },
            decreases n - i,
        {
            if self.slots[i].live {
                let next: u64 = self.slots[i].generation + 1;
                self.slots[i].live = false;
                self.slots[i].generation = next;
                self.slots[i].row = Row::new();
                if next < u64::MAX {
                    self.free.push(i);
                }
            }
            i = i + 1;
        }
        assert(self@ =~= Map::<Entity, Row>::empty());
        assert(self.spent() =~= old(self).spent().union(old(self)@.dom()));
    }

    /// Attaches a component to a live entity, in place of the one of that
    /// kind it held, if any.
    pub fn attach<T: Component>(&mut self, e: Entity, value: T) -> (r: Result<(), WorldError>)
        requires
            old(self).wf(),
        ensures
            final(self).wf(),
            final(self).spent() == old(self).spent(),
            r.is_ok() == old(self)@.contains_key(e),
            r.is_err() ==> r == Err::<(), WorldError>(WorldError::NotFound),
            r.is_err() ==> final(self)@ == old(self)@,
            r.is_ok() ==> final(self)@ == attached::<T>(old(self)@, e, value),
    {
        if !self.contains(e) {
            return Err(WorldError::NotFound);
        }
        let _ = T::replace(&mut self.slots[e.index].row, Some(value));
        proof {
            T::column_laws(old(self)@[e], Some(value));
            assert(self@ =~= old(self)@.insert(e, T::with_column(old(self)@[e], Some(value))));
            assert(self.spent() =~= old(self).spent());
        }
        Ok(())
    }

    /// Detaches the component of kind `T` from a live entity and hands it
    /// back, or `None` where the entity held none.
    pub fn detach<T: Component>(&mut self, e: Entity) -> (r: Result<Option<T>, WorldError>)
        requires
            old(self).wf(),
        ensures
            final(self).wf(),
            final(self).spent() == old(self).spent(),
            r.is_ok() == old(self)@.contains_key(e),
            r.is_err() ==> r == Err::<Option<T>, WorldError>(WorldError::NotFound),
            r.is_err() ==> final(self)@ == old(self)@,
            r.is_ok() ==> r == Ok::<Option<T>, WorldError>(T::column(old(self)@[e])),
            r.is_ok() ==> final(self)@ == detached::<T>(old(self)@, e),
    {
        if !self.contains(e) {
            return Err(WorldError::NotFound);
        }
        let held = T::replace(&mut self.slots[e.index].row, None);
        proof {
            assert(self@ =~= old(self)@.insert(e, T::with_column(old(self)@[e], None)));
            assert(self.spent() =~= old(self).spent());
        }
        Ok(held)
    }

    /// Whether a live entity holds a component of kind `T`.
    pub open spec fn holds<T: Component>(&self, e: Entity) -> bool {
        self@.contains_key(e) && T::column(self@[e]).is_some()
    }

    /// Whether the handle is live and the entity holds a component of kind `T`.
    pub fn has<T: Component>(&self, e: Entity) -> (held: bool)
        ensures
            held == self.holds::<T>(e),
    {
        if !self.contains(e) {
            return false;
        }
        T::borrow(&self.slots[e.index].row).is_some()
    }

    /// Borrows the component of kind `T` of a live entity. A handle that is
    /// not live, and an entity without such a component, give `NotFound`.
    pub fn get<T: Component>(&self, e: Entity) -> (r: Result<&T, WorldError>)
        ensures
            r.is_ok() == self.holds::<T>(e),
            r.is_err() ==> r == Err::<&T, WorldError>(WorldError::NotFound),
            r.is_ok() ==> T::column(self@[e]) == Some(*r.unwrap()),
            r.is_ok() ==> found::<T>(self@, e) == Some(*r.unwrap()),
            r.is_err() ==> found::<T>(self@, e).is_none(),
    {
        if !self.contains(e) {
            return Err(WorldError::NotFound);
        }
        match T::borrow(&self.slots[e.index].row) {
            Some(v) => Ok(v),
            None => Err(WorldError::NotFound),
        }
    }

    /// Borrows the component of kind `T` of a live entity for writing. What
    /// the caller leaves behind the reference is what the entity then holds;
    /// nothing else changes.
    pub fn get_mut<T: Component>(&mut self, e: Entity) -> (r: Result<&mut T, WorldError>)
        requires
            old(self).wf(),
        ensures
            final(self).wf(),
            final(self).spent() == old(self).spent(),
            r.is_ok() == old(self).holds::<T>(e),
            r.is_err() ==> r == Err::<&mut T, WorldError>(WorldError::NotFound),
            r.is_err() ==> final(self)@ == old(self)@,
            r.is_ok() ==> T::column(old(self)@[e]) == Some(*r.unwrap()),
            r.is_ok() ==> final(self)@ == old(self)@.insert(
                e,
                T::with_column(old(self)@[e], Some(*final(r.unwrap()))),
            ),
    {
        if !self.contains(e) {
            return Err(WorldError::NotFound);
        }
        match T::borrow_mut(&mut self.slots[e.index].row) {
            Some(v) => Ok(v),
            None => Err(WorldError::NotFound),
        }
    }

    /// The live entities that hold a component of kind `T`, each once, in
    /// ascending order of their slots. The order is the same on every call
    /// as long as the store is not changed.
    pub fn query<T: Component>(&self) -> (found: Vec<Entity>)
        ensures
            forall|e: Entity| found@.contains(e) <==> self.holds::<T>(e),
            forall|i: int, j: int|
                0 <= i < j < found.len() ==> (#[trigger] found[i]).index < (#[trigger] found[j]).index,
    {
        let mut found: Vec<Entity> = Vec::new();
        let n: usize = self.slots.len();
        let mut i: usize = 0;
        while i < n
            invariant
                i <= n,
                n == self.slots.len(),
                forall|e: Entity| found@.contains(e) <==> (self.holds::<T>(e) && e.index < i),
                forall|a: int, b: int|
                    0 <= a < b < found.len() ==> (#[trigger] found[a]).index < (
                    #[trigger] found[b]).index,
            decreases n - i,
        {
            let e = Entity { index: i, generation: self.slots[i].generation };
            if self.slots[i].live && T::borrow(&self.slots[i].row).is_some() {
                let ghost before = found@;
                found.push(e);
                proof {
                    assert(found@.last() == e);
                    assert forall|x: Entity| found@.contains(x) <==> (self.holds::<T>(x) && x.index < i
                        + 1) by {
                        if found@.contains(x) {
                            let k = choose|k: int| 0 <= k < found@.len() && found@[k] == x;
                            if k < before.len() {
                                assert(before[k] == x);
                                assert(before.contains(x));
                            }
                        }
                        if self.holds::<T>(x) && x.index < i + 1 {
                            if x.index < i {
                                assert(before.contains(x));
                                let k = choose|k: int| 0 <= k < before.len() && before[k] == x;
                                assert(found@[k] == x);
                            } else {
                                assert(x == e);
                                assert(found@[before.len() as int] == x);
                            }
                        }
                    }
                    assert forall|a: int, b: int| 0 <= a < b < found.len() implies (
                    #[trigger] found[a]).index < (#[trigger] found[b]).index by {
                        if b == before.len() {
                            assert(before.contains(before[a]));
                        }
                    }
                }
            }
            i = i + 1;
        }
        found
    }

    /// The live entities that hold both a component of kind `A` and one of
    /// kind `B`, each once, in ascending order of their slots.
    pub fn query2<A: Component, B: Component>(&self) -> (found: Vec<Entity>)
        ensures
            forall|e: Entity| found@.contains(e) <==> (self.holds::<A>(e) && self.holds::<B>(e)),
            forall|i: int, j: int|
                0 <= i < j < found.len() ==> (#[trigger] found[i]).index < (#[trigger] found[j]).index,
    {
        let first = self.query::<A>();
        let mut found: Vec<Entity> = Vec::new();
        let n: usize = first.len();
        let mut i: usize = 0;
        while i < n
            invariant
                i <= n,
                n == first.len(),
                forall|e: Entity| first@.contains(e) <==> self.holds::<A>(e),
                forall|a: int, b: int|
                    0 <= a < b < first.len() ==> (#[trigger] first[a]).index < (
                    #[trigger] first[b]).index,
                forall|e: Entity|
                    found@.contains(e) <==> (self.holds::<A>(e) && self.holds::<B>(e) && exists|k: int|
                        0 <= k < i && first[k] == e),
                forall|a: int|
                    0 <= a < found.len() ==> exists|k: int|
                        0 <= k < i && first[k] == #[trigger] found[a],
                forall|a: int, b: int|
                    0 <= a < b < found.len() ==> (#[trigger] found[a]).index < (
                    #[trigger] found[b]).index,
            decreases n - i,
        {
            let e = first[i];
            assert(first@.contains(e));
            if self.has::<B>(e) {
                let ghost before = found@;
                found.push(e);
                proof {
                    assert forall|x: Entity|
                        found@.contains(x) <==> (self.holds::<A>(x) && self.holds::<B>(x) && exists|
                            k: int,
                        | 0 <= k < i + 1 && first[k] == x) by {
                        if found@.contains(x) {
                            let k = choose|k: int| 0 <= k < found@.len() && found@[k] == x;
                            if k < before.len() {
                                assert(before[k] == x);
                                assert(before.contains(x));
                            } else {
                                assert(first[i as int] == x);
                            }
                        }
                        if self.holds::<A>(x) && self.holds::<B>(x) && exists|k: int|
                            0 <= k < i + 1 && first[k] == x {
                            let k = choose|k: int| 0 <= k < i + 1 && first[k] == x;
                            if k < i {
                                assert(before.contains(x));
                                let a = choose|a: int| 0 <= a < before.len() && before[a] == x;
                                assert(found@[a] == x);
                            } else {
                                assert(found@[before.len() as int] == x);
                            }
                        }
                    }
                    assert forall|a: int| 0 <= a < found.len() implies exists|k: int|
                        0 <= k < i + 1 && first[k] == #[trigger] found[a] by {
                        if a < before.len() {
                            let k = choose|k: int| 0 <= k < i && first[k] == before[a];
                            assert(first[k] == found[a]);
                        } else {
                            assert(first[i as int] == found[a]);
                        }
                    }
                    assert forall|a: int, b: int| 0 <= a < b < found.len() implies (
                    #[trigger] found[a]).index < (#[trigger] found[b]).index by {
                        if b == before.len() {
                            let k = choose|k: int| 0 <= k < i && first[k] == before[a];
                            assert(first[k].index < first[i as int].index);
                        }
                    }
                }
            }
            i = i + 1;
        }
        proof {
            assert forall|x: Entity| (self.holds::<A>(x) && self.holds::<B>(x)) implies found@.contains(
                x,
            ) by {
                assert(first@.contains(x));
                let k = choose|k: int| 0 <= k < first@.len() && first@[k] == x;
                assert(first[k] == x);
            }
        }
        found
    }
}

} // verus!
