//! The actual-state holder, with query and command access kept apart so that
//! a reader cannot be handed the power to change what it reads.
use vstd::prelude::*;
use crate::object::{is_listing, Object, ObjectID};
use crate::table::ObjectTable;

verus! {

/// What an objects manager holds: each identifier mapped to its value.
pub trait ObjectsState {
    spec fn objects(&self) -> Map<ObjectID, u64>;
}

/// Read access to the actual state.
pub trait Querier: ObjectsState {
    /// The object with identifier `object_id`, if one is held.
    fn get(&self, object_id: &ObjectID) -> (r: Option<Object>)
        ensures
            match r {
                Some(o) => self.objects().contains_key(*object_id) && o.id == *object_id
                    && o.value == self.objects()[*object_id],
                None => !self.objects().contains_key(*object_id),
            },
    ;

    /// Every object held, each once, in no promised order.
    fn get_all(&self) -> (r: Vec<Object>)
        ensures
            is_listing(r@, self.objects()),
    ;
}

/// Write access to the actual state.
pub trait Commander: ObjectsState {
    /// Holds `object`, replacing any object of the same identifier.
    fn create(&mut self, object: Object)
        ensures
            final(self).objects() == old(self).objects().insert(object.id, object.value),
    ;

    /// Sets the value of the object `object_id`; does nothing where none is held.
    fn modify(&mut self, object_id: &ObjectID, value: u64)
        ensures
            final(self).objects() == if old(self).objects().contains_key(*object_id) {
                old(self).objects().insert(*object_id, value)
            } else {
                old(self).objects()
            },
    ;

    /// Drops the object `object_id`; does nothing where none is held.
    fn delete(&mut self, object_id: &ObjectID)
        ensures
            final(self).objects() == old(self).objects().remove(*object_id),
    ;
}

/// An objects manager that keeps its objects in memory.
pub struct ObjectsInMemory {
    objects: ObjectTable,
}

impl ObjectsInMemory {
    /// A manager that holds no object.
    pub fn new() -> (r: Self)
        ensures
            r.objects() == Map::<ObjectID, u64>::empty(),
    {
        ObjectsInMemory { objects: ObjectTable::new() }
    }
}

impl ObjectsState for ObjectsInMemory {
    closed spec fn objects(&self) -> Map<ObjectID, u64> {
        self.objects@
    }
}

impl Querier for ObjectsInMemory {
    fn get(&self, object_id: &ObjectID) -> (r: Option<Object>) {
        self.objects.get(*object_id)
    }

    fn get_all(&self) -> (r: Vec<Object>) {
        self.objects.list()
    }
}

impl Commander for ObjectsInMemory {
    fn create(&mut self, object: Object) {
        self.objects.insert(object);
    }

    fn modify(&mut self, object_id: &ObjectID, value: u64) {
        self.objects.set_value(*object_id, value);
    }

    fn delete(&mut self, object_id: &ObjectID) {
        self.objects.remove(*object_id);
    }
}

} // verus!
