//! A desired-state store that lives as long as the process.
use vstd::prelude::*;
use crate::object::{Object, ObjectID};
use crate::state::{Store as StateStore, StoreCommander, StoreError, StoreQuerier, StoreState};
use crate::table::ObjectTable;

verus! {

/// Desired state kept in memory; its operations never fail.
pub struct Store {
    objects: ObjectTable,
}

impl Store {
    /// A store that declares nothing.
    pub fn new() -> (r: Self)
        ensures
            r.declared() == Map::<ObjectID, u64>::empty(),
            r.infallible(),
    {
        Store { objects: ObjectTable::new() }
    }
}

impl StoreState for Store {
    closed spec fn declared(&self) -> Map<ObjectID, u64> {
        self.objects@
    }

    closed spec fn infallible(&self) -> bool {
        true
    }
}

impl StoreQuerier for Store {
    fn get_all(&self) -> (r: Result<Vec<Object>, StoreError>) {
        Ok(self.objects.list())
    }
}

impl StoreCommander for Store {
    fn upsert(&mut self, object: Object) -> (r: Result<(), StoreError>) {
        self.objects.insert(object);
        Ok(())
    }

    fn delete(&mut self, object_id: &ObjectID) -> (r: Result<(), StoreError>) {
        self.objects.remove(*object_id);
        Ok(())
    }
}

impl StateStore for Store {

}

} // verus!
