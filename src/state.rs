//! The desired-state store: the objects a user declared, behind query and
//! command access. Backends may fail; such a failure is a `StoreError`.
use vstd::prelude::*;
use crate::object::{is_listing, lemma_objects_map_domain, objects_map, Object, ObjectID};

pub mod in_memory;
pub mod rows;

verus! {

/// Failure of a desired-state store operation.
#[derive(Debug, PartialEq)]
pub enum StoreError {
    /// The backend could not carry out the operation; the text says why.
    Backend(String),
    /// A stored identifier is not a UUID; the payload is the stored text.
    InvalidId(String),
}

/// What a store holds, and whether it is a backend that never fails.
pub trait StoreState {
    /// Each declared identifier mapped to its value.
    spec fn declared(&self) -> Map<ObjectID, u64>;

    /// The backend's operations cannot fail.
    spec fn infallible(&self) -> bool;
}

/// Read access to the desired state.
pub trait StoreQuerier: StoreState {
    /// Every declared object, each once, in no promised order.
    fn get_all(&self) -> (r: Result<Vec<Object>, StoreError>)
        ensures
            match r {
                Ok(v) => is_listing(v@, self.declared()),
                Err(_) => !self.infallible(),
            },
    ;
}

/// Write access to the desired state.
pub trait StoreCommander: StoreState {
    /// Declares `object`, replacing the value of any object of its identifier.
    fn upsert(&mut self, object: Object) -> (r: Result<(), StoreError>)
        ensures
            final(self).infallible() == old(self).infallible(),
            match r {
                Ok(()) => final(self).declared() == old(self).declared().insert(
                    object.id,
                    object.value,
                ),
                Err(_) => !old(self).infallible() && final(self).declared() == old(self).declared(),
            },
    ;

    /// Withdraws the object `object_id`; nothing happens where none is declared.
    fn delete(&mut self, object_id: &ObjectID) -> (r: Result<(), StoreError>)
        ensures
            final(self).infallible() == old(self).infallible(),
            match r {
                Ok(()) => final(self).declared() == old(self).declared().remove(*object_id),
                Err(_) => !old(self).infallible() && final(self).declared() == old(self).declared(),
            },
    ;
}

/// A desired-state store with both kinds of access.
pub trait Store: StoreQuerier + StoreCommander {

}

/// A change made to the desired state from outside, to exercise convergence.
#[derive(Clone, Copy, Debug, PartialEq)]
pub enum Drift {
    Nothing,
    Upsert(Object),
    Delete(ObjectID),
}

/// The selector asks for a new object.
pub open spec fn selects_create(selector: u8) -> bool {
    selector % 8 == 1
}

/// The selector asks to change the value of the first listed object.
pub open spec fn selects_modify(selector: u8) -> bool {
    selector % 8 == 2
}

/// The selector asks to withdraw the first listed object.
pub open spec fn selects_delete(selector: u8) -> bool {
    selector % 8 == 3
}

/// The change that `selector` picks, given a listing of the desired state and
/// a value for a new or changed object: one time in eight each a new object,
/// a new value for the first listed object, or its withdrawal; else nothing.
pub fn drift(selector: u8, declared: &Vec<Object>, value: u64) -> (r: Drift)
    ensures
        selects_create(selector) ==> (r matches Drift::Upsert(o) && o.value == value),
        selects_modify(selector) ==> r == if declared@.len() == 0 {
            Drift::Nothing
        } else {
            Drift::Upsert(Object { id: declared@[0].id, value })
        },
        selects_delete(selector) ==> r == if declared@.len() == 0 {
            Drift::Nothing
        } else {
            Drift::Delete(declared@[0].id)
        },
        !selects_create(selector) && !selects_modify(selector) && !selects_delete(selector) ==> r
            == Drift::Nothing,
{
    let choice = selector % 8;
    if choice == 1 {
        Drift::Upsert(Object::new(value))
    } else if choice == 2 {
        if declared.len() == 0 {
            Drift::Nothing
        } else {
            Drift::Upsert(Object { id: declared[0].id, value })
        }
    } else if choice == 3 {
        if declared.len() == 0 {
            Drift::Nothing
        } else {
            Drift::Delete(declared[0].id)
        }
    } else {
        Drift::Nothing
    }
}

/// Perturbs the desired state of `state` as `drift` picks; the first listed
/// object is whichever the store lists first.
pub fn chaos<S: Store>(state: &mut S, selector: u8, value: u64) -> (r: Result<(), StoreError>)
    ensures
        final(state).infallible() == old(state).infallible(),
        match r {
            Ok(()) => {
                let before = old(state).declared();
                let after = final(state).declared();
                &&& selects_create(selector) ==> exists|id: ObjectID| after == before.insert(id, value)
                &&& selects_modify(selector) ==> if before == Map::<ObjectID, u64>::empty() {
                    after == before
                } else {
                    exists|id: ObjectID| before.contains_key(id) && after == before.insert(id, value)
                }
                &&& selects_delete(selector) ==> if before == Map::<ObjectID, u64>::empty() {
                    after == before
                } else {
                    exists|id: ObjectID| before.contains_key(id) && after == before.remove(id)
                }
                &&& !selects_create(selector) && !selects_modify(selector) && !selects_delete(
                    selector,
                ) ==> after == before
            },
            Err(_) => !old(state).infallible() && final(state).declared() == old(state).declared(),
        },
{
    let choice = selector % 8;
    let declared = if choice == 2 || choice == 3 {
        match state.get_all() {
            Ok(v) => v,
            Err(e) => {
                return Err(e);
            },
        }
    } else {
        Vec::new()
    };
    proof {
        if choice == 2 || choice == 3 {
            lemma_objects_map_domain(declared@);
            if declared@.len() == 0 {
                assert(state.declared() =~= Map::<ObjectID, u64>::empty());
            } else {
                assert(state.declared().contains_key(declared@[0].id));
                assert(state.declared() != Map::<ObjectID, u64>::empty());
            }
        }
    }
    let ghost before = state.declared();
    let change = drift(selector, &declared, value);
    match change {
        Drift::Nothing => Ok(()),
        Drift::Upsert(o) => {
            let r = state.upsert(o);
            proof {
                if r is Ok {
                    assert(state.declared() == before.insert(o.id, value));
                }
            }
            r
        },
        Drift::Delete(id) => {
            let r = state.delete(&id);
            proof {
                if r is Ok {
                    assert(state.declared() == before.remove(id));
                }
            }
            r
        },
    }
}

} // verus!
