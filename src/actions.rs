//! Operations, and the planner that diffs desired against actual state and
//! applies the operations that make them agree.
use vstd::prelude::*;
use crate::object::{
    float_eq, has_id, lemma_objects_map, objects_map, unique_ids, is_listing, values_equal, Object,
    ObjectID,
};
use crate::objects_manager::{Commander as ObjectsManagerCommander, ObjectsState, Querier as ObjectsManagerQuerier};
use crate::state::{StoreError, StoreQuerier, StoreState};

verus! {

/// A single step towards the desired state, carried out on an objects manager.
pub trait Operation {
    /// The state that the operation leaves behind when carried out on `state`.
    spec fn effect(&self, state: Map<ObjectID, u64>) -> Map<ObjectID, u64>;

    /// Carries the operation out on `objects_manager`.
    fn exec<C: ObjectsManagerCommander>(&self, objects_manager: &mut C)
        ensures
            final(objects_manager).objects() == self.effect(old(objects_manager).objects()),
    ;
}

/// Holds an object, replacing any object of the same identifier.
#[derive(Clone, Copy, Debug, PartialEq)]
pub struct OperationCreate {
    pub object: Object,
}

impl OperationCreate {
    pub fn new(object: Object) -> (r: Self)
        ensures
            r.object == object,
    {
        OperationCreate { object }
    }
}

impl Operation for OperationCreate {
    open spec fn effect(&self, state: Map<ObjectID, u64>) -> Map<ObjectID, u64> {
        state.insert(self.object.id, self.object.value)
    }

    fn exec<C: ObjectsManagerCommander>(&self, objects_manager: &mut C) {
        objects_manager.create(self.object);
    }
}

/// Sets the value of a held object; a missing one stays missing.
#[derive(Clone, Copy, Debug, PartialEq)]
pub struct OperationModify {
    pub object_id: ObjectID,
    pub value: u64,
}

impl OperationModify {
    pub fn new(object_id: ObjectID, value: u64) -> (r: Self)
        ensures
            r.object_id == object_id,
            r.value == value,
    {
        OperationModify { object_id, value }
    }
}

impl Operation for OperationModify {
    open spec fn effect(&self, state: Map<ObjectID, u64>) -> Map<ObjectID, u64> {
        if state.contains_key(self.object_id) {
            state.insert(self.object_id, self.value)
        } else {
            state
        }
    }

    fn exec<C: ObjectsManagerCommander>(&self, objects_manager: &mut C) {
        objects_manager.modify(&self.object_id, self.value);
    }
}

/// Drops a held object.
#[derive(Clone, Copy, Debug, PartialEq)]
pub struct OperationDelete {
    pub object_id: ObjectID,
}

impl OperationDelete {
    pub fn new(object_id: ObjectID) -> (r: Self)
        ensures
            r.object_id == object_id,
    {
        OperationDelete { object_id }
    }
}

impl Operation for OperationDelete {
    open spec fn effect(&self, state: Map<ObjectID, u64>) -> Map<ObjectID, u64> {
        state.remove(self.object_id)
    }

    fn exec<C: ObjectsManagerCommander>(&self, objects_manager: &mut C) {
        objects_manager.delete(&self.object_id);
    }
}

/// The closed set of operations that the planner emits.
#[derive(Clone, Copy, Debug, PartialEq)]
pub enum Action {
    Create(OperationCreate),
    Modify(OperationModify),
    Delete(OperationDelete),
}

/// The state that `op` leaves behind when applied to `m`.
pub open spec fn apply_op(op: Action, m: Map<ObjectID, u64>) -> Map<ObjectID, u64> {
    match op {
        Action::Create(c) => c.effect(m),
        Action::Modify(c) => c.effect(m),
        Action::Delete(c) => c.effect(m),
    }
}

/// The state that `ops`, applied in order, leave behind from `m`.
pub open spec fn apply_ops(ops: Seq<Action>, m: Map<ObjectID, u64>) -> Map<ObjectID, u64>
    decreases ops.len(),
{
    if ops.len() == 0 {
        m
    } else {
        apply_op(ops.last(), apply_ops(ops.drop_last(), m))
    }
}

impl Operation for Action {
    open spec fn effect(&self, state: Map<ObjectID, u64>) -> Map<ObjectID, u64> {
        apply_op(*self, state)
    }

    fn exec<C: ObjectsManagerCommander>(&self, objects_manager: &mut C) {
        match self {
            Action::Create(c) => c.exec(objects_manager),
            Action::Modify(c) => c.exec(objects_manager),
            Action::Delete(c) => c.exec(objects_manager),
        }
    }
}

/// Objects whose identifier `s` does not hold.
pub open spec fn absent_from(s: Seq<Object>) -> spec_fn(Object) -> bool {
    |o: Object| !has_id(s, o.id)
}

/// Objects whose identifier `s` holds with a value that is not equal.
pub open spec fn changed_in(s: Seq<Object>) -> spec_fn(Object) -> bool {
    |o: Object| has_id(s, o.id) && !float_eq(objects_map(s)[o.id], o.value)
}

/// Create pass: a `Create` for each desired object that actual state lacks.
pub open spec fn create_ops(desired: Seq<Object>, existing: Seq<Object>) -> Seq<Action> {
    desired.filter(absent_from(existing)).map_values(
        |o: Object| Action::Create(OperationCreate { object: o }),
    )
}

/// Modify pass: a `Modify` to the desired value for each desired object
/// that actual state holds with another value.
pub open spec fn modify_ops(desired: Seq<Object>, existing: Seq<Object>) -> Seq<Action> {
    desired.filter(changed_in(existing)).map_values(
        |o: Object| Action::Modify(OperationModify { object_id: o.id, value: o.value }),
    )
}

/// Delete pass: a `Delete` for each actual object that is not desired.
pub open spec fn delete_ops(desired: Seq<Object>, existing: Seq<Object>) -> Seq<Action> {
    existing.filter(absent_from(desired)).map_values(
        |o: Object| Action::Delete(OperationDelete { object_id: o.id }),
    )
}

/// The plan for a pair of snapshots: creates, then modifies, then deletes.
pub open spec fn plan_ops(desired: Seq<Object>, existing: Seq<Object>) -> Seq<Action> {
    create_ops(desired, existing) + modify_ops(desired, existing) + delete_ops(desired, existing)
}

/// Growing the scanned prefix of `desired` by one object adds at most one
/// operation to the create pass.
proof fn lemma_create_ops_step(desired: Seq<Object>, existing: Seq<Object>, i: int)
    requires
        0 <= i < desired.len(),
    ensures
        create_ops(desired.take(i + 1), existing) == create_ops(desired.take(i), existing) + if has_id(
            existing,
            desired[i].id,
        ) {
            Seq::<Action>::empty()
        } else {
            seq![Action::Create(OperationCreate { object: desired[i] })]
        },
{
    reveal(Seq::filter);
    let t = desired.take(i + 1);
    assert(t.drop_last() =~= desired.take(i));
    assert(t.last() == desired[i]);
    let expected = create_ops(desired.take(i), existing) + if has_id(existing, desired[i].id) {
        Seq::<Action>::empty()
    } else {
        seq![Action::Create(OperationCreate { object: desired[i] })]
    };
    assert(create_ops(t, existing) =~= expected);
}

/// Growing the scanned prefix of `desired` by one object adds at most one
/// operation to the modify pass.
proof fn lemma_modify_ops_step(desired: Seq<Object>, existing: Seq<Object>, i: int)
    requires
        0 <= i < desired.len(),
    ensures
        modify_ops(desired.take(i + 1), existing) == modify_ops(desired.take(i), existing) + if (changed_in(
            existing,
        ))(desired[i]) {
            seq![Action::Modify(OperationModify { object_id: desired[i].id, value: desired[i].value })]
        } else {
            Seq::<Action>::empty()
        },
{
    reveal(Seq::filter);
    let t = desired.take(i + 1);
    assert(t.drop_last() =~= desired.take(i));
    assert(t.last() == desired[i]);
    let expected = modify_ops(desired.take(i), existing) + if (changed_in(existing))(desired[i]) {
        seq![Action::Modify(OperationModify { object_id: desired[i].id, value: desired[i].value })]
    } else {
        Seq::<Action>::empty()
    };
    assert(modify_ops(t, existing) =~= expected);
}

/// Growing the scanned prefix of `existing` by one object adds at most one
/// operation to the delete pass.
proof fn lemma_delete_ops_step(desired: Seq<Object>, existing: Seq<Object>, i: int)
    requires
        0 <= i < existing.len(),
    ensures
        delete_ops(desired, existing.take(i + 1)) == delete_ops(desired, existing.take(i)) + if has_id(
            desired,
            existing[i].id,
        ) {
            Seq::<Action>::empty()
        } else {
            seq![Action::Delete(OperationDelete { object_id: existing[i].id })]
        },
{
    reveal(Seq::filter);
    let t = existing.take(i + 1);
    assert(t.drop_last() =~= existing.take(i));
    assert(t.last() == existing[i]);
    let expected = delete_ops(desired, existing.take(i)) + if has_id(desired, existing[i].id) {
        Seq::<Action>::empty()
    } else {
        seq![Action::Delete(OperationDelete { object_id: existing[i].id })]
    };
    assert(delete_ops(desired, t) =~= expected);
}

/// Diffs a snapshot of desired state against one of actual state.
pub struct Planner {
    state_desired: Vec<Object>,
    state_existing: Vec<Object>,
    operations: Vec<Action>,
}

impl Planner {
    #[verifier::type_invariant]
    spec fn inv(&self) -> bool {
        unique_ids(self.state_desired@) && unique_ids(self.state_existing@)
    }

    /// The snapshot of desired state.
    pub closed spec fn desired(&self) -> Seq<Object> {
        self.state_desired@
    }

    /// The snapshot of actual state.
    pub closed spec fn existing(&self) -> Seq<Object> {
        self.state_existing@
    }

    /// The operations planned so far.
    pub closed spec fn planned(&self) -> Seq<Action> {
        self.operations@
    }

    /// A planner over snapshots taken now from `state_querier` and
    /// `objects_fetcher`; fails where the store fails to list its objects.
    pub fn new<S: StoreQuerier, Q: ObjectsManagerQuerier>(
        state_querier: &S,
        objects_fetcher: &Q,
    ) -> (r: Result<Self, StoreError>)
        ensures
            match r {
                Ok(p) => is_listing(p.desired(), state_querier.declared()) && is_listing(
                    p.existing(),
                    objects_fetcher.objects(),
                ) && p.planned() == Seq::<Action>::empty(),
                Err(_) => !state_querier.infallible(),
            },
    {
        let state_objects = match state_querier.get_all() {
            Ok(v) => v,
            Err(e) => {
                return Err(e);
            },
        };
        let real_objects = objects_fetcher.get_all();
        Ok(Planner::from_snapshots(state_objects, real_objects))
    }

    /// A planner over snapshots already taken: neither lists an identifier twice.
    pub fn from_snapshots(state_desired: Vec<Object>, state_existing: Vec<Object>) -> (r: Self)
        requires
            unique_ids(state_desired@),
            unique_ids(state_existing@),
        ensures
            r.desired() == state_desired@,
            r.existing() == state_existing@,
            r.planned() == Seq::<Action>::empty(),
    {
        Planner { state_desired, state_existing, operations: Vec::new() }
    }

    /// Create pass.
    fn plan_create(&self, operations: &mut Vec<Action>)
        ensures
            final(operations)@ == old(operations)@ + create_ops(self.desired(), self.existing()),
    {
        let ghost base = operations@;
        let mut i: usize = 0;
        while i < self.state_desired.len()
            invariant
                i <= self.state_desired@.len(),
                operations@ == base + create_ops(self.state_desired@.take(i as int), self.state_existing@),
            decreases self.state_desired@.len() - i,
        {
            let object = self.state_desired[i];
            let mut already_exists = false;
            let mut j: usize = 0;
            while j < self.state_existing.len() && !already_exists
                invariant
                    i < self.state_desired@.len(),
                    j <= self.state_existing@.len(),
                    object == self.state_desired@[i as int],
                    operations@ == base + create_ops(self.state_desired@.take(i as int), self.state_existing@),
                    already_exists == has_id(self.state_existing@.take(j as int), object.id),
                decreases self.state_existing@.len() - j,
            {
                proof {
                    let t = self.state_existing@.take(j as int + 1);
                    assert(t[j as int] == self.state_existing@[j as int]);
                    if has_id(self.state_existing@.take(j as int), object.id) {
                        let k = choose|k: int| 0 <= k < j && #[trigger] self.state_existing@.take(j as int)[k].id == object.id;
                        assert(t[k] == self.state_existing@.take(j as int)[k]);
                    }
                    if has_id(t, object.id) {
                        let k = choose|k: int| 0 <= k < j + 1 && #[trigger] t[k].id == object.id;
                        if k < j {
                            assert(t[k] == self.state_existing@.take(j as int)[k]);
                        }
                    }
                }
                if self.state_existing[j].id == object.id {
                    already_exists = true;
                }
                j = j + 1;
            }
            proof {
                let e = self.state_existing@;
                if has_id(e.take(j as int), object.id) {
                    let k = choose|k: int| 0 <= k < j && #[trigger] e.take(j as int)[k].id == object.id;
                    assert(e[k].id == object.id);
                }
                if !already_exists {
                    assert(e.take(j as int) =~= e);
                }
                lemma_create_ops_step(self.state_desired@, e, i as int);
            }
            let ghost before = operations@;
            if !already_exists {
                operations.push(Action::Create(OperationCreate::new(object)));
            }
            proof {
                let added = if already_exists {
                    Seq::<Action>::empty()
                } else {
                    seq![Action::Create(OperationCreate { object })]
                };
                assert(operations@ =~= before + added);
                assert(base + (create_ops(self.state_desired@.take(i as int), self.state_existing@) + added)
                    =~= before + added);
            }
            i = i + 1;
        }
        proof {
            assert(self.state_desired@.take(i as int) =~= self.state_desired@);
        }
    }

    /// Modify pass.
    fn plan_update(&self, operations: &mut Vec<Action>)
        ensures
            final(operations)@ == old(operations)@ + modify_ops(self.desired(), self.existing()),
    {
        proof {
            use_type_invariant(self);
        }
        let ghost base = operations@;
        let mut i: usize = 0;
        while i < self.state_desired.len()
            invariant
                i <= self.state_desired@.len(),
                unique_ids(self.state_existing@),
                operations@ == base + modify_ops(self.state_desired@.take(i as int), self.state_existing@),
            decreases self.state_desired@.len() - i,
        {
            let object = self.state_desired[i];
            let ghost before = operations@;
            let ghost op = Action::Modify(OperationModify { object_id: object.id, value: object.value });
            let mut j: usize = 0;
            while j < self.state_existing.len()
                invariant
                    i < self.state_desired@.len(),
                    j <= self.state_existing@.len(),
                    object == self.state_desired@[i as int],
                    op == Action::Modify(OperationModify { object_id: object.id, value: object.value }),
                    unique_ids(self.state_existing@),
                    operations@ == before + if exists|k: int|
                        0 <= k < j && #[trigger] self.state_existing@[k].id == object.id && !float_eq(
                            self.state_existing@[k].value,
                            object.value,
                        ) {
                        seq![op]
                    } else {
                        Seq::<Action>::empty()
                    },
                decreases self.state_existing@.len() - j,
            {
                let real_object = self.state_existing[j];
                if real_object.id == object.id && !values_equal(real_object.value, object.value) {
                    proof {
                        assert(forall|k: int| 0 <= k < j ==> #[trigger] self.state_existing@[k].id != object.id);
                    }
                    proof {
                        assert(operations@ =~= before);
                    }
                    let m = OperationModify::new(object.id, object.value);
                    operations.push(Action::Modify(m));
                    proof {
                        assert(operations@ =~= before + seq![op]);
                    }
                }
                j = j + 1;
            }
            proof {
                let e = self.state_existing@;
                lemma_objects_map(e);
                if (changed_in(e))(object) {
                    let k = choose|k: int| 0 <= k < e.len() && #[trigger] e[k].id == object.id;
                    assert(objects_map(e)[e[k].id] == e[k].value);
                }
                if exists|k: int| 0 <= k < j && #[trigger] e[k].id == object.id && !float_eq(e[k].value, object.value) {
                    let k = choose|k: int| 0 <= k < j && #[trigger] e[k].id == object.id && !float_eq(e[k].value, object.value);
                    assert(objects_map(e)[e[k].id] == e[k].value);
                    assert(has_id(e, object.id));
                }
                lemma_modify_ops_step(self.state_desired@, e, i as int);
                let added = if (changed_in(e))(object) { seq![op] } else { Seq::<Action>::empty() };
                assert(operations@ =~= before + added);
                assert(base + (modify_ops(self.state_desired@.take(i as int), e) + added) =~= before + added);
            }
            i = i + 1;
        }
        proof {
            assert(self.state_desired@.take(i as int) =~= self.state_desired@);
        }
    }

    /// Delete pass.
    fn plan_delete(&self, operations: &mut Vec<Action>)
        ensures
            final(operations)@ == old(operations)@ + delete_ops(self.desired(), self.existing()),
    {
        let ghost base = operations@;
        let mut i: usize = 0;
        while i < self.state_existing.len()
            invariant
                i <= self.state_existing@.len(),
                operations@ == base + delete_ops(self.state_desired@, self.state_existing@.take(i as int)),
            decreases self.state_existing@.len() - i,
        {
            let real_object = self.state_existing[i];
            let mut should_exist = false;
            let mut j: usize = 0;
            while j < self.state_desired.len() && !should_exist
                invariant
                    i < self.state_existing@.len(),
                    j <= self.state_desired@.len(),
                    real_object == self.state_existing@[i as int],
                    should_exist == has_id(self.state_desired@.take(j as int), real_object.id),
                    operations@ == base + delete_ops(self.state_desired@, self.state_existing@.take(i as int)),
                decreases self.state_desired@.len() - j,
            {
                proof {
                    let p = self.state_desired@.take(j as int);
                    let t = self.state_desired@.take(j as int + 1);
                    assert(t[j as int] == self.state_desired@[j as int]);
                    if has_id(p, real_object.id) {
                        let k = choose|k: int| 0 <= k < j && #[trigger] p[k].id == real_object.id;
                        assert(t[k] == p[k]);
                    }
                    if has_id(t, real_object.id) {
                        let k = choose|k: int| 0 <= k < j + 1 && #[trigger] t[k].id == real_object.id;
                        if k < j {
                            assert(t[k] == p[k]);
                        }
                    }
                }
                if self.state_desired[j].id == real_object.id {
                    should_exist = true;
                }
                j = j + 1;
            }
            proof {
                let d = self.state_desired@;
                if has_id(d.take(j as int), real_object.id) {
                    let k = choose|k: int| 0 <= k < j && #[trigger] d.take(j as int)[k].id == real_object.id;
                    assert(d[k].id == real_object.id);
                }
                if !should_exist {
                    assert(d.take(j as int) =~= d);
                }
                lemma_delete_ops_step(d, self.state_existing@, i as int);
            }
            let ghost before = operations@;
            if !should_exist {
                operations.push(Action::Delete(OperationDelete::new(real_object.id)));
            }
            proof {
                let added = if should_exist {
                    Seq::<Action>::empty()
                } else {
                    seq![Action::Delete(OperationDelete { object_id: real_object.id })]
                };
                assert(operations@ =~= before + added);
                assert(base + (delete_ops(self.state_desired@, self.state_existing@.take(i as int)) + added)
                    =~= before + added);
            }
            i = i + 1;
        }
        proof {
            assert(self.state_existing@.take(i as int) =~= self.state_existing@);
        }
    }

    /// Appends to the planned operations those that take the actual snapshot
    /// to the desired one: creates, then modifies, then deletes.
    pub fn plan(&mut self)
        ensures
            final(self).desired() == old(self).desired(),
            final(self).existing() == old(self).existing(),
            final(self).planned() == old(self).planned() + plan_ops(old(self).desired(), old(self).existing()),
    {
        proof {
            use_type_invariant(&*self);
        }
        let mut operations: Vec<Action> = Vec::new();
        std::mem::swap(&mut operations, &mut self.operations);
        let ghost before = operations@;
        self.plan_create(&mut operations);
        self.plan_update(&mut operations);
        self.plan_delete(&mut operations);
        self.operations = operations;
        proof {
            let d = self.state_desired@;
            let e = self.state_existing@;
            assert(before + create_ops(d, e) + modify_ops(d, e) + delete_ops(d, e) =~= before
                + plan_ops(d, e));
        }
    }

    /// Carries the planned operations out on `objects_manager`, in order.
    pub fn apply<C: ObjectsManagerCommander>(&self, objects_manager: &mut C)
        ensures
            final(objects_manager).objects() == apply_ops(self.planned(), old(objects_manager).objects()),
    {
        let ghost start = objects_manager.objects();
        let mut i: usize = 0;
        while i < self.operations.len()
            invariant
                i <= self.operations@.len(),
                objects_manager.objects() == apply_ops(self.operations@.take(i as int), start),
            decreases self.operations@.len() - i,
        {
            proof {
                let t = self.operations@.take(i as int + 1);
                assert(t.drop_last() =~= self.operations@.take(i as int));
                assert(t.last() == self.operations@[i as int]);
            }
            self.operations[i].exec(objects_manager);
            i = i + 1;
        }
        proof {
            assert(self.operations@.take(i as int) =~= self.operations@);
        }
    }

    /// The operations planned so far, in the order they apply.
    pub fn operations(&self) -> (r: &Vec<Action>)
        ensures
            r@ == self.planned(),
    {
        &self.operations
    }
}

} // verus!
