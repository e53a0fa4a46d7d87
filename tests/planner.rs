use reconciler::actions::{Action, Operation, OperationCreate, OperationDelete, OperationModify, Planner};
use reconciler::objects_manager::{Commander, ObjectsInMemory, Querier};
use reconciler::state::in_memory::Store as StoreInMemory;
use reconciler::state::StoreCommander;
use reconciler::Object;

fn v(x: f64) -> u64 {
    x.to_bits()
}

fn obj(id: u128, x: f64) -> Object {
    Object { id, value: v(x) }
}

fn sorted(mut objects: Vec<Object>) -> Vec<Object> {
    objects.sort_by_key(|o| o.id);
    objects
}

#[test]
fn can_plan_objects_creation() {
    let mut state = StoreInMemory::new();
    let mut objects_manager = ObjectsInMemory::new();

    state.upsert(Object::new(v(10.0))).unwrap();

    let mut planner = Planner::new(&state, &objects_manager).unwrap();
    planner.plan();
    planner.apply(&mut objects_manager);

    assert_eq!(1, objects_manager.get_all().len());
}

#[test]
fn can_plan_objects_modification() {
    let mut object = Object::new(v(10.0));
    let mut state = StoreInMemory::new();
    let mut objects_manager = ObjectsInMemory::new();

    objects_manager.create(object);

    object.value = v(1337.0);
    state.upsert(object).unwrap();

    let mut planner = Planner::new(&state, &objects_manager).unwrap();
    planner.plan();
    planner.apply(&mut objects_manager);

    match objects_manager.get(&object.id) {
        Some(object_modified) => {
            assert_eq!(1337.0, f64::from_bits(object_modified.value));
        }
        None => assert!(false),
    }
}

#[test]
fn can_plan_objects_deletion() {
    let object = Object::new(v(10.0));
    let state = StoreInMemory::new();
    let mut objects_manager = ObjectsInMemory::new();

    objects_manager.create(object);

    let mut planner = Planner::new(&state, &objects_manager).unwrap();
    planner.plan();
    planner.apply(&mut objects_manager);

    assert_eq!(0, objects_manager.get_all().len());
}

#[test]
fn create_only_example() {
    let a = obj(0xA, 10.0);
    let mut state = StoreInMemory::new();
    let mut objects_manager = ObjectsInMemory::new();
    state.upsert(a).unwrap();

    let mut planner = Planner::new(&state, &objects_manager).unwrap();
    planner.plan();
    assert_eq!(planner.operations(), &vec![Action::Create(OperationCreate::new(a))]);
    planner.apply(&mut objects_manager);
    assert_eq!(objects_manager.get_all(), vec![a]);
}

#[test]
fn modify_only_example() {
    let mut state = StoreInMemory::new();
    let mut objects_manager = ObjectsInMemory::new();
    state.upsert(obj(0xA, 1337.0)).unwrap();
    objects_manager.create(obj(0xA, 10.0));

    let mut planner = Planner::new(&state, &objects_manager).unwrap();
    planner.plan();
    assert_eq!(
        planner.operations(),
        &vec![Action::Modify(OperationModify::new(0xA, v(1337.0)))]
    );
    planner.apply(&mut objects_manager);
    assert_eq!(objects_manager.get_all(), vec![obj(0xA, 1337.0)]);
}

#[test]
fn delete_only_example() {
    let state = StoreInMemory::new();
    let mut objects_manager = ObjectsInMemory::new();
    objects_manager.create(obj(0xA, 10.0));

    let mut planner = Planner::new(&state, &objects_manager).unwrap();
    planner.plan();
    assert_eq!(planner.operations(), &vec![Action::Delete(OperationDelete::new(0xA))]);
    planner.apply(&mut objects_manager);
    assert!(objects_manager.get_all().is_empty());
}

#[test]
fn no_op_example() {
    let mut state = StoreInMemory::new();
    let objects_manager_seed = obj(0xA, 5.0);
    let mut objects_manager = ObjectsInMemory::new();
    state.upsert(obj(0xA, 5.0)).unwrap();
    objects_manager.create(objects_manager_seed);

    let mut planner = Planner::new(&state, &objects_manager).unwrap();
    planner.plan();
    assert!(planner.operations().is_empty());
}

#[test]
fn converges_from_empty_actual_state() {
    let desired = vec![obj(1, 1.5), obj(2, -3.0), obj(3, 0.0), obj(4, 1e300)];
    let mut state = StoreInMemory::new();
    for o in &desired {
        state.upsert(*o).unwrap();
    }
    let mut objects_manager = ObjectsInMemory::new();

    let mut planner = Planner::new(&state, &objects_manager).unwrap();
    planner.plan();
    assert_eq!(planner.operations().len(), 4);
    planner.apply(&mut objects_manager);
    assert_eq!(sorted(objects_manager.get_all()), desired);
}

#[test]
fn second_cycle_plans_nothing() {
    let mut state = StoreInMemory::new();
    let mut objects_manager = ObjectsInMemory::new();
    for o in [obj(1, 1.0), obj(2, 2.0), obj(3, 3.0)] {
        state.upsert(o).unwrap();
    }
    for o in [obj(2, 20.0), obj(3, 3.0), obj(9, 9.0)] {
        objects_manager.create(o);
    }

    let mut first = Planner::new(&state, &objects_manager).unwrap();
    first.plan();
    assert_eq!(first.operations().len(), 3);
    first.apply(&mut objects_manager);

    let mut second = Planner::new(&state, &objects_manager).unwrap();
    second.plan();
    assert!(second.operations().is_empty());
    assert_eq!(
        sorted(objects_manager.get_all()),
        vec![obj(1, 1.0), obj(2, 2.0), obj(3, 3.0)]
    );
}

#[test]
fn passes_emit_creates_then_modifies_then_deletes() {
    let desired = vec![obj(0xA, 1.0), obj(0xB, 2.0), obj(0xC, 3.0)];
    let existing = vec![obj(0xD, 5.0), obj(0xC, 4.0), obj(0xB, 2.0)];
    let mut planner = Planner::from_snapshots(desired, existing);
    planner.plan();
    assert_eq!(
        planner.operations(),
        &vec![
            Action::Create(OperationCreate::new(obj(0xA, 1.0))),
            Action::Modify(OperationModify::new(0xC, v(3.0))),
            Action::Delete(OperationDelete::new(0xD)),
        ]
    );
}

#[test]
fn planning_twice_appends_a_second_plan() {
    let mut planner = Planner::from_snapshots(vec![obj(1, 1.0)], vec![]);
    planner.plan();
    planner.plan();
    assert_eq!(planner.operations().len(), 2);
}

#[test]
fn signed_zeros_compare_equal_and_plan_nothing() {
    let mut planner = Planner::from_snapshots(vec![obj(1, -0.0)], vec![obj(1, 0.0)]);
    planner.plan();
    assert!(planner.operations().is_empty());
}

#[test]
fn nan_values_never_compare_equal() {
    let mut planner = Planner::from_snapshots(vec![obj(1, f64::NAN)], vec![obj(1, f64::NAN)]);
    planner.plan();
    assert_eq!(
        planner.operations(),
        &vec![Action::Modify(OperationModify::new(1, v(f64::NAN)))]
    );
}

#[test]
fn modify_is_dropped_when_target_vanished_before_apply() {
    let mut objects_manager = ObjectsInMemory::new();
    objects_manager.create(obj(1, 1.0));
    let mut planner = Planner::from_snapshots(vec![obj(1, 2.0)], objects_manager.get_all());
    planner.plan();
    objects_manager.delete(&1);
    planner.apply(&mut objects_manager);
    assert!(objects_manager.get_all().is_empty());
}

#[test]
fn operations_execute_one_by_one() {
    let mut objects_manager = ObjectsInMemory::new();
    Action::Create(OperationCreate::new(obj(7, 1.0))).exec(&mut objects_manager);
    OperationModify::new(7, v(2.0)).exec(&mut objects_manager);
    assert_eq!(objects_manager.get(&7), Some(obj(7, 2.0)));
    OperationDelete::new(7).exec(&mut objects_manager);
    assert_eq!(objects_manager.get(&7), None);
}
