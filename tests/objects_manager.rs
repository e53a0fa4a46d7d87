use reconciler::objects_manager::{Commander, ObjectsInMemory, Querier};
use reconciler::Object;

#[test]
fn can_create_object() {
    let mut manager = ObjectsInMemory::new();
    manager.create(Object::new(10.0f64.to_bits()));
    assert_eq!(1, manager.get_all().len());
}

#[test]
fn can_modify_object() {
    let mut manager = ObjectsInMemory::new();
    let object = Object::new(10.0f64.to_bits());
    manager.create(object);
    manager.modify(&object.id, 15.0f64.to_bits());
    match manager.get(&object.id) {
        Some(object) => {
            assert_eq!(15.0, f64::from_bits(object.value));
        }
        None => {
            assert!(false);
        }
    }
    assert_eq!(1, manager.get_all().len());
}

#[test]
fn objects_manager_can_delete_object() {
    let object = Object::new(10.0f64.to_bits());
    let mut manager = ObjectsInMemory::new();
    manager.create(object);
    manager.delete(&object.id);
    assert_eq!(0, manager.get_all().len());
}

#[test]
fn create_overwrites_an_object_of_the_same_id() {
    let mut manager = ObjectsInMemory::new();
    manager.create(Object { id: 5, value: 1 });
    manager.create(Object { id: 5, value: 2 });
    assert_eq!(manager.get_all(), vec![Object { id: 5, value: 2 }]);
}

#[test]
fn modify_and_delete_of_a_missing_id_change_nothing() {
    let mut manager = ObjectsInMemory::new();
    manager.create(Object { id: 1, value: 10 });
    manager.modify(&2, 99);
    manager.delete(&3);
    assert_eq!(manager.get_all(), vec![Object { id: 1, value: 10 }]);
    assert_eq!(manager.get(&2), None);
}

#[test]
fn fresh_objects_get_distinct_version_four_ids() {
    let a = Object::new(1);
    let b = Object::new(1);
    assert_ne!(a.id, b.id);
    assert_eq!((a.id >> 76) & 0xf, 4);
    assert_eq!((a.id >> 62) & 0x3, 2);
    assert_eq!(a.value, 1);
}
