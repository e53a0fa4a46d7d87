use reconciler::state::in_memory::Store;
use reconciler::state::{chaos, drift, Drift, StoreCommander, StoreQuerier};
use reconciler::Object;

#[test]
fn can_add_and_delete_objects() {
    let mut state = Store::new();
    let object = Object::new(10.1337f64.to_bits());
    state.upsert(object).unwrap();
    assert_eq!(1, state.get_all().unwrap().len());
    state.delete(&object.id).unwrap();
    assert_eq!(0, state.get_all().unwrap().len());
}

#[test]
fn in_memory_store_starts_empty() {
    let store = Store::new();
    assert_eq!(0, store.get_all().unwrap().len());
}

#[test]
fn in_memory_upsert_overwrites_value() {
    let mut store = Store::new();
    let mut object = Object::new(10.0f64.to_bits());
    store.upsert(object).unwrap();
    object.value = 20.0f64.to_bits();
    store.upsert(object).unwrap();
    assert_eq!(1, store.get_all().unwrap().len());
    assert_eq!(20.0, f64::from_bits(store.get_all().unwrap()[0].value));
}

#[test]
fn in_memory_upsert_twice_is_idempotent() {
    let mut store = Store::new();
    let object = Object { id: 3, value: 4 };
    store.upsert(object).unwrap();
    store.upsert(object).unwrap();
    assert_eq!(store.get_all().unwrap(), vec![object]);
}

#[test]
fn in_memory_delete_of_missing_id_is_no_error() {
    let mut store = Store::new();
    store.upsert(Object { id: 1, value: 1 }).unwrap();
    assert_eq!(store.delete(&2), Ok(()));
    assert_eq!(store.get_all().unwrap(), vec![Object { id: 1, value: 1 }]);
}

#[test]
fn drift_selects_by_the_selector_modulo_eight() {
    let listing = vec![Object { id: 1, value: 1 }, Object { id: 2, value: 2 }];
    assert_eq!(drift(0, &listing, 9), Drift::Nothing);
    assert_eq!(drift(4, &listing, 9), Drift::Nothing);
    assert_eq!(drift(2, &listing, 9), Drift::Upsert(Object { id: 1, value: 9 }));
    assert_eq!(drift(10, &listing, 9), Drift::Upsert(Object { id: 1, value: 9 }));
    assert_eq!(drift(3, &listing, 9), Drift::Delete(1));
    assert_eq!(drift(2, &vec![], 9), Drift::Nothing);
    assert_eq!(drift(3, &vec![], 9), Drift::Nothing);
    match drift(9, &listing, 9) {
        Drift::Upsert(o) => {
            assert_eq!(o.value, 9);
            assert!(o.id != 1 && o.id != 2);
        }
        other => panic!("expected a new object, got {:?}", other),
    }
}

#[test]
fn chaos_perturbs_the_store() {
    let mut store = Store::new();
    chaos(&mut store, 1, 5).unwrap();
    let all = store.get_all().unwrap();
    assert_eq!(all.len(), 1);
    assert_eq!(all[0].value, 5);
    chaos(&mut store, 2, 6).unwrap();
    assert_eq!(store.get_all().unwrap()[0].value, 6);
    chaos(&mut store, 0, 7).unwrap();
    assert_eq!(store.get_all().unwrap()[0].value, 6);
    chaos(&mut store, 3, 7).unwrap();
    assert!(store.get_all().unwrap().is_empty());
    chaos(&mut store, 3, 7).unwrap();
    assert!(store.get_all().unwrap().is_empty());
}
