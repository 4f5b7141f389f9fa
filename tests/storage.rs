use app_base::storage::{ResOwned, ResourceId, Resources};

fn key(n: u128) -> ResourceId {
    ResourceId::from_raw(n)
}

#[test]
fn add_then_get_sees_value() {
    let mut store: Resources<i64> = Resources::new();
    store.add(key(1), 10);
    let view = store.get(key(1)).unwrap().unwrap();
    assert_eq!(*view.get(), 10);
    assert_eq!(view.id(), key(1));
}

#[test]
fn second_add_replaces_first() {
    let mut store: Resources<i64> = Resources::new();
    store.add(key(1), 10);
    store.add(key(1), 20);
    assert_eq!(*store.get(key(1)).unwrap().unwrap().get(), 20);
}

#[test]
fn remove_then_get_is_none() {
    let mut store: Resources<i64> = Resources::new();
    store.add(key(7), 3);
    assert_eq!(store.remove(key(7)), Some(3));
    assert!(store.get(key(7)).unwrap().is_none());
    assert_eq!(store.remove(key(7)), None);
}

#[test]
fn get_missing_is_none() {
    let store: Resources<i64> = Resources::new();
    assert!(store.get(key(2)).unwrap().is_none());
    assert!(!store.contains(key(2)));
}

#[test]
fn add_if_not_present_keeps_existing() {
    let mut store: Resources<i64> = Resources::new();
    store.add_if_not_present(key(1), 5);
    store.add_if_not_present(key(1), 6);
    assert_eq!(*store.get(key(1)).unwrap().unwrap().get(), 5);
}

#[test]
fn add_entry_inserts_pair() {
    let mut store: Resources<i64> = Resources::new();
    store.add_entry((key(4), 44));
    assert_eq!(*store.get(key(4)).unwrap().unwrap().get(), 44);
}

#[test]
fn lent_value_refuses_shared_and_second_exclusive_access() {
    let mut store: Resources<i64> = Resources::new();
    store.add(key(1), 1);
    let mut loan = store.get_mut(key(1)).unwrap().unwrap();
    assert!(store.is_lent(key(1)));
    assert_eq!(store.get(key(1)).err().unwrap().id, key(1));
    assert!(store.get_mut(key(1)).is_err());
    loan.set(9);
    store.restore(loan);
    assert!(!store.is_lent(key(1)));
    assert_eq!(*store.get(key(1)).unwrap().unwrap().get(), 9);
}

#[test]
fn remove_of_lent_slot_gives_nothing_and_drops_late_restore() {
    let mut store: Resources<i64> = Resources::new();
    store.add(key(1), 1);
    let loan = store.get_mut(key(1)).unwrap().unwrap();
    assert_eq!(store.remove(key(1)), None);
    store.restore(loan);
    assert!(!store.contains(key(1)));
}

#[test]
fn restore_after_replacement_keeps_replacement() {
    let mut store: Resources<i64> = Resources::new();
    store.add(key(1), 1);
    let loan = store.get_mut(key(1)).unwrap().unwrap();
    store.add(key(1), 2);
    store.restore(loan);
    assert_eq!(*store.get(key(1)).unwrap().unwrap().get(), 2);
}

#[test]
fn named_key_is_oid_uuid_of_name() {
    assert_eq!(ResourceId::named("Quit").id, 248414643643441917315274297947319217525);
    assert_eq!(ResourceId::named("Log").id, 160625208316259659386745068690368119019);
    assert_ne!(ResourceId::named("Log"), ResourceId::named("Counter"));
}

#[test]
fn owned_copy_holds_value() {
    let owned = ResOwned::new(5u8);
    assert_eq!(*owned.get(), 5);
    assert_eq!(owned.into_inner(), 5);
}
