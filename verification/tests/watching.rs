use inventory_store::error::StoreError;
use inventory_store::item::{Item, ItemIdentifier, Stock};
use inventory_store::store::InventoryStore;
use inventory_store::watch::{WatchEvent, WatchSession};

fn item(sku: &str, quantity: u32, price: u64) -> Item {
    Item {
        identifier: Some(ItemIdentifier { sku: sku.to_string() }),
        stock: Some(Stock { quantity, price }),
    }
}

#[test]
fn subscribe_to_missing_record_fails() {
    let store = InventoryStore::new();
    match WatchSession::subscribe(&store, &"A1".to_string()) {
        Err(e) => assert_eq!(e, StoreError::NotFound),
        Ok(_) => panic!("subscription to a missing record must fail"),
    }
}

#[test]
fn subscribe_with_empty_sku_fails() {
    let store = InventoryStore::new();
    match WatchSession::subscribe(&store, &"".to_string()) {
        Err(e) => assert_eq!(e, StoreError::EmptySku),
        Ok(_) => panic!("subscription with an empty key must fail"),
    }
}

#[test]
fn watch_scenario() {
    let mut store = InventoryStore::new();
    let sku = "A1".to_string();
    assert!(store.add(item("A1", 10, 500)).is_ok());
    let mut session =
        WatchSession::subscribe(&store, &sku).expect("subscription must open");

    // one sampling interval with no mutation: nothing is emitted
    match session.poll(&store) {
        WatchEvent::Unchanged => {}
        _ => panic!("an unchanged record must emit nothing"),
    }

    // a mutation to quantity 9: exactly one change event with quantity 9
    store.decrease_quantity(&sku, 1).expect("decrease must succeed");
    match session.poll(&store) {
        WatchEvent::Changed(it) => {
            assert_eq!(it.stock, Some(Stock { quantity: 9, price: 500 }));
        }
        _ => panic!("a changed record must emit exactly one event"),
    }
    // and no duplicate emission of the same value on the next sample
    match session.poll(&store) {
        WatchEvent::Unchanged => {}
        _ => panic!("an already-emitted value must not be emitted again"),
    }

    // after removal: one terminal event, then the stream is closed
    store.remove(&sku).expect("remove must succeed");
    match session.poll(&store) {
        WatchEvent::Removed => {}
        _ => panic!("a removed record must emit the terminal event"),
    }
}

#[test]
fn reverted_change_within_one_interval_is_invisible() {
    let mut store = InventoryStore::new();
    let sku = "A1".to_string();
    assert!(store.add(item("A1", 10, 500)).is_ok());
    let mut session =
        WatchSession::subscribe(&store, &sku).expect("subscription must open");

    store.decrease_quantity(&sku, 2).expect("decrease must succeed");
    store.increase_quantity(&sku, 2).expect("increase must succeed");
    match session.poll(&store) {
        WatchEvent::Unchanged => {}
        _ => panic!("a change reverted between samples must be coalesced away"),
    }
}

#[test]
fn removed_and_readded_record_is_a_change_not_a_deletion() {
    let mut store = InventoryStore::new();
    let sku = "A1".to_string();
    assert!(store.add(item("A1", 10, 500)).is_ok());
    let mut session =
        WatchSession::subscribe(&store, &sku).expect("subscription must open");

    store.remove(&sku).expect("remove must succeed");
    assert!(store.add(item("A1", 3, 700)).is_ok());
    match session.poll(&store) {
        WatchEvent::Changed(it) => {
            assert_eq!(it.stock, Some(Stock { quantity: 3, price: 700 }));
        }
        _ => panic!("a record re-added before the next sample still exists"),
    }
}
