use inventory_store::error::{ErrorKind, StoreError};
use inventory_store::item::{item_eq, Item, ItemIdentifier, Stock};
use inventory_store::store::{InventoryStore, RemoveOutcome};

fn item(sku: &str, quantity: u32, price: u64) -> Item {
    Item {
        identifier: Some(ItemIdentifier { sku: sku.to_string() }),
        stock: Some(Stock { quantity, price }),
    }
}

#[test]
fn add_then_get_returns_equal_item() {
    let mut store = InventoryStore::new();
    let original = item("A1", 10, 500);
    assert!(store.add(item("A1", 10, 500)).is_ok());
    let got = store.get(&"A1".to_string()).expect("item must be found");
    assert!(item_eq(&got, &original));
}

#[test]
fn add_duplicate_fails_and_keeps_first_record() {
    let mut store = InventoryStore::new();
    assert!(store.add(item("A1", 10, 500)).is_ok());
    let second = store.add(item("A1", 99, 900));
    assert_eq!(second, Err(StoreError::AlreadyExists));
    assert_eq!(StoreError::AlreadyExists.kind(), ErrorKind::AlreadyExists);
    let got = store.get(&"A1".to_string()).expect("first record must remain");
    assert_eq!(got.stock, Some(Stock { quantity: 10, price: 500 }));
}

#[test]
fn add_missing_identifier_rejected() {
    let mut store = InventoryStore::new();
    let bad = Item { identifier: None, stock: Some(Stock { quantity: 1, price: 1 }) };
    assert_eq!(store.add(bad), Err(StoreError::MissingIdentifier));
}

#[test]
fn add_empty_sku_rejected() {
    let mut store = InventoryStore::new();
    assert_eq!(store.add(item("", 1, 1)), Err(StoreError::EmptySku));
    assert_eq!(StoreError::EmptySku.kind(), ErrorKind::InvalidArgument);
}

#[test]
fn add_missing_stock_rejected() {
    let mut store = InventoryStore::new();
    let bad = Item {
        identifier: Some(ItemIdentifier { sku: "A1".to_string() }),
        stock: None,
    };
    assert_eq!(store.add(bad), Err(StoreError::MissingStock));
}

#[test]
fn add_zero_price_rejected() {
    let mut store = InventoryStore::new();
    assert_eq!(store.add(item("A1", 1, 0)), Err(StoreError::NonPositivePrice));
}

#[test]
fn decrease_more_than_quantity_fails_and_leaves_quantity() {
    let mut store = InventoryStore::new();
    assert!(store.add(item("A1", 5, 500)).is_ok());
    let r = store.decrease_quantity(&"A1".to_string(), 6);
    assert_eq!(r, Err(StoreError::InsufficientStock));
    let got = store.get(&"A1".to_string()).expect("record must remain");
    assert_eq!(got.stock, Some(Stock { quantity: 5, price: 500 }));
}

#[test]
fn decrease_then_increase_restores_quantity() {
    let mut store = InventoryStore::new();
    assert!(store.add(item("A1", 10, 500)).is_ok());
    let down = store.decrease_quantity(&"A1".to_string(), 4).expect("decrease must succeed");
    assert_eq!(down, Stock { quantity: 6, price: 500 });
    let up = store.increase_quantity(&"A1".to_string(), 4).expect("increase must succeed");
    assert_eq!(up, Stock { quantity: 10, price: 500 });
    let got = store.get(&"A1".to_string()).expect("record must remain");
    assert_eq!(got.stock, Some(Stock { quantity: 10, price: 500 }));
}

#[test]
fn quantity_change_of_zero_rejected() {
    let mut store = InventoryStore::new();
    assert!(store.add(item("A1", 10, 500)).is_ok());
    assert_eq!(store.decrease_quantity(&"A1".to_string(), 0), Err(StoreError::ZeroQuantity));
    assert_eq!(store.increase_quantity(&"A1".to_string(), 0), Err(StoreError::ZeroQuantity));
}

#[test]
fn quantity_change_of_missing_record_not_found() {
    let mut store = InventoryStore::new();
    assert_eq!(store.decrease_quantity(&"A1".to_string(), 1), Err(StoreError::NotFound));
    assert_eq!(store.increase_quantity(&"A1".to_string(), 1), Err(StoreError::NotFound));
    assert_eq!(StoreError::NotFound.kind(), ErrorKind::NotFound);
}

#[test]
fn update_price_to_current_price_fails_and_leaves_price() {
    let mut store = InventoryStore::new();
    assert!(store.add(item("A1", 10, 500)).is_ok());
    let r = store.update_price(&"A1".to_string(), 500);
    assert_eq!(r, Err(StoreError::PriceUnchanged));
    assert_eq!(StoreError::PriceUnchanged.kind(), ErrorKind::InvalidArgument);
    let got = store.get(&"A1".to_string()).expect("record must remain");
    assert_eq!(got.stock, Some(Stock { quantity: 10, price: 500 }));
}

#[test]
fn update_price_validation() {
    let mut store = InventoryStore::new();
    assert_eq!(store.update_price(&"".to_string(), 500), Err(StoreError::EmptySku));
    assert_eq!(store.update_price(&"A1".to_string(), 0), Err(StoreError::NonPositivePrice));
    assert_eq!(store.update_price(&"A1".to_string(), 500), Err(StoreError::NotFound));
}

#[test]
fn remove_nonexistent_succeeds_and_get_all_excludes_it() {
    let mut store = InventoryStore::new();
    assert!(store.add(item("A1", 10, 500)).is_ok());
    let r = store.remove(&"B2".to_string());
    assert_eq!(r, Ok(RemoveOutcome::DidNotExist));
    let all = store.get_all();
    assert_eq!(all.len(), 1);
    for it in &all {
        let id = it.identifier.as_ref().expect("stored records carry a key");
        assert_ne!(id.sku, "B2");
    }
}

#[test]
fn remove_empty_sku_rejected() {
    let mut store = InventoryStore::new();
    assert_eq!(store.remove(&"".to_string()), Err(StoreError::EmptySku));
}

#[test]
fn get_empty_sku_rejected() {
    let store = InventoryStore::new();
    assert_eq!(
        store.get(&"".to_string()).expect_err("empty key must be rejected"),
        StoreError::EmptySku
    );
}

#[test]
fn get_all_lists_every_record() {
    let mut store = InventoryStore::new();
    assert!(store.add(item("A1", 1, 100)).is_ok());
    assert!(store.add(item("B2", 2, 200)).is_ok());
    assert!(store.add(item("C3", 3, 300)).is_ok());
    let all = store.get_all();
    assert_eq!(all.len(), 3);
    let mut skus: Vec<String> = all
        .iter()
        .map(|it| it.identifier.as_ref().expect("stored records carry a key").sku.clone())
        .collect();
    skus.sort();
    assert_eq!(skus, vec!["A1".to_string(), "B2".to_string(), "C3".to_string()]);
}

#[test]
fn default_store_is_empty() {
    let store = InventoryStore::default();
    assert!(store.get_all().is_empty());
}

#[test]
fn error_messages_match_the_interface() {
    assert_eq!(StoreError::EmptySku.message(), "provided SKU was empty");
    assert_eq!(StoreError::MissingIdentifier.message(), "no ID or SKU provided for item");
    assert_eq!(StoreError::MissingStock.message(), "no stock provided for item");
    assert_eq!(StoreError::NonPositivePrice.message(), "provided PRICE was invalid");
    assert_eq!(StoreError::AlreadyExists.message(), "item already exists in inventory");
    assert_eq!(StoreError::NotFound.message(), "the item requested was not found");
    assert_eq!(StoreError::ZeroQuantity.message(), "item is already at this quantity");
    assert_eq!(StoreError::PriceUnchanged.message(), "item is already at this price");
    assert_eq!(StoreError::CorruptRecord.kind(), ErrorKind::Internal);
}

#[test]
fn full_scenario() {
    let mut store = InventoryStore::new();
    let sku = "A1".to_string();
    assert!(store.add(item("A1", 10, 500)).is_ok());
    let got = store.get(&sku).expect("item must be found");
    assert_eq!(got.stock, Some(Stock { quantity: 10, price: 500 }));
    let down = store.decrease_quantity(&sku, 3).expect("decrease must succeed");
    assert_eq!(down, Stock { quantity: 7, price: 500 });
    assert_eq!(store.update_price(&sku, 500), Err(StoreError::PriceUnchanged));
    let up = store.update_price(&sku, 600).expect("price update must succeed");
    assert_eq!(up, Stock { quantity: 7, price: 600 });
    assert_eq!(store.remove(&sku), Ok(RemoveOutcome::Removed));
    assert_eq!(store.get(&sku).expect_err("item must be gone"), StoreError::NotFound);
}
