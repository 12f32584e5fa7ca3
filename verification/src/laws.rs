use vstd::prelude::*;

use crate::error::{ErrorKind, StoreError, spec_kind};
use crate::item::{ItemView, spec_sku};
use crate::store::{
    RemoveOutcome, add_error, decrease_result, get_error, increase_fits, increase_result,
    remove_result, update_price_result, with_stock,
};

verus! {

/// Adding a valid record and then getting its key returns an equal
/// record: after a successful `add`, `get` of the same key is owed
/// success, and the value it is bound to return is exactly the record
/// that was added.
pub proof fn lemma_add_then_get(m: Map<Seq<char>, ItemView>, v: ItemView)
    requires
        add_error(m, v) is None,
    ensures
        get_error(m.insert(spec_sku(v), v), spec_sku(v)) is None,
        m.insert(spec_sku(v), v)[spec_sku(v)] == v,
{
}

/// Adding the same key twice fails the second time with
/// `AlreadyExists`, for any valid second record under that key, and the
/// store then still maps the key to the first record; `add`'s contract
/// leaves the store untouched on failure.
pub proof fn lemma_add_twice(m: Map<Seq<char>, ItemView>, v: ItemView, w: ItemView)
    requires
        add_error(m, v) is None,
        spec_sku(w) == spec_sku(v),
        w.identifier is Some,
        w.stock is Some,
        w.stock->0.price > 0,
    ensures
        add_error(m.insert(spec_sku(v), v), w) == Option::Some(StoreError::AlreadyExists),
        m.insert(spec_sku(v), v)[spec_sku(v)] == v,
{
}

/// A decrease by more units than are on hand fails with
/// `InsufficientStock`; by `decrease_quantity`'s contract a failing
/// call leaves the store, and so the quantity, exactly as it was.
pub proof fn lemma_decrease_too_much(m: Map<Seq<char>, ItemView>, sku: Seq<char>, amount: u32)
    requires
        sku.len() > 0,
        m.contains_key(sku),
        m[sku].stock is Some,
        amount > m[sku].stock->0.quantity,
    ensures
        decrease_result(m, sku, amount) == Result::<crate::item::Stock, StoreError>::Err(
            StoreError::InsufficientStock,
        ),
{
}

/// Decreasing and then increasing by the same amount restores the
/// original quantity exactly: the increase is owed success, it cannot
/// overflow, and the two updates compose to the identity on the
/// store's value.
pub proof fn lemma_decrease_then_increase(m: Map<Seq<char>, ItemView>, sku: Seq<char>, amount: u32)
    requires
        m.contains_key(sku),
        m[sku].stock is Some,
        decrease_result(m, sku, amount) is Ok,
    ensures
        ({
            let m1 = m.insert(sku, with_stock(m[sku], decrease_result(m, sku, amount)->Ok_0));
            &&& increase_fits(m1, sku, amount)
            &&& increase_result(m1, sku, amount) is Ok
            &&& m1.insert(sku, with_stock(m1[sku], increase_result(m1, sku, amount)->Ok_0)) == m
        }),
{
    let m1 = m.insert(sku, with_stock(m[sku], decrease_result(m, sku, amount)->Ok_0));
    let m2 = m1.insert(sku, with_stock(m1[sku], increase_result(m1, sku, amount)->Ok_0));
    assert(with_stock(m1[sku], increase_result(m1, sku, amount)->Ok_0) == m[sku]);
    assert(m2 =~= m);
}

/// Updating a record to its current price fails with `PriceUnchanged`,
/// an invalid-argument error; by `update_price`'s contract a failing
/// call leaves the store, and so the price, exactly as it was.
pub proof fn lemma_update_price_same(m: Map<Seq<char>, ItemView>, sku: Seq<char>)
    requires
        sku.len() > 0,
        m.contains_key(sku),
        m[sku].stock is Some,
        m[sku].stock->0.price > 0,
    ensures
        update_price_result(m, sku, m[sku].stock->0.price) == Result::<crate::item::Stock, StoreError>::Err(
            StoreError::PriceUnchanged,
        ),
        spec_kind(StoreError::PriceUnchanged) == ErrorKind::InvalidArgument,
{
}

/// Removing an absent key is a success (`DidNotExist`, not an error),
/// and afterwards the key is still absent, so the enumeration
/// `get_all` returns cannot contain it.
pub proof fn lemma_remove_absent(m: Map<Seq<char>, ItemView>, sku: Seq<char>)
    requires
        sku.len() > 0,
        !m.contains_key(sku),
    ensures
        remove_result(m, sku) == Result::<RemoveOutcome, StoreError>::Ok(RemoveOutcome::DidNotExist),
        !m.remove(sku).contains_key(sku),
{
}

} // verus!
