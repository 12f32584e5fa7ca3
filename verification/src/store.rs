use vstd::prelude::*;

use crate::error::StoreError;
use crate::item::{Item, ItemView, Stock, item_wf, spec_sku};

verus! {

/// Whether `remove` found a record to delete; either way the call
/// succeeds.
#[derive(Clone, Copy, Debug, PartialEq, Eq, Structural)]
pub enum RemoveOutcome {
    Removed,
    DidNotExist,
}

/// A record's value with its stock payload replaced.
pub open spec fn with_stock(v: ItemView, st: Stock) -> ItemView {
    ItemView { identifier: v.identifier, stock: Option::Some(st) }
}

/// How `add` fails on a given store value and record, checks in the
/// order the operation makes them; `None` means the add succeeds.
pub open spec fn add_error(m: Map<Seq<char>, ItemView>, v: ItemView) -> Option<StoreError> {
    if v.identifier is None {
        Option::Some(StoreError::MissingIdentifier)
    } else if spec_sku(v).len() == 0 {
        Option::Some(StoreError::EmptySku)
    } else if v.stock is None {
        Option::Some(StoreError::MissingStock)
    } else if v.stock->0.price == 0 {
        Option::Some(StoreError::NonPositivePrice)
    } else if m.contains_key(spec_sku(v)) {
        Option::Some(StoreError::AlreadyExists)
    } else {
        Option::None
    }
}

/// How `get` fails; `None` means the record is returned.
pub open spec fn get_error(m: Map<Seq<char>, ItemView>, sku: Seq<char>) -> Option<StoreError> {
    if sku.len() == 0 {
        Option::Some(StoreError::EmptySku)
    } else if !m.contains_key(sku) {
        Option::Some(StoreError::NotFound)
    } else {
        Option::None
    }
}

/// What `remove` returns on a given store value and key.
pub open spec fn remove_result(m: Map<Seq<char>, ItemView>, sku: Seq<char>) -> Result<
    RemoveOutcome,
    StoreError,
> {
    if sku.len() == 0 {
        Result::Err(StoreError::EmptySku)
    } else if m.contains_key(sku) {
        Result::Ok(RemoveOutcome::Removed)
    } else {
        Result::Ok(RemoveOutcome::DidNotExist)
    }
}

/// What `decrease_quantity` returns, checks in the order the operation
/// makes them: existence before field-level validation of the request.
pub open spec fn decrease_result(
    m: Map<Seq<char>, ItemView>,
    sku: Seq<char>,
    amount: u32,
) -> Result<Stock, StoreError> {
    if !m.contains_key(sku) {
        Result::Err(StoreError::NotFound)
    } else if m[sku].stock is None {
        Result::Err(StoreError::CorruptRecord)
    } else if sku.len() == 0 {
        Result::Err(StoreError::EmptySku)
    } else if amount == 0 {
        Result::Err(StoreError::ZeroQuantity)
    } else if amount > m[sku].stock->0.quantity {
        Result::Err(StoreError::InsufficientStock)
    } else {
        Result::Ok(
            Stock {
                quantity: (m[sku].stock->0.quantity - amount) as u32,
                price: m[sku].stock->0.price,
            },
        )
    }
}

/// What `increase_quantity` returns, checks in the same order.
pub open spec fn increase_result(
    m: Map<Seq<char>, ItemView>,
    sku: Seq<char>,
    amount: u32,
) -> Result<Stock, StoreError> {
    if !m.contains_key(sku) {
        Result::Err(StoreError::NotFound)
    } else if m[sku].stock is None {
        Result::Err(StoreError::CorruptRecord)
    } else if sku.len() == 0 {
        Result::Err(StoreError::EmptySku)
    } else if amount == 0 {
        Result::Err(StoreError::ZeroQuantity)
    } else {
        Result::Ok(
            Stock {
                quantity: (m[sku].stock->0.quantity + amount) as u32,
                price: m[sku].stock->0.price,
            },
        )
    }
}

/// An increase by this amount stays within the machine's quantity range.
pub open spec fn increase_fits(
    m: Map<Seq<char>, ItemView>,
    sku: Seq<char>,
    amount: u32,
) -> bool {
    (m.contains_key(sku) && m[sku].stock is Some && amount != 0)
        ==> m[sku].stock->0.quantity + amount <= u32::MAX
}

/// What `update_price` returns, checks in the order the operation makes
/// them: field-level validation of the request before existence.
pub open spec fn update_price_result(
    m: Map<Seq<char>, ItemView>,
    sku: Seq<char>,
    new_price: u64,
) -> Result<Stock, StoreError> {
    if sku.len() == 0 {
        Result::Err(StoreError::EmptySku)
    } else if new_price == 0 {
        Result::Err(StoreError::NonPositivePrice)
    } else if !m.contains_key(sku) {
        Result::Err(StoreError::NotFound)
    } else if m[sku].stock is None {
        Result::Err(StoreError::CorruptRecord)
    } else if m[sku].stock->0.price == new_price {
        Result::Err(StoreError::PriceUnchanged)
    } else {
        Result::Ok(Stock { quantity: m[sku].stock->0.quantity, price: new_price })
    }
}

/// The key under which a record is stored.
pub open spec fn item_key(item: Item) -> Seq<char> {
    spec_sku(item@)
}

/// No two records in the sequence share a key.
pub open spec fn keys_unique(s: Seq<Item>) -> bool {
    forall|i: int, j: int|
        0 <= i < j < s.len() ==> item_key(s[i]) != item_key(s[j])
}

/// The map a sequence of records denotes; a later record shadows an
/// earlier one with the same key (the store never holds two such).
pub open spec fn map_of(s: Seq<Item>) -> Map<Seq<char>, ItemView>
    decreases s.len(),
{
    if s.len() == 0 {
        Map::empty()
    } else {
        map_of(s.drop_last()).insert(item_key(s.last()), s.last()@)
    }
}

proof fn lemma_keys_unique_drop_last(s: Seq<Item>)
    requires
        s.len() > 0,
        keys_unique(s),
    ensures
        keys_unique(s.drop_last()),
{
    assert forall|i: int, j: int|
        0 <= i < j < s.drop_last().len() implies item_key(s.drop_last()[i])
        != item_key(s.drop_last()[j]) by {
        assert(s.drop_last()[i] == s[i]);
        assert(s.drop_last()[j] == s[j]);
    }
}

/// A key is in the map exactly when some record carries it.
proof fn lemma_map_of_contains(s: Seq<Item>, k: Seq<char>)
    ensures
        map_of(s).contains_key(k) <==> exists|i: int|
            0 <= i < s.len() && item_key(#[trigger] s[i]) == k,
    decreases s.len(),
{
    if s.len() > 0 {
        lemma_map_of_contains(s.drop_last(), k);
        if item_key(s.last()) == k {
            assert(item_key(s[s.len() - 1]) == k);
        } else if map_of(s.drop_last()).contains_key(k) {
            let i = choose|i: int|
                0 <= i < s.drop_last().len() && item_key(#[trigger] s.drop_last()[i]) == k;
            assert(s.drop_last()[i] == s[i]);
            assert(item_key(s[i]) == k);
        } else {
            assert forall|i: int| 0 <= i < s.len() implies item_key(#[trigger] s[i]) != k by {
                if i < s.len() - 1 {
                    assert(s.drop_last()[i] == s[i]);
                }
            }
        }
    }
}

/// The key of the last record does not occur earlier when keys are unique.
proof fn lemma_last_key_fresh(s: Seq<Item>)
    requires
        s.len() > 0,
        keys_unique(s),
    ensures
        !map_of(s.drop_last()).contains_key(item_key(s.last())),
{
    let k = item_key(s.last());
    lemma_map_of_contains(s.drop_last(), k);
    if map_of(s.drop_last()).contains_key(k) {
        let j = choose|j: int|
            0 <= j < s.drop_last().len() && item_key(#[trigger] s.drop_last()[j]) == k;
        assert(s.drop_last()[j] == s[j]);
        assert(s.last() == s[s.len() - 1]);
        assert(item_key(s[j]) != item_key(s[s.len() - 1]));
        assert(false);
    }
}

/// With unique keys, each record is the map's value at its key.
proof fn lemma_map_of_index(s: Seq<Item>, i: int)
    requires
        keys_unique(s),
        0 <= i < s.len(),
    ensures
        map_of(s).contains_key(item_key(s[i])),
        map_of(s)[item_key(s[i])] == s[i]@,
    decreases s.len(),
{
    if i == s.len() - 1 {
        assert(s.last() == s[i]);
    } else {
        lemma_keys_unique_drop_last(s);
        assert(s.drop_last()[i] == s[i]);
        lemma_map_of_index(s.drop_last(), i);
        assert(s.last() == s[s.len() - 1]);
        assert(item_key(s[i]) != item_key(s[s.len() - 1]));
    }
}

/// Appending a record inserts it into the map.
proof fn lemma_map_of_push(s: Seq<Item>, x: Item)
    ensures
        map_of(s.push(x)) == map_of(s).insert(item_key(x), x@),
{
    assert(s.push(x).drop_last() =~= s);
    assert(s.push(x).last() == x);
}

/// Replacing the record at a key's position updates the map at that key.
proof fn lemma_map_of_update(s: Seq<Item>, i: int, x: Item)
    requires
        keys_unique(s),
        0 <= i < s.len(),
        item_key(x) == item_key(s[i]),
    ensures
        map_of(s.update(i, x)) == map_of(s).insert(item_key(x), x@),
    decreases s.len(),
{
    let t = s.update(i, x);
    if i == s.len() - 1 {
        assert(t.drop_last() =~= s.drop_last());
        assert(t.last() == x);
        assert(s.last() == s[i]);
        assert(map_of(t) =~= map_of(s).insert(item_key(x), x@));
    } else {
        lemma_keys_unique_drop_last(s);
        assert(t.drop_last() =~= s.drop_last().update(i, x));
        assert(t.last() == s.last());
        assert(s.drop_last()[i] == s[i]);
        lemma_map_of_update(s.drop_last(), i, x);
        assert(s.last() == s[s.len() - 1]);
        assert(item_key(x) != item_key(s.last()));
        assert(map_of(t) =~= map_of(s).insert(item_key(x), x@));
    }
}

/// Removing the record at a key's position removes that key from the map.
proof fn lemma_map_of_remove(s: Seq<Item>, i: int)
    requires
        keys_unique(s),
        0 <= i < s.len(),
    ensures
        map_of(s.remove(i)) == map_of(s).remove(item_key(s[i])),
    decreases s.len(),
{
    let k = item_key(s[i]);
    s.remove_ensures(i);
    if i == s.len() - 1 {
        assert(s.remove(i) =~= s.drop_last());
        assert(s.last() == s[i]);
        lemma_last_key_fresh(s);
        assert(map_of(s).remove(k) =~= map_of(s.drop_last()));
    } else {
        lemma_keys_unique_drop_last(s);
        s.drop_last().remove_ensures(i);
        assert(s.remove(i).drop_last() =~= s.drop_last().remove(i));
        assert(s.remove(i).last() == s[s.len() - 1]);
        assert(s.last() == s[s.len() - 1]);
        lemma_map_of_remove(s.drop_last(), i);
        assert(s.drop_last()[i] == s[i]);
        assert(item_key(s[i]) != item_key(s[s.len() - 1]));
        assert(map_of(s.remove(i)) =~= map_of(s).remove(k));
    }
}

/// With unique keys the map has exactly one entry per record.
proof fn lemma_map_of_len(s: Seq<Item>)
    requires
        keys_unique(s),
    ensures
        map_of(s).dom().finite(),
        map_of(s).len() == s.len(),
    decreases s.len(),
{
    if s.len() > 0 {
        lemma_keys_unique_drop_last(s);
        lemma_map_of_len(s.drop_last());
        lemma_last_key_fresh(s);
    }
}

/// Replacing a record by a well-formed one with the same key keeps the
/// sequence well formed.
proof fn lemma_wf_update(s: Seq<Item>, i: int, x: Item)
    requires
        0 <= i < s.len(),
        keys_unique(s),
        forall|j: int| 0 <= j < s.len() ==> item_wf(#[trigger] s[j]@),
        item_key(x) == item_key(s[i]),
        item_wf(x@),
    ensures
        keys_unique(s.update(i, x)),
        forall|j: int| 0 <= j < s.update(i, x).len() ==> item_wf(#[trigger] s.update(i, x)[j]@),
{
    let t = s.update(i, x);
    assert forall|p: int, q: int| 0 <= p < q < t.len() implies item_key(t[p]) != item_key(t[q]) by {
        if p == i {
            assert(t[p] == x);
        } else {
            assert(t[p] == s[p]);
        }
        if q == i {
            assert(t[q] == x);
        } else {
            assert(t[q] == s[q]);
        }
        assert(item_key(s[p]) != item_key(s[q]));
    }
    assert forall|j: int| 0 <= j < t.len() implies item_wf(#[trigger] t[j]@) by {
        if j != i {
            assert(t[j] == s[j]);
        }
    }
}

/// The single source of truth for all records: a mapping from
/// stock-keeping unit to record, every operation atomic with respect to
/// every other (the surrounding process serializes access through one
/// exclusive lock and hands out only copies).
pub struct InventoryStore {
    items: Vec<Item>,
}

impl View for InventoryStore {
    type V = Map<Seq<char>, ItemView>;

    /// The store's mathematical value: the map its records denote.
    closed spec fn view(&self) -> Map<Seq<char>, ItemView> {
        map_of(self.items@)
    }
}

impl InventoryStore {
    /// Every held record is well formed and no key occurs twice.
    pub closed spec fn wf(self) -> bool {
        &&& forall|i: int|
            0 <= i < self.items@.len() ==> item_wf(#[trigger] self.items@[i]@)
        &&& keys_unique(self.items@)
    }

    /// An empty store.
    pub fn new() -> (s: Self)
        ensures
            s.wf(),
            s@ == Map::<Seq<char>, ItemView>::empty(),
    {
        let s = InventoryStore { items: Vec::new() };
        proof {
            assert(s@ =~= Map::<Seq<char>, ItemView>::empty());
        }
        s
    }

    /// The position of the record holding this key, if any.
    fn find_index(&self, sku: &String) -> (r: Option<usize>)
        requires
            self.wf(),
        ensures
            match r {
                Option::Some(i) => {
                    &&& (i as int) < self.items@.len()
                    &&& item_key(self.items@[i as int]) == sku@
                    &&& self@.contains_key(sku@)
                    &&& self@[sku@] == self.items@[i as int]@
                },
                Option::None => !self@.contains_key(sku@),
            },
    {
        let n = self.items.len();
        let mut i: usize = 0;
        while i < n
            invariant
                n == self.items@.len(),
                i <= n,
                self.wf(),
                forall|j: int| 0 <= j < i ==> item_key(#[trigger] self.items@[j]) != sku@,
            decreases n - i,
        {
            let it = &self.items[i];
            proof {
                assert(item_wf(self.items@[i as int]@));
            }
            match &it.identifier {
                Option::Some(id) => {
                    if id.sku == *sku {
                        proof {
                            lemma_map_of_index(self.items@, i as int);
                        }
                        return Option::Some(i);
                    }
                },
                Option::None => {
                    proof {
                        assert(false);
                    }
                },
            }
            i = i + 1;
        }
        proof {
            lemma_map_of_contains(self.items@, sku@);
        }
        Option::None
    }

    /// Insert a new record. Validation, in order: identifier present,
    /// key non-empty, stock present, price positive, key not already
    /// taken. On success the record is stored verbatim; on failure the
    /// store is untouched.
    pub fn add(&mut self, item: Item) -> (r: Result<(), StoreError>)
        requires
            old(self).wf(),
        ensures
            final(self).wf(),
            match r {
                Result::Ok(_) => {
                    &&& add_error(old(self)@, item@) is None
                    &&& final(self)@ == old(self)@.insert(spec_sku(item@), item@)
                },
                Result::Err(e) => {
                    &&& add_error(old(self)@, item@) == Option::Some(e)
                    &&& final(self)@ == old(self)@
                },
            },
    {
        let sku_ref: &String = match &item.identifier {
            Option::Some(id) => &id.sku,
            Option::None => {
                return Result::Err(StoreError::MissingIdentifier);
            },
        };
        if sku_ref.as_str().is_empty() {
            return Result::Err(StoreError::EmptySku);
        }
        match &item.stock {
            Option::Some(st) => {
                if st.price == 0 {
                    return Result::Err(StoreError::NonPositivePrice);
                }
            },
            Option::None => {
                return Result::Err(StoreError::MissingStock);
            },
        }
        match self.find_index(sku_ref) {
            Option::Some(_) => {
                return Result::Err(StoreError::AlreadyExists);
            },
            Option::None => {},
        }
        let ghost old_items = self.items@;
        let ghost gitem = item;
        self.items.push(item);
        proof {
            lemma_map_of_push(old_items, gitem);
            lemma_map_of_contains(old_items, spec_sku(gitem@));
            assert(item_wf(gitem@));
            assert forall|p: int, q: int|
                0 <= p < q < self.items@.len() implies item_key(self.items@[p])
                != item_key(self.items@[q]) by {
                assert(self.items@[p] == old_items[p]);
                if q < old_items.len() {
                    assert(self.items@[q] == old_items[q]);
                } else {
                    assert(self.items@[q] == gitem);
                }
            }
            assert forall|p: int|
                0 <= p < self.items@.len() implies item_wf(#[trigger] self.items@[p]@) by {
                if p < old_items.len() {
                    assert(self.items@[p] == old_items[p]);
                } else {
                    assert(self.items@[p] == gitem);
                }
            }
        }
        Result::Ok(())
    }

    /// Delete the record under this key if there is one. Deleting an
    /// absent key is not an error; the outcome tells the two apart.
    pub fn remove(&mut self, sku: &String) -> (r: Result<RemoveOutcome, StoreError>)
        requires
            old(self).wf(),
        ensures
            final(self).wf(),
            r == remove_result(old(self)@, sku@),
            r is Ok ==> final(self)@ == old(self)@.remove(sku@),
            r is Err ==> final(self)@ == old(self)@,
    {
        if sku.as_str().is_empty() {
            return Result::Err(StoreError::EmptySku);
        }
        match self.find_index(sku) {
            Option::Some(i) => {
                let ghost old_items = self.items@;
                let _removed = self.items.remove(i);
                proof {
                    lemma_map_of_remove(old_items, i as int);
                    old_items.remove_ensures(i as int);
                    assert forall|p: int, q: int|
                        0 <= p < q < self.items@.len() implies item_key(self.items@[p])
                        != item_key(self.items@[q]) by {
                        if p < i {
                            assert(self.items@[p] == old_items[p]);
                        } else {
                            assert(self.items@[p] == old_items[p + 1]);
                        }
                        if q < i {
                            assert(self.items@[q] == old_items[q]);
                        } else {
                            assert(self.items@[q] == old_items[q + 1]);
                        }
                    }
                    assert forall|p: int|
                        0 <= p < self.items@.len() implies item_wf(
                        #[trigger] self.items@[p]@,
                    ) by {
                        if p < i {
                            assert(self.items@[p] == old_items[p]);
                        } else {
                            assert(self.items@[p] == old_items[p + 1]);
                        }
                    }
                }
                Result::Ok(RemoveOutcome::Removed)
            },
            Option::None => {
                proof {
                    assert(old(self)@.remove(sku@) =~= old(self)@);
                }
                Result::Ok(RemoveOutcome::DidNotExist)
            },
        }
    }

    /// Look a record up by key and return an owned copy of it, so that
    /// later mutation of the store cannot touch the caller's value.
    pub fn get(&self, sku: &String) -> (r: Result<Item, StoreError>)
        requires
            self.wf(),
        ensures
            match r {
                Result::Ok(it) => {
                    &&& get_error(self@, sku@) is None
                    &&& it@ == self@[sku@]
                    &&& item_wf(it@)
                    &&& spec_sku(it@) == sku@
                },
                Result::Err(e) => get_error(self@, sku@) == Option::Some(e),
            },
    {
        if sku.as_str().is_empty() {
            return Result::Err(StoreError::EmptySku);
        }
        match self.find_index(sku) {
            Option::Some(i) => {
                proof {
                    assert(item_wf(self.items@[i as int]@));
                }
                Result::Ok(self.items[i].duplicate())
            },
            Option::None => Result::Err(StoreError::NotFound),
        }
    }

    /// Owned copies of all records, in no particular order: one per
    /// key of the store, each the value stored under its key.
    pub fn get_all(&self) -> (r: Vec<Item>)
        requires
            self.wf(),
        ensures
            self@.dom().finite(),
            r@.len() == self@.len(),
            forall|i: int|
                0 <= i < r@.len() ==> {
                    &&& item_wf(#[trigger] r@[i]@)
                    &&& self@.contains_key(spec_sku(r@[i]@))
                    &&& self@[spec_sku(r@[i]@)] == r@[i]@
                },
            forall|k: Seq<char>|
                #[trigger] self@.contains_key(k) ==> exists|i: int|
                    0 <= i < r@.len() && spec_sku(#[trigger] r@[i]@) == k,
            forall|i: int, j: int|
                0 <= i < j < r@.len() ==> spec_sku(r@[i]@) != spec_sku(r@[j]@),
    {
        let n = self.items.len();
        let mut r: Vec<Item> = Vec::new();
        let mut i: usize = 0;
        while i < n
            invariant
                n == self.items@.len(),
                i <= n,
                self.wf(),
                r@.len() == i,
                forall|j: int| 0 <= j < i ==> #[trigger] r@[j]@ == self.items@[j]@,
            decreases n - i,
        {
            let copy = self.items[i].duplicate();
            r.push(copy);
            i = i + 1;
        }
        proof {
            lemma_map_of_len(self.items@);
            assert forall|i: int|
                0 <= i < r@.len() implies {
                &&& item_wf(#[trigger] r@[i]@)
                &&& self@.contains_key(spec_sku(r@[i]@))
                &&& self@[spec_sku(r@[i]@)] == r@[i]@
            } by {
                assert(r@[i]@ == self.items@[i]@);
                assert(item_wf(self.items@[i]@));
                lemma_map_of_index(self.items@, i);
            }
            assert forall|k: Seq<char>| #[trigger]
                self@.contains_key(k) implies exists|i: int|
                0 <= i < r@.len() && spec_sku(#[trigger] r@[i]@) == k by {
                lemma_map_of_contains(self.items@, k);
                let i = choose|i: int|
                    0 <= i < self.items@.len() && item_key(#[trigger] self.items@[i]) == k;
                assert(r@[i]@ == self.items@[i]@);
                assert(spec_sku(r@[i]@) == k);
            }
            assert forall|i: int, j: int|
                0 <= i < j < r@.len() implies spec_sku(r@[i]@) != spec_sku(r@[j]@) by {
                assert(r@[i]@ == self.items@[i]@);
                assert(r@[j]@ == self.items@[j]@);
                assert(item_key(self.items@[i]) != item_key(self.items@[j]));
            }
        }
        r
    }

    /// Take `amount` units off the record's stock. Checks, in order:
    /// the record exists, its stock payload is present, the key is
    /// non-empty, the amount is non-zero and no more than the units on
    /// hand. Returns the record's price and its new quantity.
    pub fn decrease_quantity(&mut self, sku: &String, amount: u32) -> (r: Result<
        Stock,
        StoreError,
    >)
        requires
            old(self).wf(),
        ensures
            final(self).wf(),
            r == decrease_result(old(self)@, sku@, amount),
            r matches Result::Ok(st) ==> final(self)@ == old(self)@.insert(
                sku@,
                with_stock(old(self)@[sku@], st),
            ),
            r is Err ==> final(self)@ == old(self)@,
    {
        let i = match self.find_index(sku) {
            Option::Some(i) => i,
            Option::None => {
                return Result::Err(StoreError::NotFound);
            },
        };
        proof {
            assert(item_wf(self.items@[i as int]@));
        }
        let st = match &self.items[i].stock {
            Option::Some(st) => *st,
            Option::None => {
                return Result::Err(StoreError::CorruptRecord);
            },
        };
        if sku.as_str().is_empty() {
            return Result::Err(StoreError::EmptySku);
        }
        if amount == 0 {
            return Result::Err(StoreError::ZeroQuantity);
        }
        if amount > st.quantity {
            return Result::Err(StoreError::InsufficientStock);
        }
        let new_stock = Stock { quantity: st.quantity - amount, price: st.price };
        let ghost old_items = self.items@;
        let elem = &mut self.items[i];
        elem.stock = Option::Some(new_stock);
        proof {
            let updated = self.items@[i as int];
            assert(item_key(updated) == item_key(old_items[i as int]));
            assert(updated@ == with_stock(old(self)@[sku@], new_stock));
            lemma_map_of_update(old_items, i as int, updated);
            lemma_wf_update(old_items, i as int, updated);
        }
        Result::Ok(new_stock)
    }

    /// Put `amount` units onto the record's stock; the same checks as
    /// for a decrease except that any non-zero amount is allowed, as
    /// long as the new quantity fits the machine's range. Returns the
    /// record's price and its new quantity.
    pub fn increase_quantity(&mut self, sku: &String, amount: u32) -> (r: Result<
        Stock,
        StoreError,
    >)
        requires
            old(self).wf(),
            increase_fits(old(self)@, sku@, amount),
        ensures
            final(self).wf(),
            r == increase_result(old(self)@, sku@, amount),
            r matches Result::Ok(st) ==> final(self)@ == old(self)@.insert(
                sku@,
                with_stock(old(self)@[sku@], st),
            ),
            r is Err ==> final(self)@ == old(self)@,
    {
        let i = match self.find_index(sku) {
            Option::Some(i) => i,
            Option::None => {
                return Result::Err(StoreError::NotFound);
            },
        };
        proof {
            assert(item_wf(self.items@[i as int]@));
        }
        let st = match &self.items[i].stock {
            Option::Some(st) => *st,
            Option::None => {
                return Result::Err(StoreError::CorruptRecord);
            },
        };
        if sku.as_str().is_empty() {
            return Result::Err(StoreError::EmptySku);
        }
        if amount == 0 {
            return Result::Err(StoreError::ZeroQuantity);
        }
        let new_stock = Stock { quantity: st.quantity + amount, price: st.price };
        let ghost old_items = self.items@;
        let elem = &mut self.items[i];
        elem.stock = Option::Some(new_stock);
        proof {
            let updated = self.items@[i as int];
            assert(item_key(updated) == item_key(old_items[i as int]));
            assert(updated@ == with_stock(old(self)@[sku@], new_stock));
            lemma_map_of_update(old_items, i as int, updated);
            lemma_wf_update(old_items, i as int, updated);
        }
        Result::Ok(new_stock)
    }

    /// Set the record's price. Checks, in order: the key is non-empty,
    /// the new price is positive, the record exists, its stock payload
    /// is present, and the new price differs from the current one.
    /// Quantity is untouched. Returns the new price and the quantity.
    pub fn update_price(&mut self, sku: &String, new_price: u64) -> (r: Result<
        Stock,
        StoreError,
    >)
        requires
            old(self).wf(),
        ensures
            final(self).wf(),
            r == update_price_result(old(self)@, sku@, new_price),
            r matches Result::Ok(st) ==> final(self)@ == old(self)@.insert(
                sku@,
                with_stock(old(self)@[sku@], st),
            ),
            r is Err ==> final(self)@ == old(self)@,
    {
        if sku.as_str().is_empty() {
            return Result::Err(StoreError::EmptySku);
        }
        if new_price == 0 {
            return Result::Err(StoreError::NonPositivePrice);
        }
        let i = match self.find_index(sku) {
            Option::Some(i) => i,
            Option::None => {
                return Result::Err(StoreError::NotFound);
            },
        };
        proof {
            assert(item_wf(self.items@[i as int]@));
        }
        let st = match &self.items[i].stock {
            Option::Some(st) => *st,
            Option::None => {
                return Result::Err(StoreError::CorruptRecord);
            },
        };
        if st.price == new_price {
            return Result::Err(StoreError::PriceUnchanged);
        }
        let new_stock = Stock { quantity: st.quantity, price: new_price };
        let ghost old_items = self.items@;
        let elem = &mut self.items[i];
        elem.stock = Option::Some(new_stock);
        proof {
            let updated = self.items@[i as int];
            assert(item_key(updated) == item_key(old_items[i as int]));
            assert(updated@ == with_stock(old(self)@[sku@], new_stock));
            lemma_map_of_update(old_items, i as int, updated);
            lemma_wf_update(old_items, i as int, updated);
        }
        Result::Ok(new_stock)
    }
}

impl Default for InventoryStore {
    /// An empty store, as the process creates it at startup.
    fn default() -> (s: Self)
        ensures
            s.wf(),
            s@ == Map::<Seq<char>, ItemView>::empty(),
    {
        InventoryStore::new()
    }
}

} // verus!
