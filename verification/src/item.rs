use vstd::prelude::*;

verus! {

/// Stock payload of a record: units on hand and the unit price in minor
/// currency units. A price of zero is never a valid stored price.
#[derive(Clone, Copy, Debug, PartialEq, Eq, Structural)]
pub struct Stock {
    pub quantity: u32,
    pub price: u64,
}

/// Key object wrapping the stock-keeping unit string.
#[derive(Clone, Debug)]
pub struct ItemIdentifier {
    pub sku: String,
}

/// A stock record. A client may send either part missing, so both are
/// optional here; the store itself only ever holds records with both
/// present (see `item_wf`).
#[derive(Clone, Debug)]
pub struct Item {
    pub identifier: Option<ItemIdentifier>,
    pub stock: Option<Stock>,
}

/// Mathematical value of an `Item`: the key as a character sequence,
/// the stock payload as plain numbers.
pub ghost struct ItemView {
    pub identifier: Option<Seq<char>>,
    pub stock: Option<Stock>,
}

impl View for Item {
    type V = ItemView;

    open spec fn view(&self) -> ItemView {
        ItemView {
            identifier: match self.identifier {
                Option::Some(id) => Option::Some(id.sku@),
                Option::None => Option::None,
            },
            stock: self.stock,
        }
    }
}

/// The key of a record; meaningful only when the identifier is present.
pub open spec fn spec_sku(v: ItemView) -> Seq<char> {
    v.identifier->0
}

/// A record in the shape the store keeps it: key present and non-empty,
/// stock present with a positive price.
pub open spec fn item_wf(v: ItemView) -> bool {
    &&& v.identifier is Some
    &&& spec_sku(v).len() > 0
    &&& v.stock is Some
    &&& v.stock->0.price > 0
}

impl Item {
    /// An owned copy with the same mathematical value, handed across the
    /// store boundary so callers never alias a stored record.
    pub fn duplicate(&self) -> (r: Item)
        ensures
            r@ == self@,
    {
        Item {
            identifier: match &self.identifier {
                Option::Some(id) => Option::Some(ItemIdentifier { sku: id.sku.clone() }),
                Option::None => Option::None,
            },
            stock: self.stock,
        }
    }
}

/// Full-value comparison of two records, as the watcher's diff uses it.
pub fn item_eq(a: &Item, b: &Item) -> (r: bool)
    ensures
        r == (a@ == b@),
{
    let id_eq: bool = match (&a.identifier, &b.identifier) {
        (Option::Some(x), Option::Some(y)) => x.sku == y.sku,
        (Option::None, Option::None) => true,
        _ => false,
    };
    let stock_eq: bool = match (&a.stock, &b.stock) {
        (Option::Some(x), Option::Some(y)) => x.quantity == y.quantity && x.price == y.price,
        (Option::None, Option::None) => true,
        _ => false,
    };
    id_eq && stock_eq
}

} // verus!
