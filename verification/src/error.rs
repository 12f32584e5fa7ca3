use vstd::prelude::*;

verus! {

/// Everything a store operation can fail with. `kind` groups the
/// variants into the four failure classes of the interface.
#[derive(Clone, Copy, Debug, PartialEq, Eq, Structural)]
pub enum StoreError {
    /// The request carried no identifier at all.
    MissingIdentifier,
    /// The stock-keeping unit string was empty.
    EmptySku,
    /// The record to add carried no stock payload.
    MissingStock,
    /// The price given was not positive.
    NonPositivePrice,
    /// A record with this key is already present.
    AlreadyExists,
    /// No record with this key exists.
    NotFound,
    /// A quantity change of zero units was requested.
    ZeroQuantity,
    /// A decrease by more units than are on hand was requested.
    InsufficientStock,
    /// The new price equals the current price.
    PriceUnchanged,
    /// A stored record is missing its stock payload: store corruption,
    /// not a caller mistake.
    CorruptRecord,
}

/// The four failure classes of the interface.
#[derive(Clone, Copy, Debug, PartialEq, Eq, Structural)]
pub enum ErrorKind {
    InvalidArgument,
    NotFound,
    AlreadyExists,
    Internal,
}

/// The failure class each error belongs to.
pub open spec fn spec_kind(e: StoreError) -> ErrorKind {
    match e {
        StoreError::MissingIdentifier => ErrorKind::InvalidArgument,
        StoreError::EmptySku => ErrorKind::InvalidArgument,
        StoreError::MissingStock => ErrorKind::InvalidArgument,
        StoreError::NonPositivePrice => ErrorKind::InvalidArgument,
        StoreError::AlreadyExists => ErrorKind::AlreadyExists,
        StoreError::NotFound => ErrorKind::NotFound,
        StoreError::ZeroQuantity => ErrorKind::InvalidArgument,
        StoreError::InsufficientStock => ErrorKind::InvalidArgument,
        StoreError::PriceUnchanged => ErrorKind::InvalidArgument,
        StoreError::CorruptRecord => ErrorKind::Internal,
    }
}

/// The human-readable message of each error.
pub open spec fn spec_message(e: StoreError) -> Seq<char> {
    match e {
        StoreError::MissingIdentifier => "no ID or SKU provided for item"@,
        StoreError::EmptySku => "provided SKU was empty"@,
        StoreError::MissingStock => "no stock provided for item"@,
        StoreError::NonPositivePrice => "provided PRICE was invalid"@,
        StoreError::AlreadyExists => "item already exists in inventory"@,
        StoreError::NotFound => "the item requested was not found"@,
        StoreError::ZeroQuantity => "item is already at this quantity"@,
        StoreError::InsufficientStock => "invalid decrease quantity cannot bigger than current quantity"@,
        StoreError::PriceUnchanged => "item is already at this price"@,
        StoreError::CorruptRecord => "no stock provided for item"@,
    }
}

impl StoreError {
    /// The failure class of this error.
    pub fn kind(&self) -> (r: ErrorKind)
        ensures
            r == spec_kind(*self),
    {
        match self {
            StoreError::MissingIdentifier => ErrorKind::InvalidArgument,
            StoreError::EmptySku => ErrorKind::InvalidArgument,
            StoreError::MissingStock => ErrorKind::InvalidArgument,
            StoreError::NonPositivePrice => ErrorKind::InvalidArgument,
            StoreError::AlreadyExists => ErrorKind::AlreadyExists,
            StoreError::NotFound => ErrorKind::NotFound,
            StoreError::ZeroQuantity => ErrorKind::InvalidArgument,
            StoreError::InsufficientStock => ErrorKind::InvalidArgument,
            StoreError::PriceUnchanged => ErrorKind::InvalidArgument,
            StoreError::CorruptRecord => ErrorKind::Internal,
        }
    }

    /// The human-readable message of this error.
    pub fn message(&self) -> (r: &'static str)
        ensures
            r@ == spec_message(*self),
    {
        match self {
            StoreError::MissingIdentifier => "no ID or SKU provided for item",
            StoreError::EmptySku => "provided SKU was empty",
            StoreError::MissingStock => "no stock provided for item",
            StoreError::NonPositivePrice => "provided PRICE was invalid",
            StoreError::AlreadyExists => "item already exists in inventory",
            StoreError::NotFound => "the item requested was not found",
            StoreError::ZeroQuantity => "item is already at this quantity",
            StoreError::InsufficientStock => "invalid decrease quantity cannot bigger than current quantity",
            StoreError::PriceUnchanged => "item is already at this price",
            StoreError::CorruptRecord => "no stock provided for item",
        }
    }
}

} // verus!
