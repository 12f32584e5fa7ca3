use vstd::prelude::*;

use crate::error::StoreError;
use crate::item::{Item, ItemView, item_eq};
use crate::store::{InventoryStore, get_error};

verus! {

/// What one sampling step of a watch produced.
pub enum WatchEvent {
    /// The record disappeared: the single terminal event, after which
    /// the stream closes.
    Removed,
    /// The record differs by full value comparison from the last
    /// snapshot: the new value is emitted and becomes the snapshot.
    Changed(Item),
    /// The record is unchanged: nothing is emitted.
    Unchanged,
}

/// One subscription's private state: the watched key and the last
/// snapshot emitted to (or initially fetched for) the subscriber.
pub struct WatchSession {
    sku: String,
    last: Item,
}

impl WatchSession {
    /// The key this session watches.
    pub closed spec fn spec_watched(self) -> Seq<char> {
        self.sku@
    }

    /// The last snapshot this session holds.
    pub closed spec fn spec_last(self) -> ItemView {
        self.last@
    }

    /// A session only ever watches a non-empty key.
    pub open spec fn wf(self) -> bool {
        self.spec_watched().len() > 0
    }

    /// Open a subscription: fetch the record now. If it is absent the
    /// subscription itself fails with `NotFound` and no stream opens.
    pub fn subscribe(store: &InventoryStore, sku: &String) -> (r: Result<
        WatchSession,
        StoreError,
    >)
        requires
            store.wf(),
        ensures
            match r {
                Result::Ok(w) => {
                    &&& get_error(store@, sku@) is None
                    &&& w.wf()
                    &&& w.spec_watched() == sku@
                    &&& w.spec_last() == store@[sku@]
                },
                Result::Err(e) => get_error(store@, sku@) == Option::Some(e),
            },
    {
        match store.get(sku) {
            Result::Ok(item) => Result::Ok(WatchSession { sku: sku.clone(), last: item }),
            Result::Err(e) => Result::Err(e),
        }
    }

    /// One sampling step: re-fetch the record and diff it against the
    /// held snapshot. The step emits the terminal event exactly when
    /// the record is gone, emits the new value exactly when it differs
    /// from the snapshot (and then remembers it), and emits nothing
    /// when it is unchanged. A change that is reverted between two
    /// samples is invisible by design.
    pub fn poll(&mut self, store: &InventoryStore) -> (e: WatchEvent)
        requires
            store.wf(),
            old(self).wf(),
        ensures
            final(self).wf(),
            final(self).spec_watched() == old(self).spec_watched(),
            match e {
                WatchEvent::Removed => {
                    &&& !store@.contains_key(old(self).spec_watched())
                    &&& final(self).spec_last() == old(self).spec_last()
                },
                WatchEvent::Changed(it) => {
                    &&& store@.contains_key(old(self).spec_watched())
                    &&& store@[old(self).spec_watched()] != old(self).spec_last()
                    &&& it@ == store@[old(self).spec_watched()]
                    &&& final(self).spec_last() == store@[old(self).spec_watched()]
                },
                WatchEvent::Unchanged => {
                    &&& store@.contains_key(old(self).spec_watched())
                    &&& store@[old(self).spec_watched()] == old(self).spec_last()
                    &&& final(self).spec_last() == old(self).spec_last()
                },
            },
    {
        match store.get(&self.sku) {
            Result::Ok(fresh) => {
                if item_eq(&fresh, &self.last) {
                    WatchEvent::Unchanged
                } else {
                    let copy = fresh.duplicate();
                    self.last = fresh;
                    WatchEvent::Changed(copy)
                }
            },
            Result::Err(_) => WatchEvent::Removed,
        }
    }
}

} // verus!
