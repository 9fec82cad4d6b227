use vstd::prelude::*;

use crate::cache::{add_all_spec, Cache};
use crate::driver::CacheDriver;
use crate::error::CacheError;
use crate::events::{
    app_root_key, children_added_spec, children_removed_spec, property_changed_spec,
    state_changed_spec, text_changed_spec, CacheEvent,
};
use crate::key::KeyView;
use crate::laws::lemma_add_all_preserves;
use crate::store::keys_of_sender;
use crate::item::{clone_keys, CacheItem};
use crate::key::CacheKey;
use crate::relations::RelationType;

verus! {

/// One message to the cache actor. Producers submit these over the request
/// channel; the actor processes them strictly in arrival order.
#[derive(Debug)]
pub enum CacheRequest {
    /// Fetch one item, get-or-create.
    Item(CacheKey),
    /// Fetch the parent of one item, get-or-create on the referenced
    /// parent.
    Parent(CacheKey),
    /// Fetch all children of one item, get-or-create on each listed child.
    Children(CacheKey),
    /// Fetch the relation targets of the given kind, driver lookup then
    /// get-or-create.
    Relation(CacheKey, RelationType),
    /// Apply one upstream change notification.
    EventHandler(CacheEvent),
    /// Bulk first-write-wins insert.
    AddAll(Vec<CacheItem>),
}

/// The reply to one [`CacheRequest`], in the matching variant.
#[derive(Debug)]
pub enum CacheResponse {
    /// Reply to [`CacheRequest::Item`] and [`CacheRequest::EventHandler`].
    Item(CacheItem),
    /// Reply to [`CacheRequest::Parent`].
    Parent(CacheItem),
    /// Reply to [`CacheRequest::Children`].
    Children(Vec<CacheItem>),
    /// Reply to [`CacheRequest::Relation`].
    Relations(RelationType, Vec<CacheItem>),
    /// Acknowledgement of [`CacheRequest::AddAll`].
    AddAll,
}

impl CacheResponse {
    /// Unwrap an [`CacheResponse::Item`] reply; any other variant is an
    /// [`CacheError::InvalidResponse`].
    pub fn expect_item(self) -> (r: Result<CacheItem, CacheError>)
        ensures
            match r {
                Ok(item) => self matches CacheResponse::Item(it) && it == item,
                Err(e) => !(self is Item) && e is InvalidResponse,
            },
    {
        match self {
            CacheResponse::Item(item) => Ok(item),
            _ => Err(CacheError::InvalidResponse),
        }
    }

    /// Unwrap a [`CacheResponse::Children`] reply; any other variant is an
    /// [`CacheError::InvalidResponse`].
    pub fn expect_children(self) -> (r: Result<Vec<CacheItem>, CacheError>)
        ensures
            match r {
                Ok(items) => self matches CacheResponse::Children(its) && its == items,
                Err(e) => !(self is Children) && e is InvalidResponse,
            },
    {
        match self {
            CacheResponse::Children(items) => Ok(items),
            _ => Err(CacheError::InvalidResponse),
        }
    }

    /// Unwrap a [`CacheResponse::Relations`] reply; any other variant is an
    /// [`CacheError::InvalidResponse`].
    pub fn expect_relations(self) -> (r: Result<(RelationType, Vec<CacheItem>), CacheError>)
        ensures
            match r {
                Ok(pair) => self matches CacheResponse::Relations(ty, its) && ty == pair.0 && its
                    == pair.1,
                Err(e) => !(self is Relations) && e is InvalidResponse,
            },
    {
        match self {
            CacheResponse::Relations(ty, items) => Ok((ty, items)),
            _ => Err(CacheError::InvalidResponse),
        }
    }
}

impl<D: CacheDriver> Cache<D> {
    /// Process one request against the owned store, performing driver
    /// lookups inline on miss, and build the reply in the matching
    /// variant.
    ///
    /// For every completed `Item` request the returned item is the cached
    /// entry for exactly the requested key; a request for a key already
    /// present touches nothing and answers from memory. A completed
    /// `Children` request answers with exactly one item per child key of
    /// the (created-if-absent) target, in child-list order. `AddAll` never
    /// fails and never overwrites. Driver failures propagate and are never
    /// cached.
    pub fn request(&mut self, req: CacheRequest) -> (r: Result<CacheResponse, CacheError>)
        requires
            old(self).wf(),
            req matches CacheRequest::AddAll(items) ==> forall|i: int|
                0 <= i < items@.len() ==> (#[trigger] items@[i])@.wf(),
        ensures
            final(self).wf(),
            match req {
                CacheRequest::Item(k) => {
                    &&& (forall|k2: KeyView|
                        #[trigger] old(self)@.contains_key(k2) ==> final(self)@.contains_key(k2)
                            && final(self)@[k2] == old(self)@[k2])
                    &&& (r matches Ok(resp) ==> resp matches CacheResponse::Item(item)
                        && item@.object == k@ && final(self)@.contains_key(k@) && item@ == final(self)@[k@] && item@.wf())
                    &&& (old(self)@.contains_key(k@) ==> final(self)@ == old(self)@ && (
                    r matches Ok(resp) && resp matches CacheResponse::Item(item) && item@ == old(self)@[k@]))
                    &&& (r matches Err(_) ==> !old(self)@.contains_key(k@) && !final(self)@.contains_key(k@))
                },
                CacheRequest::Parent(k) => {
                    &&& (forall|k2: KeyView|
                        #[trigger] old(self)@.contains_key(k2) ==> final(self)@.contains_key(k2)
                            && final(self)@[k2] == old(self)@[k2])
                    &&& (r matches Ok(resp) ==> resp matches CacheResponse::Parent(item) && final(self)@.contains_key(k@) && item@.object == final(self)@[k@].parent && final(self)@.contains_key(item@.object) && item@ == final(self)@[item@.object]
                        && item@.wf())
                    &&& (old(self)@.contains_key(k@) && old(self)@.contains_key(
                        old(self)@[k@].parent,
                    ) ==> r is Ok && final(self)@ == old(self)@)
                },
                CacheRequest::Children(k) => {
                    &&& (forall|k2: KeyView|
                        #[trigger] old(self)@.contains_key(k2) ==> final(self)@.contains_key(k2)
                            && final(self)@[k2] == old(self)@[k2])
                    &&& (r matches Ok(resp) ==> resp matches CacheResponse::Children(items)
                        && final(self)@.contains_key(k@) && items@.len() == final(self)@[k@].children.len() && (forall|i: int|
                        0 <= i < items@.len() ==> (#[trigger] items@[i])@.object == final(self)@[k@].children[i] && final(self)@.contains_key(items@[i]@.object)
                            && items@[i]@ == final(self)@[items@[i]@.object]))
                    &&& (old(self)@.contains_key(k@) && (forall|j: int|
                        0 <= j < old(self)@[k@].children.len() ==> old(self)@.contains_key(
                            #[trigger] old(self)@[k@].children[j],
                        )) ==> r is Ok && final(self)@ == old(self)@)
                },
                CacheRequest::Relation(_k, ty) => {
                    &&& (forall|k2: KeyView|
                        #[trigger] old(self)@.contains_key(k2) ==> final(self)@.contains_key(k2)
                            && final(self)@[k2] == old(self)@[k2])
                    &&& (r matches Ok(resp) ==> resp matches CacheResponse::Relations(ty2, items)
                        && ty2 == ty && (forall|i: int|
                        0 <= i < items@.len() ==> final(self)@.contains_key(
                            (#[trigger] items@[i])@.object,
                        ) && items@[i]@ == final(self)@[items@[i]@.object]))
                },
                CacheRequest::EventHandler(ev) => {
                    &&& (r matches Ok(resp) ==> resp matches CacheResponse::Item(item)
                        && item@.wf())
                    &&& match ev {
                        CacheEvent::ChildrenAdded { parent, index, child } => old(self)@.contains_key(parent@) && old(self)@.contains_key(child@) ==> final(self)@ == children_added_spec(old(self)@, parent@, index as int, child@) && (
                        r matches Ok(resp) && resp matches CacheResponse::Item(item) && item@
                            == final(self)@[parent@]),
                        CacheEvent::ChildrenRemoved { parent, child } => old(self)@.contains_key(
                            parent@,
                        ) ==> final(self)@ == children_removed_spec(old(self)@, parent@, child@)
                            && (r matches Ok(resp) && resp matches CacheResponse::Item(item)
                            && item@ == final(self)@[parent@]),
                        CacheEvent::StateChanged { target, state, enabled } => old(self)@.contains_key(target@) ==> final(self)@ == state_changed_spec(
                            old(self)@,
                            target@,
                            state,
                            enabled,
                        ) && (r matches Ok(resp) && resp matches CacheResponse::Item(item)
                            && item@ == final(self)@[target@]),
                        CacheEvent::TextChanged { target, offset, length, inserted, removed: _ } =>
                            old(self)@.contains_key(target@) ==> final(self)@ == text_changed_spec(
                            old(self)@,
                            target@,
                            offset as int,
                            length as int,
                            inserted@,
                        ) && (r matches Ok(resp) && resp matches CacheResponse::Item(item)
                            && item@ == final(self)@[target@]),
                        CacheEvent::TextCaretMoved { target, position: _ } => old(self)@.contains_key(target@) ==> final(self)@ == old(self)@ && (r matches Ok(
                            resp,
                        ) && resp matches CacheResponse::Item(item) && item@ == old(self)@[target@]),
                        CacheEvent::PropertyChanged { target, value } => old(self)@.contains_key(
                            target@,
                        ) ==> final(self)@ == property_changed_spec(old(self)@, target@, value)
                            && (r matches Ok(resp) && resp matches CacheResponse::Item(item)
                            && item@ == final(self)@[target@]),
                        CacheEvent::Add(descriptor) => old(self)@.contains_key(descriptor.object@)
                            ==> final(self)@ == old(self)@ && (r matches Ok(resp) && resp
                            matches CacheResponse::Item(item) && item@ == old(self)@[descriptor.object@]),
                        CacheEvent::LegacyAdd(descriptor) => old(self)@.contains_key(
                            descriptor.object@,
                        ) ==> final(self)@ == old(self)@ && (r matches Ok(resp) && resp
                            matches CacheResponse::Item(item) && item@ == old(self)@[descriptor.object@]),
                        CacheEvent::Remove { target } => final(self)@ == old(self)@.remove(
                            target@,
                        ) && (r matches Ok(resp) ==> resp matches CacheResponse::Item(item) && old(self)@.contains_key(target@) && item@ == old(self)@[target@]),
                        CacheEvent::ApplicationExit { sender } => final(self)@ == old(self)@.remove_keys(keys_of_sender(sender@)) && (match r {
                            Ok(resp) => resp matches CacheResponse::Item(item) && old(self)@.contains_key(app_root_key(sender@)) && item@ == old(self)@[app_root_key(sender@)],
                            Err(e) => !old(self)@.contains_key(app_root_key(sender@)) && e
                                is NotFound,
                        }),
                    }
                },
                CacheRequest::AddAll(items) => {
                    &&& r matches Ok(resp) && resp is AddAll && final(self)@ == add_all_spec(
                        old(self)@,
                        items.deep_view(),
                    )
                    &&& (forall|k2: KeyView|
                        #[trigger] old(self)@.contains_key(k2) ==> final(self)@.contains_key(k2)
                            && final(self)@[k2] == old(self)@[k2])
                },
            },
    {
        match req {
            CacheRequest::Item(key) => {
                match self.get_or_create(&key) {
                    Ok(item) => Ok(CacheResponse::Item(item)),
                    Err(e) => Err(e),
                }
            },
            CacheRequest::Parent(key) => {
                let item = match self.get_or_create(&key) {
                    Ok(item) => item,
                    Err(e) => {
                        return Err(e);
                    },
                };
                let parent_item = match self.get_or_create(&item.parent) {
                    Ok(item) => item,
                    Err(e) => {
                        return Err(e);
                    },
                };
                Ok(CacheResponse::Parent(parent_item))
            },
            CacheRequest::Children(key) => {
                let item = match self.get_or_create(&key) {
                    Ok(item) => item,
                    Err(e) => {
                        return Err(e);
                    },
                };
                let children = clone_keys(&item.children);
                let ghost ckeys = children.deep_view();
                proof {
                    // On a fully cached neighbourhood, the batch lookup is
                    // owed success: every child key is already present.
                    if old(self)@.contains_key(key@) && (forall|j: int|
                        0 <= j < old(self)@[key@].children.len() ==> old(self)@.contains_key(
                            #[trigger] old(self)@[key@].children[j],
                        )) {
                        assert(item@ == old(self)@[key@]);
                        assert(self@ == old(self)@);
                        assert forall|i: int| 0 <= i < children@.len() implies self@.contains_key(
                            #[trigger] children@[i]@,
                        ) by {
                            assert(children@[i]@ == children.deep_view()[i]);
                            assert(children.deep_view()[i] == item@.children[i]);
                            assert(item@.children[i] == old(self)@[key@].children[i]);
                        }
                    }
                }
                let out = match self.get_or_create_all(children) {
                    Ok(items) => items,
                    Err(e) => {
                        return Err(e);
                    },
                };
                Ok(CacheResponse::Children(out))
            },
            CacheRequest::Relation(key, ty) => {
                let rel_ids = match self.lookup_relations(&key, ty) {
                    Ok(ids) => ids,
                    Err(e) => {
                        return Err(e);
                    },
                };
                let rels = match self.get_or_create_all(rel_ids) {
                    Ok(items) => items,
                    Err(e) => {
                        return Err(e);
                    },
                };
                Ok(CacheResponse::Relations(ty, rels))
            },
            CacheRequest::EventHandler(ev) => {
                match self.handle_event(&ev) {
                    Ok(item) => Ok(CacheResponse::Item(item)),
                    Err(e) => Err(e),
                }
            },
            CacheRequest::AddAll(items) => {
                let ghost views = items.deep_view();
                let _ = self.add_all(items);
                proof {
                    assert forall|k2: KeyView|
                        #[trigger] old(self)@.contains_key(k2) implies self@.contains_key(k2)
                        && self@[k2] == old(self)@[k2] by {
                        lemma_add_all_preserves(old(self)@, views, k2);
                    }
                }
                Ok(CacheResponse::AddAll)
            },
        }
    }
}

} // verus!
