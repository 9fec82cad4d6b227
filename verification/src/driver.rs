use vstd::prelude::*;

use crate::error::CacheError;
use crate::item::{clone_keys, clone_opt_string, CacheItem};
use crate::key::{key_eq, CacheKey};
use crate::relations::RelationType;

verus! {

/// A thin upstream descriptor of one accessible, as carried by a cache-add
/// notification. A driver promotes it to a full [`CacheItem`] by
/// supplementing the missing fields.
#[derive(Clone, Debug)]
pub struct ItemDescriptor {
    /// The accessible object itself.
    pub object: CacheKey,
    /// The application root.
    pub app: CacheKey,
    /// The parent object.
    pub parent: CacheKey,
    /// Index in parent; negative when unknown.
    pub index: i32,
    /// Declared child count; negative when unknown.
    pub children: i32,
    /// Bit set of exposed interface flags.
    pub ifaces: u32,
    /// The short localized name; may be empty for "unset".
    pub short_name: String,
    /// Numeric role tag.
    pub role: u32,
    /// Bit set of state flags.
    pub states: u64,
}

/// The legacy wire shape of an upstream descriptor: the child list is
/// carried inline instead of a child count.
#[derive(Clone, Debug)]
pub struct LegacyItemDescriptor {
    /// The accessible object itself.
    pub object: CacheKey,
    /// The application root.
    pub app: CacheKey,
    /// The parent object.
    pub parent: CacheKey,
    /// References to the accessible's children.
    pub children: Vec<CacheKey>,
    /// Bit set of exposed interface flags.
    pub ifaces: u32,
    /// The localized name; may be empty for "unset".
    pub name: String,
    /// Numeric role tag.
    pub role: u32,
    /// Bit set of state flags.
    pub states: u64,
}

/// A method of performing lookups outside the cache itself: the only seam
/// to the outside world. Production drivers query the accessibility bus;
/// test drivers serve a fixed set of items, or panic to prove that a path
/// was answered purely in memory.
///
/// Every implementation must honour the stated contracts: a single-object
/// fetch answers for the requested key, a bulk fetch answers only for the
/// requested application, and all returned items obey the empty-string
/// normalization rule.
pub trait CacheDriver {
    /// Look up a single key that was not found in the cache.
    fn lookup_external(&self, key: &CacheKey) -> (r: Result<CacheItem, CacheError>)
        ensures
            r matches Ok(item) ==> item@.wf() && item@.object == key@,
    ;

    /// Bulk query all objects owned by `key`'s application.
    fn lookup_bulk(&self, key: &CacheKey) -> (r: Result<Vec<CacheItem>, CacheError>)
        ensures
            r matches Ok(items) ==> forall|i: int|
                0 <= i < items@.len() ==> (#[trigger] items@[i]@).wf() && items@[i]@.object.sender
                    == key@.sender,
    ;

    /// Fetch the relation targets of one specific kind for `key`. Kept
    /// separate from [`CacheDriver::lookup_external`] because results can
    /// be large.
    fn lookup_relations(&self, key: &CacheKey, ty: RelationType) -> (r: Result<
        Vec<CacheKey>,
        CacheError,
    >);

    /// Promote a thin upstream descriptor to a full item.
    fn lookup_from_descriptor(&self, descriptor: &ItemDescriptor) -> (r: Result<
        CacheItem,
        CacheError,
    >)
        ensures
            r matches Ok(item) ==> item@.wf() && item@.object == descriptor.object@,
    ;

    /// Promote a legacy-shaped upstream descriptor to a full item.
    fn lookup_from_legacy_descriptor(&self, descriptor: &LegacyItemDescriptor) -> (r: Result<
        CacheItem,
        CacheError,
    >)
        ensures
            r matches Ok(item) ==> item@.wf() && item@.object == descriptor.object@,
    ;
}

/// A driver that answers from a fixed set of items and never performs I/O.
/// Lookups copy the stored item, re-normalizing its text fields on the way
/// out, so any fixed set is served in conformance with the driver contract.
pub struct StaticDriver {
    /// The fixed set of items this driver serves.
    pub items: Vec<CacheItem>,
}

/// Copy `item`, forcing the object key to `object` and re-applying the
/// empty-string normalization.
fn renormalize(object: CacheKey, item: &CacheItem) -> (r: CacheItem)
    ensures
        r@.wf(),
        r@.object == object@,
{
    CacheItem::assemble(
        object,
        item.app.clone(),
        item.parent.clone(),
        item.index,
        item.children_num,
        item.interfaces,
        item.role,
        item.states,
        clone_keys(&item.children),
        clone_opt_string(&item.name),
        clone_opt_string(&item.description),
        clone_opt_string(&item.help_text),
        clone_opt_string(&item.text),
    )
}

impl CacheDriver for StaticDriver {
    fn lookup_external(&self, key: &CacheKey) -> (r: Result<CacheItem, CacheError>) {
        let mut i: usize = 0;
        while i < self.items.len()
            invariant
                i <= self.items@.len(),
            decreases self.items@.len() - i,
        {
            if key_eq(&self.items[i].object, key) {
                return Ok(renormalize(key.clone(), &self.items[i]));
            }
            i = i + 1;
        }
        Err(CacheError::NotFound)
    }

    fn lookup_bulk(&self, key: &CacheKey) -> (r: Result<Vec<CacheItem>, CacheError>) {
        let mut out: Vec<CacheItem> = Vec::new();
        let mut i: usize = 0;
        while i < self.items.len()
            invariant
                i <= self.items@.len(),
                forall|j: int|
                    0 <= j < out@.len() ==> (#[trigger] out@[j]@).wf() && out@[j]@.object.sender
                        == key@.sender,
            decreases self.items@.len() - i,
        {
            if self.items[i].object.sender == key.sender {
                out.push(renormalize(self.items[i].object.clone(), &self.items[i]));
            }
            i = i + 1;
        }
        Ok(out)
    }

    fn lookup_relations(&self, _key: &CacheKey, _ty: RelationType) -> (r: Result<
        Vec<CacheKey>,
        CacheError,
    >) {
        Ok(Vec::new())
    }

    fn lookup_from_descriptor(&self, descriptor: &ItemDescriptor) -> (r: Result<
        CacheItem,
        CacheError,
    >) {
        let index: Option<usize> = if descriptor.index >= 0 {
            Some(descriptor.index as usize)
        } else {
            None
        };
        let children_num: Option<usize> = if descriptor.children >= 0 {
            Some(descriptor.children as usize)
        } else {
            None
        };
        Ok(
            CacheItem::assemble(
                descriptor.object.clone(),
                descriptor.app.clone(),
                descriptor.parent.clone(),
                index,
                children_num,
                descriptor.ifaces,
                descriptor.role,
                descriptor.states,
                Vec::new(),
                Some(descriptor.short_name.clone()),
                None,
                None,
                None,
            ),
        )
    }

    fn lookup_from_legacy_descriptor(&self, descriptor: &LegacyItemDescriptor) -> (r: Result<
        CacheItem,
        CacheError,
    >) {
        let children = clone_keys(&descriptor.children);
        let children_num = Some(children.len());
        Ok(
            CacheItem::assemble(
                descriptor.object.clone(),
                descriptor.app.clone(),
                descriptor.parent.clone(),
                None,
                children_num,
                descriptor.ifaces,
                descriptor.role,
                descriptor.states,
                children,
                Some(descriptor.name.clone()),
                None,
                None,
                None,
            ),
        )
    }
}

} // verus!
