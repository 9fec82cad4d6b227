use vstd::prelude::*;

use crate::driver::{CacheDriver, ItemDescriptor, LegacyItemDescriptor};
use crate::error::CacheError;
use crate::item::{CacheItem, ItemView};
use crate::key::{CacheKey, KeyView};
use crate::relations::RelationType;
use crate::store::{fww_insert, keys_of_sender, Store};

verus! {

/// The in-memory mirror of the accessibility tree: it owns the store and a
/// driver, exposes the mutation primitives, and implements the
/// get-or-fetch policy. All accessibles are referenced by their keys.
pub struct Cache<D: CacheDriver> {
    tree: Store,
    /// The driver used to populate the cache on miss.
    pub driver: D,
}

/// The abstract effect of `add_all`: first-write-wins insertion of each
/// item in order.
pub open spec fn add_all_spec(m: Map<KeyView, ItemView>, items: Seq<ItemView>) -> Map<
    KeyView,
    ItemView,
>
    decreases items.len(),
{
    if items.len() == 0 {
        m
    } else {
        fww_insert(add_all_spec(m, items.drop_last()), items.last())
    }
}

impl<D: CacheDriver> View for Cache<D> {
    type V = Map<KeyView, ItemView>;

    closed spec fn view(&self) -> Map<KeyView, ItemView> {
        self.tree@
    }
}

impl<D: CacheDriver> Cache<D> {
    /// The structural invariant of the underlying store holds.
    pub closed spec fn wf(self) -> bool {
        self.tree.wf()
    }

    /// Whether the application `s` has an outer bucket.
    pub closed spec fn has_app_spec(self, s: Seq<char>) -> bool {
        self.tree.has_app_spec(s)
    }

    /// Every cached entry is keyed by its own object key and is
    /// well-formed.
    pub proof fn lemma_key_agree(self, k: KeyView)
        requires
            self.wf(),
            self@.contains_key(k),
        ensures
            self@[k].object == k,
            self@[k].wf(),
    {
        self.tree.lemma_key_agree(k);
    }

    /// Create a new, fresh cache around `driver`.
    pub fn new(driver: D) -> (r: Cache<D>)
        ensures
            r.wf(),
            r@ == Map::<KeyView, ItemView>::empty(),
            forall|s: Seq<char>| !(#[trigger] r.has_app_spec(s)),
    {
        Cache { tree: Store::new(), driver }
    }

    /// Get a single item from the cache, as a copy; no I/O.
    pub fn get(&self, id: &CacheKey) -> (r: Option<CacheItem>)
        requires
            self.wf(),
        ensures
            match r {
                Some(it) => self@.contains_key(id@) && it@ == self@[id@],
                None => !self@.contains_key(id@),
            },
    {
        match self.tree.get(id) {
            Some(it) => Some(it.clone()),
            None => None,
        }
    }

    /// Get many items from the cache in one call; one copy per present key.
    pub fn get_all(&self, ids: &Vec<CacheKey>) -> (r: Vec<Option<CacheItem>>)
        requires
            self.wf(),
        ensures
            r@.len() == ids@.len(),
            forall|i: int|
                0 <= i < ids@.len() ==> match #[trigger] r@[i] {
                    Some(it) => self@.contains_key(ids@[i]@) && it@ == self@[ids@[i]@],
                    None => !self@.contains_key(ids@[i]@),
                },
    {
        let mut out: Vec<Option<CacheItem>> = Vec::new();
        let mut i: usize = 0;
        while i < ids.len()
            invariant
                self.wf(),
                i <= ids@.len(),
                out@.len() == i,
                forall|j: int|
                    0 <= j < i ==> match #[trigger] out@[j] {
                        Some(it) => self@.contains_key(ids@[j]@) && it@ == self@[ids@[j]@],
                        None => !self@.contains_key(ids@[j]@),
                    },
            decreases ids@.len() - i,
        {
            out.push(self.get(&ids[i]));
            i = i + 1;
        }
        out
    }

    /// Insert one item under its own key, first-write-wins; the given item
    /// is handed back unchanged.
    pub fn add(&mut self, ci: CacheItem) -> (r: CacheItem)
        requires
            old(self).wf(),
            ci@.wf(),
        ensures
            final(self).wf(),
            final(self)@ == fww_insert(old(self)@, ci@),
            r@ == ci@,
            forall|s: Seq<char>|
                #[trigger] final(self).has_app_spec(s) == (old(self).has_app_spec(s) || s
                    == ci@.object.sender),
    {
        let r = ci.clone();
        self.tree.insert_new(ci);
        r
    }

    /// Bulk first-write-wins insert, in order; the given items are handed
    /// back unchanged.
    pub fn add_all(&mut self, cis: Vec<CacheItem>) -> (r: Vec<CacheItem>)
        requires
            old(self).wf(),
            forall|i: int| 0 <= i < cis@.len() ==> (#[trigger] cis@[i])@.wf(),
        ensures
            final(self).wf(),
            final(self)@ == add_all_spec(old(self)@, cis.deep_view()),
            r.deep_view() == cis.deep_view(),
    {
        let ghost pre = old(self)@;
        let mut out: Vec<CacheItem> = Vec::new();
        let mut i: usize = 0;
        while i < cis.len()
            invariant
                self.wf(),
                i <= cis@.len(),
                out@.len() == i,
                forall|j: int| 0 <= j < cis@.len() ==> (#[trigger] cis@[j])@.wf(),
                self@ == add_all_spec(pre, cis.deep_view().take(i as int)),
                forall|j: int| 0 <= j < i ==> (#[trigger] out@[j])@ == cis@[j]@,
            decreases cis@.len() - i,
        {
            let ghost prefix = cis.deep_view().take(i as int);
            out.push(cis[i].clone());
            self.tree.insert_new(cis[i].clone());
            proof {
                let longer = cis.deep_view().take(i + 1);
                assert(longer.drop_last() =~= prefix);
                assert(longer.last() == cis@[i as int]@);
            }
            i = i + 1;
        }
        proof {
            assert(cis.deep_view().take(cis@.len() as int) =~= cis.deep_view());
            assert(out.deep_view() =~= cis.deep_view());
        }
        out
    }

    /// Remove a single cache item; `None` when it was absent.
    pub fn remove(&mut self, id: &CacheKey) -> (r: Option<CacheItem>)
        requires
            old(self).wf(),
        ensures
            final(self).wf(),
            final(self)@ == old(self)@.remove(id@),
            match r {
                Some(it) => old(self)@.contains_key(id@) && it@ == old(self)@[id@],
                None => !old(self)@.contains_key(id@),
            },
    {
        self.tree.remove(id)
    }

    /// Bulk remove every given key; absent keys are ignored.
    pub fn remove_all(&mut self, ids: &Vec<CacheKey>)
        requires
            old(self).wf(),
        ensures
            final(self).wf(),
            final(self)@ == old(self)@.remove_keys(ids.deep_view().to_set()),
    {
        let ghost pre = old(self)@;
        let mut i: usize = 0;
        while i < ids.len()
            invariant
                self.wf(),
                i <= ids@.len(),
                self@ == pre.remove_keys(ids.deep_view().take(i as int).to_set()),
            decreases ids@.len() - i,
        {
            let ghost sofar = ids.deep_view().take(i as int).to_set();
            self.tree.remove(&ids[i]);
            proof {
                let k = ids@[i as int]@;
                let next = ids.deep_view().take(i + 1).to_set();
                let shorter = ids.deep_view().take(i as int);
                let longer = ids.deep_view().take(i + 1);
                assert forall|x: KeyView| #[trigger] longer.contains(x) implies shorter.contains(x)
                    || x == k by {
                    let j = choose|j: int| 0 <= j < longer.len() && longer[j] == x;
                    if j < i {
                        assert(shorter[j] == x);
                    }
                }
                assert forall|x: KeyView| #[trigger] shorter.contains(x) implies longer.contains(
                    x,
                ) by {
                    let j = choose|j: int| 0 <= j < shorter.len() && shorter[j] == x;
                    assert(longer[j] == x);
                }
                assert(longer[i as int] == k);
                assert(longer.contains(k));
                assert(next =~= sofar.insert(k));
                assert(pre.remove_keys(sofar).remove(k) =~= pre.remove_keys(next));
            }
            i = i + 1;
        }
        proof {
            assert(ids.deep_view().take(ids@.len() as int) =~= ids.deep_view());
        }
    }

    /// Remove every entry and every application bucket.
    pub fn clear(&mut self)
        ensures
            final(self).wf(),
            final(self)@ == Map::<KeyView, ItemView>::empty(),
            forall|s: Seq<char>| !(#[trigger] final(self).has_app_spec(s)),
    {
        self.tree.clear();
    }

    /// Drop every entry belonging to the application `sender`, bucket
    /// included; used when an application leaves the bus.
    pub fn remove_app(&mut self, sender: &String)
        requires
            old(self).wf(),
        ensures
            final(self).wf(),
            final(self)@ == old(self)@.remove_keys(keys_of_sender(sender@)),
            forall|s: Seq<char>|
                #[trigger] final(self).has_app_spec(s) == (old(self).has_app_spec(s) && s
                    != sender@),
    {
        self.tree.remove_app(sender);
    }

    /// Bulk query the application of `key` and insert everything that came
    /// back, first-write-wins, each item under its own key; then answer for
    /// `key` from the store.
    fn prefetch_app(&mut self, key: &CacheKey) -> (r: Result<CacheItem, CacheError>)
        requires
            old(self).wf(),
            !old(self)@.contains_key(key@),
        ensures
            final(self).wf(),
            forall|k: KeyView|
                #[trigger] old(self)@.contains_key(k) ==> final(self)@.contains_key(k) && final(self)@[k] == old(self)@[k],
            match r {
                Ok(item) => final(self)@.contains_key(key@) && item@ == final(self)@[key@]
                    && item@.object == key@ && item@.wf() && final(self).has_app_spec(
                    key@.sender,
                ),
                Err(_) => !final(self)@.contains_key(key@),
            },
    {
        let items = match self.driver.lookup_bulk(key) {
            Ok(items) => items,
            Err(e) => {
                return Err(e);
            },
        };
        let mut i: usize = 0;
        while i < items.len()
            invariant
                self.wf(),
                i <= items@.len(),
                forall|j: int|
                    0 <= j < items@.len() ==> (#[trigger] items@[j])@.wf()
                        && items@[j]@.object.sender == key@.sender,
                forall|k: KeyView|
                    #[trigger] old(self)@.contains_key(k) ==> self@.contains_key(k) && self@[k]
                        == old(self)@[k],
            decreases items@.len() - i,
        {
            self.tree.insert_new(items[i].clone());
            i = i + 1;
        }
        // This answers from the store since the bulk insert just ran; a key
        // the driver did not return is reported missing.
        match self.tree.get(key) {
            Some(it) => {
                let r = it.clone();
                proof {
                    self.tree.lemma_key_agree(key@);
                    self.tree.lemma_contains_has_app(key@);
                }
                Ok(r)
            },
            None => Err(CacheError::NotFound),
        }
    }

    /// Get a single item, creating it on miss.
    ///
    /// The get-or-create policy: if the key is present, return a copy and
    /// touch nothing. Otherwise, if its application has never had an entry,
    /// bulk query the whole application and insert everything returned
    /// (the first touch of an application is statistically followed by many
    /// more). Otherwise fetch the single object. Keys already present are
    /// never overwritten, and failures are never cached.
    pub fn get_or_create(&mut self, key: &CacheKey) -> (r: Result<CacheItem, CacheError>)
        requires
            old(self).wf(),
        ensures
            final(self).wf(),
            forall|k: KeyView|
                #[trigger] old(self)@.contains_key(k) ==> final(self)@.contains_key(k) && final(self)@[k] == old(self)@[k],
            match r {
                Ok(item) => final(self)@.contains_key(key@) && item@ == final(self)@[key@]
                    && item@.object == key@ && item@.wf() && final(self).has_app_spec(
                    key@.sender,
                ),
                Err(_) => !old(self)@.contains_key(key@) && !final(self)@.contains_key(key@),
            },
            old(self)@.contains_key(key@) ==> final(self)@ == old(self)@ && (r matches Ok(item)
                && item@ == old(self)@[key@]),
    {
        // If the item already exists in the cache, return it.
        match self.tree.get(key) {
            Some(it) => {
                let r = it.clone();
                proof {
                    self.tree.lemma_key_agree(key@);
                    self.tree.lemma_contains_has_app(key@);
                }
                return Ok(r);
            },
            None => {},
        }
        // If the item's application has never had an entry added, bulk
        // query it.
        if !self.tree.has_app(key) {
            return self.prefetch_app(key);
        }
        let item = match self.driver.lookup_external(key) {
            Ok(item) => item,
            Err(e) => {
                return Err(e);
            },
        };
        self.tree.insert_new(item.clone());
        proof {
            self.tree.lemma_contains_has_app(key@);
        }
        Ok(item)
    }

    /// Get many items in input order, creating each on miss; present keys
    /// are answered from memory, absent keys are fetched serially.
    /// Duplicate keys are tolerated. Fails on the first failing fetch.
    pub fn get_or_create_all(&mut self, keys: Vec<CacheKey>) -> (r: Result<
        Vec<CacheItem>,
        CacheError,
    >)
        requires
            old(self).wf(),
        ensures
            final(self).wf(),
            forall|k: KeyView|
                #[trigger] old(self)@.contains_key(k) ==> final(self)@.contains_key(k) && final(self)@[k] == old(self)@[k],
            r matches Ok(items) ==> items@.len() == keys@.len() && forall|i: int|
                0 <= i < keys@.len() ==> (#[trigger] items@[i])@.object == keys@[i]@ && final(self)@.contains_key(keys@[i]@) && items@[i]@ == final(self)@[keys@[i]@],
            (forall|i: int| 0 <= i < keys@.len() ==> old(self)@.contains_key(#[trigger] keys@[i]@))
                ==> r is Ok && final(self)@ == old(self)@,
    {
        let mut out: Vec<CacheItem> = Vec::new();
        let mut i: usize = 0;
        while i < keys.len()
            invariant
                self.wf(),
                i <= keys@.len(),
                out@.len() == i,
                forall|k: KeyView|
                    #[trigger] old(self)@.contains_key(k) ==> self@.contains_key(k) && self@[k]
                        == old(self)@[k],
                forall|j: int|
                    0 <= j < i ==> (#[trigger] out@[j])@.object == keys@[j]@ && self@.contains_key(
                        keys@[j]@,
                    ) && out@[j]@ == self@[keys@[j]@],
                (forall|j: int|
                    0 <= j < keys@.len() ==> old(self)@.contains_key(#[trigger] keys@[j]@)) ==>
                    self@ == old(self)@,
            decreases keys@.len() - i,
        {
            let item = match self.get_or_create(&keys[i]) {
                Ok(item) => item,
                Err(e) => {
                    return Err(e);
                },
            };
            out.push(item);
            i = i + 1;
        }
        Ok(out)
    }

    /// Get the item for a thin upstream descriptor, promoting the
    /// descriptor through the driver on miss and inserting the result.
    pub fn get_or_create_from_descriptor(&mut self, descriptor: &ItemDescriptor) -> (r: Result<
        CacheItem,
        CacheError,
    >)
        requires
            old(self).wf(),
        ensures
            final(self).wf(),
            forall|k: KeyView|
                #[trigger] old(self)@.contains_key(k) ==> final(self)@.contains_key(k) && final(self)@[k] == old(self)@[k],
            match r {
                Ok(item) => final(self)@.contains_key(descriptor.object@) && item@ == final(self)@[descriptor.object@] && item@.object == descriptor.object@ && item@.wf(),
                Err(_) => !old(self)@.contains_key(descriptor.object@),
            },
            old(self)@.contains_key(descriptor.object@) ==> final(self)@ == old(self)@,
    {
        match self.tree.get(&descriptor.object) {
            Some(it) => {
                let r = it.clone();
                proof {
                    self.tree.lemma_key_agree(descriptor.object@);
                }
                return Ok(r);
            },
            None => {},
        }
        let item = match self.driver.lookup_from_descriptor(descriptor) {
            Ok(item) => item,
            Err(e) => {
                return Err(e);
            },
        };
        self.tree.insert_new(item.clone());
        Ok(item)
    }

    /// Get the item for a legacy-shaped upstream descriptor, promoting it
    /// through the driver on miss and inserting the result.
    pub fn get_or_create_from_legacy_descriptor(
        &mut self,
        descriptor: &LegacyItemDescriptor,
    ) -> (r: Result<CacheItem, CacheError>)
        requires
            old(self).wf(),
        ensures
            final(self).wf(),
            forall|k: KeyView|
                #[trigger] old(self)@.contains_key(k) ==> final(self)@.contains_key(k) && final(self)@[k] == old(self)@[k],
            match r {
                Ok(item) => final(self)@.contains_key(descriptor.object@) && item@ == final(self)@[descriptor.object@] && item@.object == descriptor.object@ && item@.wf(),
                Err(_) => !old(self)@.contains_key(descriptor.object@),
            },
            old(self)@.contains_key(descriptor.object@) ==> final(self)@ == old(self)@,
    {
        match self.tree.get(&descriptor.object) {
            Some(it) => {
                let r = it.clone();
                proof {
                    self.tree.lemma_key_agree(descriptor.object@);
                }
                return Ok(r);
            },
            None => {},
        }
        let item = match self.driver.lookup_from_legacy_descriptor(descriptor) {
            Ok(item) => item,
            Err(e) => {
                return Err(e);
            },
        };
        self.tree.insert_new(item.clone());
        Ok(item)
    }

    /// Ask the driver for the relation targets of kind `ty` for `key`; the
    /// store is untouched and the driver alone decides the outcome.
    pub fn lookup_relations(&self, key: &CacheKey, ty: RelationType) -> (r: Result<
        Vec<CacheKey>,
        CacheError,
    >) {
        self.driver.lookup_relations(key, ty)
    }

    /// Overwrite the entry under `item`'s own key; the key must be cached.
    pub(crate) fn replace(&mut self, item: CacheItem)
        requires
            old(self).wf(),
            item@.wf(),
            old(self)@.contains_key(item@.object),
        ensures
            final(self).wf(),
            final(self)@ == old(self)@.insert(item@.object, item@),
            forall|s: Seq<char>|
                #[trigger] final(self).has_app_spec(s) == old(self).has_app_spec(s),
    {
        self.tree.update(item);
    }

    /// Modify the item under `key` with `f` if it is already cached,
    /// storing and returning the mutated value; otherwise fall back to
    /// [`Cache::get_or_create`], with no mutation applied. The mutator must
    /// keep the item's key and well-formedness.
    pub fn modify_if_not_new<F: FnOnce(CacheItem) -> CacheItem>(
        &mut self,
        key: &CacheKey,
        f: F,
    ) -> (r: Result<CacheItem, CacheError>)
        requires
            old(self).wf(),
            forall|x: CacheItem| #[trigger] f.requires((x,)),
            forall|x: CacheItem, y: CacheItem|
                #[trigger] f.ensures((x,), y) ==> y@.object == x@.object && y@.wf(),
        ensures
            final(self).wf(),
            old(self)@.contains_key(key@) ==> (r matches Ok(item) && final(self)@ == old(
                self,
            )@.insert(key@, item@) && item@.object == key@ && (exists|x: CacheItem|
                x@ == old(self)@[key@] && #[trigger] f.ensures((x,), item))),
            !old(self)@.contains_key(key@) ==> {
                &&& forall|k: KeyView|
                    #[trigger] old(self)@.contains_key(k) ==> final(self)@.contains_key(k)
                        && final(self)@[k] == old(self)@[k]
                &&& match r {
                    Ok(item) => final(self)@.contains_key(key@) && item@ == final(self)@[key@]
                        && item@.object == key@,
                    Err(_) => !final(self)@.contains_key(key@),
                }
            },
    {
        // If the item already exists in the cache, modify it in place.
        match self.tree.get(key) {
            Some(it) => {
                let cur = it.clone();
                proof {
                    self.tree.lemma_key_agree(key@);
                }
                let ghost x = cur;
                let mutated = f(cur);
                self.tree.update(mutated.clone());
                proof {
                    assert(f.ensures((x,), mutated));
                }
                return Ok(mutated);
            },
            None => {},
        }
        self.get_or_create(key)
    }
}

} // verus!
