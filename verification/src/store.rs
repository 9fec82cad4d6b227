use vstd::prelude::*;

use crate::item::{CacheItem, ItemView};
use crate::key::{CacheKey, KeyView};

verus! {

/// All entries belonging to one application: the application's unique bus
/// name and its cached objects.
struct Bucket {
    sender: String,
    items: Vec<CacheItem>,
}

/// The two-level keyed store: a mapping `sender -> (id -> CacheItem)`.
///
/// The outer level groups entries by owning application so that
/// application-wide operations (bulk prefetch, application-exit cleanup)
/// only touch that application's entries. Abstractly the store is a single
/// map from [`KeyView`] to [`ItemView`]; the grouping is visible through
/// [`Store::has_app_spec`].
pub struct Store {
    buckets: Vec<Bucket>,
}

/// First-write-wins insertion: inserting an item whose key is already
/// populated leaves the map unchanged.
pub open spec fn fww_insert(m: Map<KeyView, ItemView>, item: ItemView) -> Map<KeyView, ItemView> {
    if m.contains_key(item.object) {
        m
    } else {
        m.insert(item.object, item)
    }
}

/// The set of keys owned by application `s`.
pub open spec fn keys_of_sender(s: Seq<char>) -> Set<KeyView> {
    Set::new(|k: KeyView| k.sender == s)
}

impl View for Store {
    type V = Map<KeyView, ItemView>;

    closed spec fn view(&self) -> Map<KeyView, ItemView> {
        Map::new(|k: KeyView| self.contains_spec(k), |k: KeyView| self.at_spec(k))
    }
}

/// Search a bucket's entries for an object id; first match wins.
fn find_item(items: &Vec<CacheItem>, id: &String) -> (r: Option<usize>)
    ensures
        match r {
            Some(i) => i < items@.len() && items@[i as int]@.object.id == id@,
            None => forall|i: int|
                0 <= i < items@.len() ==> (#[trigger] items@[i]@).object.id != id@,
        },
{
    let mut i: usize = 0;
    while i < items.len()
        invariant
            i <= items@.len(),
            forall|j: int| 0 <= j < i ==> (#[trigger] items@[j]@).object.id != id@,
        decreases items@.len() - i,
    {
        if items[i].object.id == *id {
            return Some(i);
        }
        i = i + 1;
    }
    None
}

impl Store {
    spec fn n(self) -> int {
        self.buckets@.len() as int
    }

    spec fn blen(self, b: int) -> int {
        self.buckets@[b].items@.len() as int
    }

    spec fn bsender(self, b: int) -> Seq<char> {
        self.buckets@[b].sender@
    }

    spec fn item_at(self, b: int, i: int) -> ItemView {
        self.buckets@[b].items@[i]@
    }

    spec fn idx_ok(self, b: int, i: int) -> bool {
        0 <= b < self.n() && 0 <= i < self.blen(b)
    }

    /// Structural invariant: application names are unique across buckets,
    /// object ids are unique within a bucket, every stored item's key agrees
    /// with the place where it is stored, and every stored item is
    /// well-formed.
    pub closed spec fn wf(self) -> bool {
        &&& (forall|b1: int, b2: int|
            #![trigger self.bsender(b1), self.bsender(b2)]
            0 <= b1 < self.n() && 0 <= b2 < self.n() && b1 != b2 ==> self.bsender(b1)
                != self.bsender(b2))
        &&& (forall|b: int, i: int|
            self.idx_ok(b, i) ==> (#[trigger] self.item_at(b, i)).object.sender == self.bsender(
                b,
            ))
        &&& (forall|b: int, i: int, j: int|
            #![trigger self.item_at(b, i), self.item_at(b, j)]
            self.idx_ok(b, i) && self.idx_ok(b, j) && i != j ==> self.item_at(b, i).object.id
                != self.item_at(b, j).object.id)
        &&& (forall|b: int, i: int| self.idx_ok(b, i) ==> (#[trigger] self.item_at(b, i)).wf())
    }

    spec fn contains_spec(self, k: KeyView) -> bool {
        exists|b: int, i: int| self.idx_ok(b, i) && (#[trigger] self.item_at(b, i)).object == k
    }

    spec fn at_spec(self, k: KeyView) -> ItemView {
        let (b, i) = choose|b: int, i: int|
            self.idx_ok(b, i) && (#[trigger] self.item_at(b, i)).object == k;
        self.item_at(b, i)
    }

    /// Whether some entry for application `s` has ever been stored (the
    /// outer bucket exists, possibly empty).
    pub closed spec fn has_app_spec(self, s: Seq<char>) -> bool {
        exists|b: int| 0 <= b < self.n() && #[trigger] self.bsender(b) == s
    }

    /// Extract a stored position witnessing that `k` is present.
    proof fn witness(self, k: KeyView) -> (r: (int, int))
        requires
            self.contains_spec(k),
        ensures
            self.idx_ok(r.0, r.1),
            self.item_at(r.0, r.1).object == k,
    {
        choose|b: int, i: int| self.idx_ok(b, i) && (#[trigger] self.item_at(b, i)).object == k
    }

    /// Any stored position whose item has key `k` yields the abstract value
    /// at `k`.
    proof fn lemma_at(self, b: int, i: int)
        requires
            self.wf(),
            self.idx_ok(b, i),
        ensures
            self@.contains_key(self.item_at(b, i).object),
            self@[self.item_at(b, i).object] == self.item_at(b, i),
    {
        let k = self.item_at(b, i).object;
        assert(self.contains_spec(k));
        let (b2, i2) = self.witness(k);
        assert(self.bsender(b2) == self.item_at(b2, i2).object.sender);
        assert(self.bsender(b) == self.item_at(b, i).object.sender);
        assert(b2 == b);
        assert(i2 == i);
    }

    /// Every stored entry's application has a bucket.
    pub proof fn lemma_contains_has_app(self, k: KeyView)
        requires
            self.wf(),
            self@.contains_key(k),
        ensures
            self.has_app_spec(k.sender),
    {
        let (b, i) = self.witness(k);
        assert(self.bsender(b) == k.sender);
    }

    /// Every stored entry is keyed by its own object key and is
    /// well-formed.
    pub proof fn lemma_key_agree(self, k: KeyView)
        requires
            self.wf(),
            self@.contains_key(k),
        ensures
            self@[k].object == k,
            self@[k].wf(),
    {
        let (b, i) = self.witness(k);
        self.lemma_at(b, i);
    }

    /// Search for the bucket of an application name; `None` exactly when
    /// the application has no bucket.
    fn find_bucket(&self, sender: &String) -> (r: Option<usize>)
        ensures
            match r {
                Some(b) => b < self.buckets@.len() && self.bsender(b as int) == sender@,
                None => !self.has_app_spec(sender@),
            },
    {
        let mut b: usize = 0;
        while b < self.buckets.len()
            invariant
                b <= self.buckets@.len(),
                forall|b2: int| 0 <= b2 < b ==> #[trigger] self.bsender(b2) != sender@,
            decreases self.buckets@.len() - b,
        {
            if self.buckets[b].sender == *sender {
                return Some(b);
            }
            b = b + 1;
        }
        None
    }

    /// Create an empty store.
    pub fn new() -> (r: Store)
        ensures
            r.wf(),
            r@ == Map::<KeyView, ItemView>::empty(),
            forall|s: Seq<char>| !(#[trigger] r.has_app_spec(s)),
    {
        let r = Store { buckets: Vec::new() };
        proof {
            assert(r@ =~= Map::<KeyView, ItemView>::empty());
        }
        r
    }

    /// Whether the store has a bucket for the application of `key`.
    pub fn has_app(&self, key: &CacheKey) -> (r: bool)
        requires
            self.wf(),
        ensures
            r == self.has_app_spec(key@.sender),
    {
        self.find_bucket(&key.sender).is_some()
    }

    /// Look up a single entry; `None` exactly when the key is absent.
    pub fn get(&self, key: &CacheKey) -> (r: Option<&CacheItem>)
        requires
            self.wf(),
        ensures
            match r {
                Some(it) => self@.contains_key(key@) && it@ == self@[key@],
                None => !self@.contains_key(key@),
            },
    {
        let ghost k = key@;
        match self.find_bucket(&key.sender) {
            None => {
                proof {
                    if self@.contains_key(k) {
                        self.lemma_contains_has_app(k);
                    }
                }
                None
            },
            Some(b) => {
                match find_item(&self.buckets[b].items, &key.id) {
                    Some(i) => {
                        proof {
                            assert(self.item_at(b as int, i as int).object.sender == k.sender);
                            assert(self.item_at(b as int, i as int).object == k);
                            self.lemma_at(b as int, i as int);
                        }
                        Some(&self.buckets[b].items[i])
                    },
                    None => {
                        proof {
                            if self.contains_spec(k) {
                                let (b2, i2) = self.witness(k);
                                assert(self.bsender(b2) == k.sender);
                                assert(b2 == b);
                                assert(false);
                            }
                        }
                        None
                    },
                }
            },
        }
    }

    /// Insert `item` under its own key, first-write-wins: if the key is
    /// already populated the store is unchanged. Creates the outer bucket
    /// if the application is new.
    pub fn insert_new(&mut self, item: CacheItem)
        requires
            old(self).wf(),
            item@.wf(),
        ensures
            final(self).wf(),
            final(self)@ == fww_insert(old(self)@, item@),
            forall|s: Seq<char>|
                #[trigger] final(self).has_app_spec(s) == (old(self).has_app_spec(s) || s
                    == item@.object.sender),
    {
        let ghost v = item@;
        let ghost pre = *old(self);
        match self.find_bucket(&item.object.sender) {
            Some(b) => {
                match find_item(&self.buckets[b].items, &item.object.id) {
                    Some(i) => {
                        // Key already populated: first write wins, keep it.
                        proof {
                            assert(self.item_at(b as int, i as int).object == v.object);
                            self.lemma_at(b as int, i as int);
                            assert(self@ =~= fww_insert(pre@, v));
                            assert forall|s: Seq<char>|
                                #[trigger] self.has_app_spec(s) == (pre.has_app_spec(s) || s
                                    == v.object.sender) by {
                                if s == v.object.sender {
                                    assert(self.bsender(b as int) == s);
                                }
                            }
                        }
                    },
                    None => {
                        proof {
                            if pre.contains_spec(v.object) {
                                let (b2, i2) = pre.witness(v.object);
                                assert(pre.bsender(b2) == v.object.sender);
                                assert(b2 == b);
                                assert(false);
                            }
                        }
                        let mut bucket = self.buckets.remove(b);
                        bucket.items.push(item);
                        self.buckets.insert(b, bucket);
                        proof {
                            assert(self.buckets@ =~= pre.buckets@.update(b as int, bucket));
                            assert(bucket.items@ == pre.buckets@[b as int].items@.push(item));
                            assert forall|i2: int| 0 <= i2 < pre.blen(b as int) implies self.item_at(
                                b as int,
                                i2,
                            ) == pre.item_at(b as int, i2) by {
                                assert(bucket.items@[i2] == pre.buckets@[b as int].items@[i2]);
                            }
                            assert(self.item_at(b as int, pre.blen(b as int)) == v);
                            self.lemma_grow(pre, b as int, v);
                        }
                    },
                }
            },
            None => {
                let sender = item.object.sender.clone();
                let mut items: Vec<CacheItem> = Vec::new();
                items.push(item);
                self.buckets.push(Bucket { sender, items });
                proof {
                    if pre.contains_spec(v.object) {
                        pre.lemma_contains_has_app(v.object);
                        assert(false);
                    }
                    assert(self.bsender(pre.n()) == v.object.sender);
                    assert(self.item_at(pre.n(), 0) == v);
                    self.lemma_new_bucket(pre, v);
                }
            },
        }
    }

    /// Replace the entry whose key is `item.object` with `item`. The key
    /// must be present; the application boundary of the entry is unchanged.
    pub fn update(&mut self, item: CacheItem)
        requires
            old(self).wf(),
            item@.wf(),
            old(self)@.contains_key(item@.object),
        ensures
            final(self).wf(),
            final(self)@ == old(self)@.insert(item@.object, item@),
            forall|s: Seq<char>|
                #[trigger] final(self).has_app_spec(s) == old(self).has_app_spec(s),
    {
        let ghost v = item@;
        let ghost pre = *old(self);
        proof {
            pre.lemma_contains_has_app(v.object);
        }
        match self.find_bucket(&item.object.sender) {
            None => {
                proof {
                    assert(false);
                }
                unreached()
            },
            Some(b) => {
                match find_item(&self.buckets[b].items, &item.object.id) {
                    None => {
                        proof {
                            let (b2, i2) = pre.witness(v.object);
                            assert(pre.bsender(b2) == v.object.sender);
                            assert(b2 == b);
                            assert(false);
                        }
                        unreached()
                    },
                    Some(i) => {
                        proof {
                            assert(self.item_at(b as int, i as int).object == v.object);
                        }
                        let mut bucket = self.buckets.remove(b);
                        let _replaced = bucket.items.remove(i);
                        bucket.items.insert(i, item);
                        self.buckets.insert(b, bucket);
                        proof {
                            assert(self.buckets@ =~= pre.buckets@.update(b as int, bucket));
                            assert(bucket.items@ =~= pre.buckets@[b as int].items@.update(
                                i as int,
                                bucket.items@[i as int],
                            ));
                            assert forall|j: int|
                                0 <= j < pre.blen(b as int) && j != i implies self.item_at(
                                b as int,
                                j,
                            ) == pre.item_at(b as int, j) by {
                                assert(bucket.items@[j] == pre.buckets@[b as int].items@[j]);
                            }
                            self.lemma_replace(pre, b as int, i as int, v);
                        }
                    },
                }
            },
        }
    }

    /// Remove a single entry; `None` exactly when the key was absent. The
    /// application's bucket is kept, possibly empty.
    pub fn remove(&mut self, key: &CacheKey) -> (r: Option<CacheItem>)
        requires
            old(self).wf(),
        ensures
            final(self).wf(),
            final(self)@ == old(self)@.remove(key@),
            match r {
                Some(it) => old(self)@.contains_key(key@) && it@ == old(self)@[key@],
                None => !old(self)@.contains_key(key@),
            },
            forall|s: Seq<char>|
                #[trigger] final(self).has_app_spec(s) == old(self).has_app_spec(s),
    {
        let ghost k = key@;
        let ghost pre = *old(self);
        match self.find_bucket(&key.sender) {
            None => {
                proof {
                    if self@.contains_key(k) {
                        self.lemma_contains_has_app(k);
                    }
                    assert(pre@.remove(k) =~= pre@);
                }
                None
            },
            Some(b) => {
                match find_item(&self.buckets[b].items, &key.id) {
                    None => {
                        proof {
                            if self.contains_spec(k) {
                                let (b2, i2) = self.witness(k);
                                assert(self.bsender(b2) == k.sender);
                                assert(b2 == b);
                                assert(false);
                            }
                            assert(pre@.remove(k) =~= pre@);
                        }
                        None
                    },
                    Some(i) => {
                        proof {
                            assert(self.item_at(b as int, i as int).object == k);
                            self.lemma_at(b as int, i as int);
                        }
                        let mut bucket = self.buckets.remove(b);
                        let removed = bucket.items.remove(i);
                        self.buckets.insert(b, bucket);
                        proof {
                            assert(self.buckets@ =~= pre.buckets@.update(b as int, bucket));
                            assert(bucket.items@ == pre.buckets@[b as int].items@.remove(i as int));
                            assert forall|j: int| 0 <= j < i implies self.item_at(b as int, j)
                                == pre.item_at(b as int, j) by {
                                assert(bucket.items@[j] == pre.buckets@[b as int].items@[j]);
                            }
                            assert forall|j: int|
                                i <= j < self.blen(b as int) implies self.item_at(b as int, j)
                                == pre.item_at(b as int, j + 1) by {
                                assert(bucket.items@[j] == pre.buckets@[b as int].items@[j + 1]);
                            }
                            self.lemma_shrink(pre, b as int, i as int);
                        }
                        Some(removed)
                    },
                }
            },
        }
    }

    /// Drop the entire bucket of application `sender`, removing every entry
    /// whose key belongs to it.
    pub fn remove_app(&mut self, sender: &String)
        requires
            old(self).wf(),
        ensures
            final(self).wf(),
            final(self)@ == old(self)@.remove_keys(keys_of_sender(sender@)),
            forall|s: Seq<char>|
                #[trigger] final(self).has_app_spec(s) == (old(self).has_app_spec(s) && s
                    != sender@),
    {
        let ghost pre = *old(self);
        match self.find_bucket(sender) {
            None => {
                proof {
                    assert forall|kk: KeyView| #[trigger] pre@.contains_key(kk) implies kk.sender
                        != sender@ by {
                        let (b2, i2) = pre.witness(kk);
                        assert(pre.bsender(b2) == kk.sender);
                    }
                    assert(pre@.remove_keys(keys_of_sender(sender@)) =~= pre@);
                }
            },
            Some(b) => {
                self.buckets.remove(b);
                proof {
                    self.lemma_drop_bucket(pre, b as int);
                }
            },
        }
    }

    /// Remove every entry and every bucket.
    pub fn clear(&mut self)
        ensures
            final(self).wf(),
            final(self)@ == Map::<KeyView, ItemView>::empty(),
            forall|s: Seq<char>| !(#[trigger] final(self).has_app_spec(s)),
    {
        self.buckets = Vec::new();
        proof {
            assert(self@ =~= Map::<KeyView, ItemView>::empty());
        }
    }

    /// After replacing the entry at position `(b, i)` by `v` with the same
    /// key, the store is the old store with that binding overwritten.
    proof fn lemma_replace(self, pre: Store, b: int, i: int, v: ItemView)
        requires
            pre.wf(),
            v.wf(),
            pre.idx_ok(b, i),
            v.object == pre.item_at(b, i).object,
            self.n() == pre.n(),
            forall|b2: int| 0 <= b2 < pre.n() && b2 != b ==> self.buckets@[b2] == pre.buckets@[b2],
            self.bsender(b) == pre.bsender(b),
            self.blen(b) == pre.blen(b),
            forall|j: int| 0 <= j < pre.blen(b) && j != i ==> self.item_at(b, j) == pre.item_at(
                b,
                j,
            ),
            self.item_at(b, i) == v,
        ensures
            self.wf(),
            self@ == pre@.insert(v.object, v),
            forall|s: Seq<char>| #[trigger] self.has_app_spec(s) == pre.has_app_spec(s),
    {
        assert forall|b2: int| 0 <= b2 < self.n() implies self.bsender(b2) == pre.bsender(b2)
            && self.blen(b2) == pre.blen(b2) by {
            if b2 != b {
                assert(self.buckets@[b2] == pre.buckets@[b2]);
            }
        }
        assert forall|b2: int, i2: int| self.idx_ok(b2, i2) implies self.item_at(b2, i2) == (
        if b2 == b && i2 == i {
            v
        } else {
            pre.item_at(b2, i2)
        }) by {
            if b2 != b {
                assert(self.buckets@[b2] == pre.buckets@[b2]);
            }
        }
        assert forall|b2: int, i2: int| self.idx_ok(b2, i2) implies (#[trigger] self.item_at(
            b2,
            i2,
        )).object.sender == self.bsender(b2) && self.item_at(b2, i2).wf() by {
            if b2 == b && i2 == i {
                assert(pre.item_at(b, i).object.sender == pre.bsender(b));
            } else {
                assert(pre.item_at(b2, i2).object.sender == pre.bsender(b2));
                assert(pre.item_at(b2, i2).wf());
            }
        }
        assert forall|b2: int, i2: int, j2: int|
            #![trigger self.item_at(b2, i2), self.item_at(b2, j2)]
            self.idx_ok(b2, i2) && self.idx_ok(b2, j2) && i2 != j2 implies self.item_at(
            b2,
            i2,
        ).object.id != self.item_at(b2, j2).object.id by {
            assert(pre.item_at(b2, i2).object.id != pre.item_at(b2, j2).object.id);
        }
        assert(self.wf());
        assert forall|kk: KeyView| #[trigger] self@.contains_key(kk) implies pre@.insert(
            v.object,
            v,
        ).contains_key(kk) && self@[kk] == pre@.insert(v.object, v)[kk] by {
            let (b2, i2) = self.witness(kk);
            self.lemma_at(b2, i2);
            if b2 == b && i2 == i {
                assert(kk == v.object);
            } else {
                assert(pre.item_at(b2, i2).object == kk);
                pre.lemma_at(b2, i2);
                if kk == v.object {
                    // Two distinct positions with the same key in `pre`.
                    assert(pre.bsender(b2) == kk.sender);
                    assert(pre.bsender(b) == kk.sender);
                    assert(b2 == b);
                    assert(pre.item_at(b, i2).object.id == pre.item_at(b, i).object.id);
                    assert(false);
                }
            }
        }
        assert forall|kk: KeyView| #[trigger] pre@.insert(v.object, v).contains_key(
            kk,
        ) implies self@.contains_key(kk) by {
            if kk == v.object {
                assert(self.item_at(b, i).object == kk);
                assert(self.contains_spec(kk));
            } else {
                let (b2, i2) = pre.witness(kk);
                assert(self.item_at(b2, i2).object == kk);
                assert(self.contains_spec(kk));
            }
        }
        assert(self@ =~= pre@.insert(v.object, v));
        assert forall|s: Seq<char>| #[trigger] self.has_app_spec(s) == pre.has_app_spec(s) by {
            if self.has_app_spec(s) {
                let b2 = choose|b2: int| 0 <= b2 < self.n() && #[trigger] self.bsender(b2) == s;
                assert(pre.bsender(b2) == s);
            }
            if pre.has_app_spec(s) {
                let b2 = choose|b2: int| 0 <= b2 < pre.n() && #[trigger] pre.bsender(b2) == s;
                assert(self.bsender(b2) == s);
            }
        }
    }

    /// After deleting the entry at position `(b, i)`, the store is the old
    /// store with that key removed.
    proof fn lemma_shrink(self, pre: Store, b: int, i: int)
        requires
            pre.wf(),
            pre.idx_ok(b, i),
            self.n() == pre.n(),
            forall|b2: int| 0 <= b2 < pre.n() && b2 != b ==> self.buckets@[b2] == pre.buckets@[b2],
            self.bsender(b) == pre.bsender(b),
            self.blen(b) == pre.blen(b) - 1,
            forall|j: int| 0 <= j < i ==> self.item_at(b, j) == pre.item_at(b, j),
            forall|j: int| i <= j < self.blen(b) ==> self.item_at(b, j) == pre.item_at(b, j + 1),
        ensures
            self.wf(),
            self@ == pre@.remove(pre.item_at(b, i).object),
            forall|s: Seq<char>| #[trigger] self.has_app_spec(s) == pre.has_app_spec(s),
    {
        let k = pre.item_at(b, i).object;
        assert forall|b2: int| 0 <= b2 < self.n() implies self.bsender(b2) == pre.bsender(b2) by {
            if b2 != b {
                assert(self.buckets@[b2] == pre.buckets@[b2]);
            }
        }
        // Each remaining position holds an item of `pre` at a related
        // position other than `(b, i)`.
        assert forall|b2: int, i2: int| self.idx_ok(b2, i2) implies exists|j: int|
            pre.idx_ok(b2, j) && #[trigger] pre.item_at(b2, j) == self.item_at(b2, i2) && (b2 != b
                || j != i) by {
            if b2 != b {
                assert(self.buckets@[b2] == pre.buckets@[b2]);
                assert(pre.item_at(b2, i2) == self.item_at(b2, i2));
            } else if i2 < i {
                assert(pre.item_at(b2, i2) == self.item_at(b2, i2));
            } else {
                assert(pre.item_at(b2, i2 + 1) == self.item_at(b2, i2));
            }
        }
        assert forall|b2: int, i2: int| self.idx_ok(b2, i2) implies (#[trigger] self.item_at(
            b2,
            i2,
        )).object.sender == self.bsender(b2) && self.item_at(b2, i2).wf() by {
            let j = choose|j: int|
                pre.idx_ok(b2, j) && #[trigger] pre.item_at(b2, j) == self.item_at(b2, i2) && (b2
                    != b || j != i);
            assert(pre.item_at(b2, j).object.sender == pre.bsender(b2));
            assert(pre.item_at(b2, j).wf());
        }
        assert forall|b2: int, i2: int, j2: int|
            #![trigger self.item_at(b2, i2), self.item_at(b2, j2)]
            self.idx_ok(b2, i2) && self.idx_ok(b2, j2) && i2 != j2 implies self.item_at(
            b2,
            i2,
        ).object.id != self.item_at(b2, j2).object.id by {
            if b2 == b {
                let m1: int = if i2 < i {
                    i2
                } else {
                    i2 + 1
                };
                let m2: int = if j2 < i {
                    j2
                } else {
                    j2 + 1
                };
                assert(self.item_at(b2, i2) == pre.item_at(b, m1));
                assert(self.item_at(b2, j2) == pre.item_at(b, m2));
                assert(pre.item_at(b, m1).object.id != pre.item_at(b, m2).object.id);
            } else {
                assert(self.buckets@[b2] == pre.buckets@[b2]);
                assert(self.item_at(b2, i2) == pre.item_at(b2, i2));
                assert(self.item_at(b2, j2) == pre.item_at(b2, j2));
                assert(pre.item_at(b2, i2).object.id != pre.item_at(b2, j2).object.id);
            }
        }
        assert(self.wf());
        assert forall|kk: KeyView| #[trigger] self@.contains_key(kk) implies pre@.remove(
            k,
        ).contains_key(kk) && self@[kk] == pre@.remove(k)[kk] by {
            let (b2, i2) = self.witness(kk);
            self.lemma_at(b2, i2);
            let j = choose|j: int|
                pre.idx_ok(b2, j) && #[trigger] pre.item_at(b2, j) == self.item_at(b2, i2) && (b2
                    != b || j != i);
            pre.lemma_at(b2, j);
            if kk == k {
                // The removed key cannot still be present: its position in
                // `pre` would collide with `(b, i)`.
                assert(pre.bsender(b2) == kk.sender);
                assert(pre.bsender(b) == kk.sender);
                assert(b2 == b);
                assert(pre.item_at(b, j).object.id == pre.item_at(b, i).object.id);
                assert(j == i);
                assert(false);
            }
        }
        assert forall|kk: KeyView| #[trigger] pre@.remove(k).contains_key(
            kk,
        ) implies self@.contains_key(kk) by {
            let (b2, i2) = pre.witness(kk);
            if b2 == b {
                if i2 == i {
                    assert(kk == k);
                    assert(false);
                } else if i2 < i {
                    assert(self.item_at(b2, i2) == pre.item_at(b2, i2));
                    assert(self.contains_spec(kk));
                } else {
                    assert(self.item_at(b2, i2 - 1) == pre.item_at(b2, i2));
                    assert(self.contains_spec(kk));
                }
            } else {
                assert(self.buckets@[b2] == pre.buckets@[b2]);
                assert(self.item_at(b2, i2) == pre.item_at(b2, i2));
                assert(self.contains_spec(kk));
            }
        }
        assert(self@ =~= pre@.remove(k));
        assert forall|s: Seq<char>| #[trigger] self.has_app_spec(s) == pre.has_app_spec(s) by {
            if self.has_app_spec(s) {
                let b2 = choose|b2: int| 0 <= b2 < self.n() && #[trigger] self.bsender(b2) == s;
                assert(pre.bsender(b2) == s);
            }
            if pre.has_app_spec(s) {
                let b2 = choose|b2: int| 0 <= b2 < pre.n() && #[trigger] pre.bsender(b2) == s;
                assert(self.bsender(b2) == s);
            }
        }
    }

    /// After deleting the whole bucket at `b`, the store is the old store
    /// with every key of that application removed.
    proof fn lemma_drop_bucket(self, pre: Store, b: int)
        requires
            pre.wf(),
            0 <= b < pre.n(),
            self.buckets@ == pre.buckets@.remove(b),
        ensures
            self.wf(),
            self@ == pre@.remove_keys(keys_of_sender(pre.bsender(b))),
            forall|s: Seq<char>|
                #[trigger] self.has_app_spec(s) == (pre.has_app_spec(s) && s != pre.bsender(b)),
    {
        let snd = pre.bsender(b);
        assert(self.n() == pre.n() - 1);
        assert forall|b2: int| 0 <= b2 < self.n() implies self.buckets@[b2] == (
        if b2 < b {
            pre.buckets@[b2]
        } else {
            pre.buckets@[b2 + 1]
        }) by {}
        assert forall|b1: int, b2: int|
            #![trigger self.bsender(b1), self.bsender(b2)]
            0 <= b1 < self.n() && 0 <= b2 < self.n() && b1 != b2 implies self.bsender(b1)
            != self.bsender(b2) by {
            let m1: int = if b1 < b {
                b1
            } else {
                b1 + 1
            };
            let m2: int = if b2 < b {
                b2
            } else {
                b2 + 1
            };
            assert(self.bsender(b1) == pre.bsender(m1));
            assert(self.bsender(b2) == pre.bsender(m2));
        }
        assert forall|b2: int, i2: int| self.idx_ok(b2, i2) implies {
            let m: int = if b2 < b {
                b2
            } else {
                b2 + 1
            };
            pre.idx_ok(m, i2) && #[trigger] self.item_at(b2, i2) == pre.item_at(m, i2)
                && self.bsender(b2) == pre.bsender(m)
        } by {}
        assert forall|b2: int, i2: int| self.idx_ok(b2, i2) implies (#[trigger] self.item_at(
            b2,
            i2,
        )).object.sender == self.bsender(b2) && self.item_at(b2, i2).wf() by {
            let m: int = if b2 < b {
                b2
            } else {
                b2 + 1
            };
            assert(pre.item_at(m, i2).object.sender == pre.bsender(m));
            assert(pre.item_at(m, i2).wf());
        }
        assert forall|b2: int, i2: int, j2: int|
            #![trigger self.item_at(b2, i2), self.item_at(b2, j2)]
            self.idx_ok(b2, i2) && self.idx_ok(b2, j2) && i2 != j2 implies self.item_at(
            b2,
            i2,
        ).object.id != self.item_at(b2, j2).object.id by {
            let m: int = if b2 < b {
                b2
            } else {
                b2 + 1
            };
            assert(self.item_at(b2, i2) == pre.item_at(m, i2));
            assert(self.item_at(b2, j2) == pre.item_at(m, j2));
            assert(pre.item_at(m, i2).object.id != pre.item_at(m, j2).object.id);
        }
        assert(self.wf());
        let target = pre@.remove_keys(keys_of_sender(snd));
        assert forall|kk: KeyView| #[trigger] self@.contains_key(kk) implies target.contains_key(
            kk,
        ) && self@[kk] == target[kk] by {
            let (b2, i2) = self.witness(kk);
            self.lemma_at(b2, i2);
            let m: int = if b2 < b {
                b2
            } else {
                b2 + 1
            };
            assert(pre.item_at(m, i2).object == kk);
            pre.lemma_at(m, i2);
            assert(pre.bsender(m) == kk.sender);
            assert(m != b);
            assert(kk.sender != snd);
            assert(!keys_of_sender(snd).contains(kk));
        }
        assert forall|kk: KeyView| #[trigger] target.contains_key(kk) implies self@.contains_key(
            kk,
        ) by {
            let (b2, i2) = pre.witness(kk);
            assert(pre.bsender(b2) == kk.sender);
            assert(!keys_of_sender(snd).contains(kk));
            assert(kk.sender != snd);
            assert(b2 != b);
            if b2 < b {
                assert(self.item_at(b2, i2) == pre.item_at(b2, i2));
                assert(self.contains_spec(kk));
            } else {
                assert(self.item_at(b2 - 1, i2) == pre.item_at(b2, i2));
                assert(self.contains_spec(kk));
            }
        }
        assert(self@ =~= target);
        assert forall|s: Seq<char>|
            #[trigger] self.has_app_spec(s) == (pre.has_app_spec(s) && s != snd) by {
            if self.has_app_spec(s) {
                let b2 = choose|b2: int| 0 <= b2 < self.n() && #[trigger] self.bsender(b2) == s;
                let m: int = if b2 < b {
                    b2
                } else {
                    b2 + 1
                };
                assert(pre.bsender(m) == s);
                assert(m != b);
            }
            if pre.has_app_spec(s) && s != snd {
                let b2 = choose|b2: int| 0 <= b2 < pre.n() && #[trigger] pre.bsender(b2) == s;
                assert(b2 != b);
                if b2 < b {
                    assert(self.bsender(b2) == s);
                } else {
                    assert(self.bsender(b2 - 1) == s);
                }
            }
        }
    }

    /// After appending a fresh item `v` (key not yet present anywhere) to
    /// the existing bucket `b` of its application, the store is the old
    /// store with `v` inserted.
    proof fn lemma_grow(self, pre: Store, b: int, v: ItemView)
        requires
            pre.wf(),
            v.wf(),
            0 <= b < pre.n(),
            pre.bsender(b) == v.object.sender,
            !pre.contains_spec(v.object),
            self.n() == pre.n(),
            forall|b2: int| 0 <= b2 < pre.n() && b2 != b ==> self.buckets@[b2] == pre.buckets@[b2],
            self.bsender(b) == pre.bsender(b),
            self.blen(b) == pre.blen(b) + 1,
            forall|i: int| 0 <= i < pre.blen(b) ==> self.item_at(b, i) == pre.item_at(b, i),
            self.item_at(b, pre.blen(b)) == v,
        ensures
            self.wf(),
            self@ == fww_insert(pre@, v),
            forall|s: Seq<char>|
                #[trigger] self.has_app_spec(s) == (pre.has_app_spec(s) || s == v.object.sender),
    {
        assert forall|b2: int, i2: int| self.idx_ok(b2, i2) implies self.item_at(b2, i2) == (
        if b2 == b && i2 == pre.blen(b) {
            v
        } else {
            pre.item_at(b2, i2)
        }) && (if b2 == b && i2 == pre.blen(b) {
            true
        } else {
            pre.idx_ok(b2, i2)
        }) by {
            if b2 != b {
                assert(self.buckets@[b2] == pre.buckets@[b2]);
            }
        }
        assert forall|b2: int| 0 <= b2 < self.n() implies self.bsender(b2) == pre.bsender(b2) by {
            if b2 != b {
                assert(self.buckets@[b2] == pre.buckets@[b2]);
            }
        }
        // Well-formedness of the grown store.
        assert forall|b2: int, i2: int| self.idx_ok(b2, i2) implies (#[trigger] self.item_at(
            b2,
            i2,
        )).object.sender == self.bsender(b2) && self.item_at(b2, i2).wf() by {
            if b2 == b && i2 == pre.blen(b) {
            } else {
                assert(pre.item_at(b2, i2).object.sender == pre.bsender(b2));
                assert(pre.item_at(b2, i2).wf());
            }
        }
        assert forall|b2: int, i2: int, j2: int|
            #![trigger self.item_at(b2, i2), self.item_at(b2, j2)]
            self.idx_ok(b2, i2) && self.idx_ok(b2, j2) && i2 != j2 implies self.item_at(
            b2,
            i2,
        ).object.id != self.item_at(b2, j2).object.id by {
            if b2 == b {
                if i2 == pre.blen(b) {
                    // `v` against an old entry of the same bucket.
                    if self.item_at(b2, j2).object.id == v.object.id {
                        assert(pre.item_at(b, j2).object.sender == pre.bsender(b));
                        assert(pre.item_at(b, j2).object == v.object);
                        assert(pre.contains_spec(v.object));
                    }
                } else if j2 == pre.blen(b) {
                    if self.item_at(b2, i2).object.id == v.object.id {
                        assert(pre.item_at(b, i2).object.sender == pre.bsender(b));
                        assert(pre.item_at(b, i2).object == v.object);
                        assert(pre.contains_spec(v.object));
                    }
                } else {
                    assert(pre.item_at(b2, i2).object.id != pre.item_at(b2, j2).object.id);
                }
            } else {
                assert(pre.item_at(b2, i2).object.id != pre.item_at(b2, j2).object.id);
            }
        }
        assert(self.wf());
        // The abstract map gains exactly the binding for `v.object`.
        assert forall|kk: KeyView| #[trigger] self@.contains_key(kk) implies pre@.insert(
            v.object,
            v,
        ).contains_key(kk) && self@[kk] == pre@.insert(v.object, v)[kk] by {
            let (b2, i2) = self.witness(kk);
            self.lemma_at(b2, i2);
            if b2 == b && i2 == pre.blen(b) {
                assert(kk == v.object);
            } else {
                assert(pre.idx_ok(b2, i2));
                assert(pre.item_at(b2, i2).object == kk);
                pre.lemma_at(b2, i2);
                assert(kk != v.object);
            }
        }
        assert forall|kk: KeyView| #[trigger] pre@.insert(v.object, v).contains_key(
            kk,
        ) implies self@.contains_key(kk) by {
            if kk == v.object {
                assert(self.item_at(b, pre.blen(b)).object == kk);
                assert(self.contains_spec(kk));
            } else {
                let (b2, i2) = pre.witness(kk);
                assert(self.item_at(b2, i2).object == kk);
                assert(self.contains_spec(kk));
            }
        }
        assert(self@ =~= pre@.insert(v.object, v));
        assert(!pre@.contains_key(v.object));
        // Bucket structure is unchanged, so application presence is too.
        assert forall|s: Seq<char>|
            #[trigger] self.has_app_spec(s) == (pre.has_app_spec(s) || s == v.object.sender) by {
            if self.has_app_spec(s) {
                let b2 = choose|b2: int| 0 <= b2 < self.n() && #[trigger] self.bsender(b2) == s;
                assert(pre.bsender(b2) == s);
            }
            if pre.has_app_spec(s) {
                let b2 = choose|b2: int| 0 <= b2 < pre.n() && #[trigger] pre.bsender(b2) == s;
                assert(self.bsender(b2) == s);
            }
            if s == v.object.sender {
                assert(self.bsender(b) == s);
            }
        }
    }

    /// After pushing a brand-new bucket holding only `v`, the store is the
    /// old store with `v` inserted.
    proof fn lemma_new_bucket(self, pre: Store, v: ItemView)
        requires
            pre.wf(),
            v.wf(),
            !pre.has_app_spec(v.object.sender),
            self.n() == pre.n() + 1,
            forall|b2: int| 0 <= b2 < pre.n() ==> self.buckets@[b2] == pre.buckets@[b2],
            self.bsender(pre.n()) == v.object.sender,
            self.blen(pre.n()) == 1,
            self.item_at(pre.n(), 0) == v,
        ensures
            self.wf(),
            self@ == fww_insert(pre@, v),
            forall|s: Seq<char>|
                #[trigger] self.has_app_spec(s) == (pre.has_app_spec(s) || s == v.object.sender),
    {
        let nb = pre.n();
        assert forall|b2: int| 0 <= b2 < pre.n() implies self.bsender(b2) == pre.bsender(b2)
            && self.blen(b2) == pre.blen(b2) by {
            assert(self.buckets@[b2] == pre.buckets@[b2]);
        }
        assert forall|b2: int, i2: int| self.idx_ok(b2, i2) && b2 < pre.n() implies pre.idx_ok(
            b2,
            i2,
        ) && self.item_at(b2, i2) == pre.item_at(b2, i2) by {
            assert(self.buckets@[b2] == pre.buckets@[b2]);
        }
        // Well-formedness: the new bucket's application name is fresh.
        assert forall|b1: int, b2: int|
            #![trigger self.bsender(b1), self.bsender(b2)]
            0 <= b1 < self.n() && 0 <= b2 < self.n() && b1 != b2 implies self.bsender(b1)
            != self.bsender(b2) by {
            if b1 == nb {
                if self.bsender(b2) == v.object.sender {
                    assert(pre.bsender(b2) == v.object.sender);
                    assert(pre.has_app_spec(v.object.sender));
                }
            } else if b2 == nb {
                if self.bsender(b1) == v.object.sender {
                    assert(pre.bsender(b1) == v.object.sender);
                    assert(pre.has_app_spec(v.object.sender));
                }
            } else {
                assert(pre.bsender(b1) != pre.bsender(b2));
            }
        }
        assert forall|b2: int, i2: int| self.idx_ok(b2, i2) implies (#[trigger] self.item_at(
            b2,
            i2,
        )).object.sender == self.bsender(b2) && self.item_at(b2, i2).wf() by {
            if b2 == nb {
                assert(i2 == 0);
            } else {
                assert(pre.item_at(b2, i2).object.sender == pre.bsender(b2));
                assert(pre.item_at(b2, i2).wf());
            }
        }
        assert forall|b2: int, i2: int, j2: int|
            #![trigger self.item_at(b2, i2), self.item_at(b2, j2)]
            self.idx_ok(b2, i2) && self.idx_ok(b2, j2) && i2 != j2 implies self.item_at(
            b2,
            i2,
        ).object.id != self.item_at(b2, j2).object.id by {
            if b2 != nb {
                assert(pre.item_at(b2, i2).object.id != pre.item_at(b2, j2).object.id);
            }
        }
        assert(self.wf());
        // The key of `v` was absent: its application had no bucket at all.
        if pre.contains_spec(v.object) {
            pre.lemma_contains_has_app(v.object);
        }
        assert forall|kk: KeyView| #[trigger] self@.contains_key(kk) implies pre@.insert(
            v.object,
            v,
        ).contains_key(kk) && self@[kk] == pre@.insert(v.object, v)[kk] by {
            let (b2, i2) = self.witness(kk);
            self.lemma_at(b2, i2);
            if b2 == nb {
                assert(i2 == 0);
                assert(kk == v.object);
            } else {
                assert(pre.idx_ok(b2, i2));
                assert(pre.item_at(b2, i2).object == kk);
                pre.lemma_at(b2, i2);
                assert(kk != v.object);
            }
        }
        assert forall|kk: KeyView| #[trigger] pre@.insert(v.object, v).contains_key(
            kk,
        ) implies self@.contains_key(kk) by {
            if kk == v.object {
                assert(self.item_at(nb, 0).object == kk);
                assert(self.contains_spec(kk));
            } else {
                let (b2, i2) = pre.witness(kk);
                assert(self.item_at(b2, i2).object == kk);
                assert(self.contains_spec(kk));
            }
        }
        assert(self@ =~= pre@.insert(v.object, v));
        assert(!pre@.contains_key(v.object));
        assert forall|s: Seq<char>|
            #[trigger] self.has_app_spec(s) == (pre.has_app_spec(s) || s == v.object.sender) by {
            if self.has_app_spec(s) {
                let b2 = choose|b2: int| 0 <= b2 < self.n() && #[trigger] self.bsender(b2) == s;
                if b2 != nb {
                    assert(pre.bsender(b2) == s);
                }
            }
            if pre.has_app_spec(s) {
                let b2 = choose|b2: int| 0 <= b2 < pre.n() && #[trigger] pre.bsender(b2) == s;
                assert(self.bsender(b2) == s);
            }
            if s == v.object.sender {
                assert(self.bsender(nb) == s);
            }
        }
    }
}

} // verus!
