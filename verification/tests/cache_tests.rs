use std::cell::Cell;

use odilia_cache::cache::Cache;
use odilia_cache::driver::{CacheDriver, ItemDescriptor, LegacyItemDescriptor, StaticDriver};
use odilia_cache::error::CacheError;
use odilia_cache::events::{CacheEvent, PropertyValue};
use odilia_cache::item::CacheItem;
use odilia_cache::key::CacheKey;
use odilia_cache::protocol::{CacheRequest, CacheResponse};
use odilia_cache::relations::RelationType;

fn key(sender: &str, id: &str) -> CacheKey {
    CacheKey { sender: sender.to_string(), id: id.to_string() }
}

fn item(sender: &str, id: &str) -> CacheItem {
    CacheItem {
        object: key(sender, id),
        app: key(sender, "/root"),
        parent: key(sender, "/root"),
        index: Some(0),
        children_num: Some(0),
        interfaces: 0,
        role: 0,
        states: 0,
        children: Vec::new(),
        name: None,
        description: None,
        help_text: None,
        text: None,
    }
}

/// A driver that must never be reached: every call panics, proving that
/// the path under test was answered purely in memory.
struct PanickingDriver;

impl CacheDriver for PanickingDriver {
    fn lookup_external(&self, _key: &CacheKey) -> Result<CacheItem, CacheError> {
        panic!("driver reached on a path that must stay in memory");
    }
    fn lookup_bulk(&self, _key: &CacheKey) -> Result<Vec<CacheItem>, CacheError> {
        panic!("driver reached on a path that must stay in memory");
    }
    fn lookup_relations(
        &self,
        _key: &CacheKey,
        _ty: RelationType,
    ) -> Result<Vec<CacheKey>, CacheError> {
        panic!("driver reached on a path that must stay in memory");
    }
    fn lookup_from_descriptor(&self, _d: &ItemDescriptor) -> Result<CacheItem, CacheError> {
        panic!("driver reached on a path that must stay in memory");
    }
    fn lookup_from_legacy_descriptor(
        &self,
        _d: &LegacyItemDescriptor,
    ) -> Result<CacheItem, CacheError> {
        panic!("driver reached on a path that must stay in memory");
    }
}

/// A fixed-set driver that counts its single and bulk lookups.
struct CountingDriver {
    inner: StaticDriver,
    ext_calls: Cell<usize>,
    bulk_calls: Cell<usize>,
}

impl CountingDriver {
    fn new(items: Vec<CacheItem>) -> Self {
        CountingDriver {
            inner: StaticDriver { items },
            ext_calls: Cell::new(0),
            bulk_calls: Cell::new(0),
        }
    }
    fn calls(&self) -> usize {
        self.ext_calls.get() + self.bulk_calls.get()
    }
}

impl CacheDriver for CountingDriver {
    fn lookup_external(&self, key: &CacheKey) -> Result<CacheItem, CacheError> {
        self.ext_calls.set(self.ext_calls.get() + 1);
        self.inner.lookup_external(key)
    }
    fn lookup_bulk(&self, key: &CacheKey) -> Result<Vec<CacheItem>, CacheError> {
        self.bulk_calls.set(self.bulk_calls.get() + 1);
        self.inner.lookup_bulk(key)
    }
    fn lookup_relations(
        &self,
        key: &CacheKey,
        ty: RelationType,
    ) -> Result<Vec<CacheKey>, CacheError> {
        self.inner.lookup_relations(key, ty)
    }
    fn lookup_from_descriptor(&self, d: &ItemDescriptor) -> Result<CacheItem, CacheError> {
        self.inner.lookup_from_descriptor(d)
    }
    fn lookup_from_legacy_descriptor(
        &self,
        d: &LegacyItemDescriptor,
    ) -> Result<CacheItem, CacheError> {
        self.inner.lookup_from_legacy_descriptor(d)
    }
}

/// A driver that serves a fixed relation map besides fixed items.
struct RelationDriver {
    inner: StaticDriver,
    targets: Vec<CacheKey>,
}

impl CacheDriver for RelationDriver {
    fn lookup_external(&self, key: &CacheKey) -> Result<CacheItem, CacheError> {
        self.inner.lookup_external(key)
    }
    fn lookup_bulk(&self, key: &CacheKey) -> Result<Vec<CacheItem>, CacheError> {
        self.inner.lookup_bulk(key)
    }
    fn lookup_relations(
        &self,
        _key: &CacheKey,
        _ty: RelationType,
    ) -> Result<Vec<CacheKey>, CacheError> {
        Ok(self.targets.clone())
    }
    fn lookup_from_descriptor(&self, d: &ItemDescriptor) -> Result<CacheItem, CacheError> {
        self.inner.lookup_from_descriptor(d)
    }
    fn lookup_from_legacy_descriptor(
        &self,
        d: &LegacyItemDescriptor,
    ) -> Result<CacheItem, CacheError> {
        self.inner.lookup_from_legacy_descriptor(d)
    }
}

fn expect_item(resp: Result<CacheResponse, CacheError>) -> CacheItem {
    match resp.expect("request failed") {
        CacheResponse::Item(it) => it,
        other => panic!("expected an Item response, got {:?}", other),
    }
}

fn expect_children(resp: Result<CacheResponse, CacheError>) -> Vec<CacheItem> {
    match resp.expect("request failed") {
        CacheResponse::Children(chs) => chs,
        other => panic!("expected a Children response, got {:?}", other),
    }
}

#[test]
fn item_request_returns_requested_key() {
    let x = item("app-A", "/x");
    let mut cache = Cache::new(StaticDriver { items: vec![x.clone()] });
    let got = expect_item(cache.request(CacheRequest::Item(key("app-A", "/x"))));
    assert_eq!(got.object, key("app-A", "/x"));
    assert_eq!(got, x);
}

#[test]
fn lazy_miss_then_memory_hit() {
    let mut x = item("app-A", "/x");
    x.parent = key("app-A", "/root");
    let driver = CountingDriver::new(vec![x.clone()]);
    let mut cache = Cache::new(driver);
    let first = expect_item(cache.request(CacheRequest::Item(key("app-A", "/x"))));
    assert_eq!(first, x);
    assert_eq!(cache.driver.calls(), 1);
    let second = expect_item(cache.request(CacheRequest::Item(key("app-A", "/x"))));
    assert_eq!(second, x);
    assert_eq!(cache.driver.calls(), 1, "second lookup must not invoke the driver");
}

#[test]
fn bulk_prefetch_on_first_touch() {
    let items: Vec<CacheItem> =
        (0..5).map(|i| item("app-A", &format!("/item{}", i))).collect();
    let driver = CountingDriver::new(items.clone());
    let mut cache = Cache::new(driver);
    let got = expect_item(cache.request(CacheRequest::Item(key("app-A", "/item3"))));
    assert_eq!(got.object, key("app-A", "/item3"));
    assert_eq!(cache.driver.bulk_calls.get(), 1);
    assert_eq!(cache.driver.ext_calls.get(), 0);
    for i in [0usize, 1, 2, 4] {
        let k = key("app-A", &format!("/item{}", i));
        let got = expect_item(cache.request(CacheRequest::Item(k.clone())));
        assert_eq!(got.object, k);
    }
    assert_eq!(cache.driver.calls(), 1, "the other four items must hit in memory");
}

#[test]
fn bulk_prefetch_once_per_sender() {
    let mut items = vec![item("app-A", "/a1"), item("app-A", "/a2")];
    items.push(item("app-B", "/b1"));
    let driver = CountingDriver::new(items);
    let mut cache = Cache::new(driver);
    let _ = expect_item(cache.request(CacheRequest::Item(key("app-A", "/a1"))));
    let _ = expect_item(cache.request(CacheRequest::Item(key("app-A", "/a2"))));
    assert_eq!(cache.driver.bulk_calls.get(), 1);
    let _ = expect_item(cache.request(CacheRequest::Item(key("app-B", "/b1"))));
    assert_eq!(cache.driver.bulk_calls.get(), 2);
    let _ = expect_item(cache.request(CacheRequest::Item(key("app-B", "/b1"))));
    assert_eq!(cache.driver.bulk_calls.get(), 2);
}

#[test]
fn remove_then_item_calls_driver_again() {
    let x = item("app-A", "/x");
    let driver = CountingDriver::new(vec![x.clone()]);
    let mut cache = Cache::new(driver);
    cache.add(x.clone());
    let got = expect_item(cache.request(CacheRequest::Item(key("app-A", "/x"))));
    assert_eq!(got, x);
    assert_eq!(cache.driver.calls(), 0, "a cached item must be served from memory");
    cache.remove(&key("app-A", "/x"));
    let got = expect_item(cache.request(CacheRequest::Item(key("app-A", "/x"))));
    assert_eq!(got, x);
    assert!(cache.driver.calls() > 0, "after removal the driver must be consulted");
}

#[test]
fn addall_then_item_first_write_wins() {
    let mut first = item("app-A", "/x");
    first.name = Some("first".to_string());
    let mut second = item("app-A", "/x");
    second.name = Some("second".to_string());
    let mut cache = Cache::new(PanickingDriver);
    let resp = cache
        .request(CacheRequest::AddAll(vec![first.clone(), second]))
        .expect("add all failed");
    assert!(matches!(resp, CacheResponse::AddAll));
    let got = expect_item(cache.request(CacheRequest::Item(key("app-A", "/x"))));
    assert_eq!(got.name.as_deref(), Some("first"));
    assert_eq!(got, first);
}

#[test]
fn addall_twice_is_addall_once() {
    let batch: Vec<CacheItem> =
        (0..4).map(|i| item("app-A", &format!("/n{}", i))).collect();
    let mut cache = Cache::new(PanickingDriver);
    cache.request(CacheRequest::AddAll(batch.clone())).expect("add all failed");
    let snapshot: Vec<Option<CacheItem>> = (0..4)
        .map(|i| cache.get(&key("app-A", &format!("/n{}", i))))
        .collect();
    cache.request(CacheRequest::AddAll(batch)).expect("add all failed");
    let after: Vec<Option<CacheItem>> = (0..4)
        .map(|i| cache.get(&key("app-A", &format!("/n{}", i))))
        .collect();
    assert_eq!(snapshot, after);
}

#[test]
fn children_request_matches_child_list() {
    let mut p = item("app-A", "/p");
    p.children = vec![key("app-A", "/a"), key("app-A", "/b")];
    let a = item("app-A", "/a");
    let b = item("app-A", "/b");
    let mut cache = Cache::new(PanickingDriver);
    cache.add_all(vec![p, a.clone(), b.clone()]);
    let chs = expect_children(cache.request(CacheRequest::Children(key("app-A", "/p"))));
    assert_eq!(chs.len(), 2);
    assert_eq!(chs[0], a);
    assert_eq!(chs[1], b);
}

#[test]
fn children_added_mutation_order() {
    let mut p = item("app-A", "/p");
    p.children = vec![key("app-A", "/a"), key("app-A", "/b"), key("app-A", "/c")];
    let mut cache = Cache::new(PanickingDriver);
    cache.add_all(vec![
        p,
        item("app-A", "/a"),
        item("app-A", "/b"),
        item("app-A", "/c"),
        item("app-A", "/d"),
    ]);
    let ev = CacheEvent::ChildrenAdded {
        parent: key("app-A", "/p"),
        index: 1,
        child: key("app-A", "/d"),
    };
    cache.request(CacheRequest::EventHandler(ev)).expect("event failed");
    let chs = expect_children(cache.request(CacheRequest::Children(key("app-A", "/p"))));
    let ids: Vec<&str> = chs.iter().map(|c| c.object.id.as_str()).collect();
    assert_eq!(ids, vec!["/a", "/d", "/b", "/c"]);
    let d = cache.get(&key("app-A", "/d")).expect("child must be present");
    assert_eq!(d.parent, key("app-A", "/p"));
}

#[test]
fn children_removed_drops_first_occurrence() {
    let mut p = item("app-A", "/p");
    p.children = vec![key("app-A", "/a"), key("app-A", "/b"), key("app-A", "/a")];
    let mut cache = Cache::new(PanickingDriver);
    cache.add_all(vec![p, item("app-A", "/a"), item("app-A", "/b")]);
    let ev = CacheEvent::ChildrenRemoved { parent: key("app-A", "/p"), child: key("app-A", "/a") };
    let got = expect_item(cache.request(CacheRequest::EventHandler(ev)));
    let ids: Vec<&str> = got.children.iter().map(|c| c.id.as_str()).collect();
    assert_eq!(ids, vec!["/b", "/a"]);
}

#[test]
fn state_toggle() {
    const FOCUSABLE: u64 = 1 << 11;
    const FOCUSED: u64 = 1 << 12;
    let mut x = item("app-A", "/x");
    x.states = FOCUSABLE;
    let mut cache = Cache::new(PanickingDriver);
    cache.add(x);
    let ev = CacheEvent::StateChanged {
        target: key("app-A", "/x"),
        state: FOCUSED,
        enabled: true,
    };
    cache.request(CacheRequest::EventHandler(ev)).expect("event failed");
    let got = expect_item(cache.request(CacheRequest::Item(key("app-A", "/x"))));
    assert_eq!(got.states, FOCUSABLE | FOCUSED);
    let ev = CacheEvent::StateChanged {
        target: key("app-A", "/x"),
        state: FOCUSED,
        enabled: false,
    };
    cache.request(CacheRequest::EventHandler(ev)).expect("event failed");
    let got = expect_item(cache.request(CacheRequest::Item(key("app-A", "/x"))));
    assert_eq!(got.states, FOCUSABLE);
}

#[test]
fn text_changed_splices_replacement() {
    let mut x = item("app-A", "/x");
    x.text = Some("hello".to_string());
    let mut cache = Cache::new(PanickingDriver);
    cache.add(x);
    let ev = CacheEvent::TextChanged {
        target: key("app-A", "/x"),
        offset: 1,
        length: 3,
        inserted: "XY".to_string(),
        removed: "ell".to_string(),
    };
    let got = expect_item(cache.request(CacheRequest::EventHandler(ev)));
    assert_eq!(got.text.as_deref(), Some("hXYo"));
}

#[test]
fn text_changed_to_empty_normalizes_to_absent() {
    let mut x = item("app-A", "/x");
    x.text = Some("a".to_string());
    let mut cache = Cache::new(PanickingDriver);
    cache.add(x);
    let ev = CacheEvent::TextChanged {
        target: key("app-A", "/x"),
        offset: 0,
        length: 1,
        inserted: String::new(),
        removed: "a".to_string(),
    };
    let got = expect_item(cache.request(CacheRequest::EventHandler(ev)));
    assert_eq!(got.text, None);
}

#[test]
fn property_change_normalizes_empty_name() {
    let mut x = item("app-A", "/x");
    x.name = Some("old".to_string());
    let mut cache = Cache::new(PanickingDriver);
    cache.add(x);
    let ev = CacheEvent::PropertyChanged {
        target: key("app-A", "/x"),
        value: PropertyValue::Name(String::new()),
    };
    let got = expect_item(cache.request(CacheRequest::EventHandler(ev)));
    assert_eq!(got.name, None);
    let ev = CacheEvent::PropertyChanged {
        target: key("app-A", "/x"),
        value: PropertyValue::Name("fresh".to_string()),
    };
    let got = expect_item(cache.request(CacheRequest::EventHandler(ev)));
    assert_eq!(got.name.as_deref(), Some("fresh"));
}

#[test]
fn cache_remove_event_returns_removed_item() {
    let x = item("app-A", "/x");
    let mut cache = Cache::new(PanickingDriver);
    cache.add(x.clone());
    let ev = CacheEvent::Remove { target: key("app-A", "/x") };
    let got = expect_item(cache.request(CacheRequest::EventHandler(ev)));
    assert_eq!(got, x);
    let ev = CacheEvent::Remove { target: key("app-A", "/x") };
    let err = cache.request(CacheRequest::EventHandler(ev)).unwrap_err();
    assert_eq!(err, CacheError::NotFound);
}

#[test]
fn application_exit_drops_whole_bucket() {
    let mut cache = Cache::new(PanickingDriver);
    cache.add_all(vec![item("app-A", "/a1"), item("app-A", "/a2"), item("app-B", "/b1")]);
    let ev = CacheEvent::ApplicationExit { sender: "app-A".to_string() };
    let _ = cache.request(CacheRequest::EventHandler(ev));
    assert!(cache.get(&key("app-A", "/a1")).is_none());
    assert!(cache.get(&key("app-A", "/a2")).is_none());
    assert!(cache.get(&key("app-B", "/b1")).is_some());
}

#[test]
fn descriptor_add_is_first_write_wins() {
    let mut existing = item("app-A", "/x");
    existing.name = Some("kept".to_string());
    let mut cache = Cache::new(StaticDriver { items: Vec::new() });
    cache.add(existing.clone());
    let descriptor = ItemDescriptor {
        object: key("app-A", "/x"),
        app: key("app-A", "/root"),
        parent: key("app-A", "/root"),
        index: 2,
        children: 0,
        ifaces: 0,
        short_name: "new".to_string(),
        role: 7,
        states: 0,
    };
    let got = expect_item(cache.request(CacheRequest::EventHandler(CacheEvent::Add(descriptor))));
    assert_eq!(got, existing, "an already-cached key must not be overwritten");
}

#[test]
fn subtree_breaks_cycles() {
    let mut r = item("app-A", "/r");
    r.children = vec![key("app-A", "/c1")];
    let mut c1 = item("app-A", "/c1");
    c1.children = vec![key("app-A", "/r")];
    let mut cache = Cache::new(PanickingDriver);
    cache.add_all(vec![r.clone(), c1]);
    let sub = cache.subtree(&r).expect("subtree failed");
    let mut ids: Vec<String> = sub.0.iter().map(|i| i.object.id.clone()).collect();
    ids.sort();
    assert_eq!(ids, vec!["/c1".to_string(), "/r".to_string()]);
}

#[test]
fn subtree_collects_each_key_once() {
    let mut r = item("app-A", "/r");
    r.children = vec![key("app-A", "/c1"), key("app-A", "/c2")];
    let mut c1 = item("app-A", "/c1");
    c1.children = vec![key("app-A", "/c3")];
    let c2 = item("app-A", "/c2");
    let c3 = item("app-A", "/c3");
    let mut cache = Cache::new(PanickingDriver);
    cache.add_all(vec![r.clone(), c1, c2, c3]);
    let sub = cache.subtree(&r).expect("subtree failed");
    assert_eq!(sub.0.len(), 4);
    assert_eq!(sub.0[0].object, key("app-A", "/r"), "the root comes first");
    for i in 0..sub.0.len() {
        for j in 0..sub.0.len() {
            if i != j {
                assert_ne!(sub.0[i].object, sub.0[j].object);
            }
        }
    }
}

#[test]
fn relation_request_resolves_targets() {
    let lbl = item("app-A", "/label");
    let driver =
        RelationDriver { inner: StaticDriver { items: vec![lbl.clone()] }, targets: vec![key("app-A", "/label")] };
    let mut cache = Cache::new(driver);
    cache.add(item("app-A", "/x"));
    let resp = cache
        .request(CacheRequest::Relation(key("app-A", "/x"), RelationType::LabelledBy))
        .expect("relation request failed");
    match resp {
        CacheResponse::Relations(ty, items) => {
            assert_eq!(ty, RelationType::LabelledBy);
            assert_eq!(items.len(), 1);
            assert_eq!(items[0], lbl);
        }
        other => panic!("expected a Relations response, got {:?}", other),
    }
}

#[test]
fn parent_request_fetches_referenced_parent() {
    let root = item("app-A", "/root");
    let mut x = item("app-A", "/x");
    x.parent = key("app-A", "/root");
    let mut cache = Cache::new(PanickingDriver);
    cache.add_all(vec![root.clone(), x]);
    let resp = cache.request(CacheRequest::Parent(key("app-A", "/x"))).expect("parent failed");
    match resp {
        CacheResponse::Parent(p) => assert_eq!(p, root),
        other => panic!("expected a Parent response, got {:?}", other),
    }
}

#[test]
fn modify_if_not_new_mutates_present_entry() {
    let x = item("app-A", "/x");
    let mut cache = Cache::new(PanickingDriver);
    cache.add(x);
    let got = cache
        .modify_if_not_new(&key("app-A", "/x"), |mut it: CacheItem| {
            it.role = 42;
            it
        })
        .expect("modify failed");
    assert_eq!(got.role, 42);
    assert_eq!(cache.get(&key("app-A", "/x")).unwrap().role, 42);
}

#[test]
fn modify_if_not_new_falls_back_to_fetch() {
    let x = item("app-A", "/x");
    let mut cache = Cache::new(StaticDriver { items: vec![x.clone()] });
    let got = cache
        .modify_if_not_new(&key("app-A", "/x"), |mut it: CacheItem| {
            it.role = 42;
            it
        })
        .expect("modify failed");
    assert_eq!(got.role, 0, "an absent key is fetched with no mutation applied");
    assert_eq!(got, x);
}

#[test]
fn get_or_create_all_keeps_order_and_duplicates() {
    let a = item("app-A", "/a");
    let b = item("app-A", "/b");
    let mut cache = Cache::new(StaticDriver { items: vec![a.clone(), b.clone()] });
    let keys = vec![key("app-A", "/b"), key("app-A", "/a"), key("app-A", "/b")];
    let got = cache.get_or_create_all(keys).expect("bulk get failed");
    assert_eq!(got.len(), 3);
    assert_eq!(got[0], b);
    assert_eq!(got[1], a);
    assert_eq!(got[2], b);
}

#[test]
fn missing_key_reports_not_found() {
    let mut cache = Cache::new(StaticDriver { items: Vec::new() });
    let err = cache.request(CacheRequest::Item(key("app-A", "/nope"))).unwrap_err();
    assert_eq!(err, CacheError::NotFound);
}

#[test]
fn remove_all_and_clear_empty_the_store() {
    let mut cache = Cache::new(PanickingDriver);
    cache.add_all(vec![item("app-A", "/a"), item("app-A", "/b"), item("app-B", "/c")]);
    cache.remove_all(&vec![key("app-A", "/a"), key("app-A", "/b")]);
    assert!(cache.get(&key("app-A", "/a")).is_none());
    assert!(cache.get(&key("app-B", "/c")).is_some());
    cache.clear();
    assert!(cache.get(&key("app-B", "/c")).is_none());
}

#[test]
fn get_all_reports_presence_per_key() {
    let mut cache = Cache::new(PanickingDriver);
    let a = item("app-A", "/a");
    cache.add(a.clone());
    let got = cache.get_all(&vec![key("app-A", "/a"), key("app-A", "/missing")]);
    assert_eq!(got.len(), 2);
    assert_eq!(got[0].as_ref(), Some(&a));
    assert!(got[1].is_none());
}

#[test]
fn response_expectors_flag_wrong_variant() {
    let resp = CacheResponse::Children(Vec::new());
    let err = resp.expect_item().unwrap_err();
    assert_eq!(err, CacheError::InvalidResponse);
    let resp = CacheResponse::Item(item("app-A", "/x"));
    assert!(resp.expect_children().is_err());
    let resp = CacheResponse::Children(Vec::new());
    assert!(resp.expect_children().is_ok());
}

#[test]
fn error_kind_names_are_stable() {
    assert_eq!(CacheError::NotFound.kind_name(), "not found");
    assert_eq!(CacheError::DriverError("x".to_string()).kind_name(), "driver error");
    assert_eq!(CacheError::ProtocolError.kind_name(), "protocol error");
    assert_eq!(CacheError::PredicateFailure("p".to_string()).kind_name(), "predicate failure");
    assert_eq!(CacheError::InvalidResponse.kind_name(), "invalid response");
    assert_eq!(CacheError::ShutdownInProgress.kind_name(), "shutdown in progress");
}

#[test]
fn legacy_descriptor_promotes_with_children() {
    let mut cache = Cache::new(StaticDriver { items: Vec::new() });
    let descriptor = LegacyItemDescriptor {
        object: key("app-A", "/x"),
        app: key("app-A", "/root"),
        parent: key("app-A", "/root"),
        children: vec![key("app-A", "/c1"), key("app-A", "/c2")],
        ifaces: 3,
        name: String::new(),
        role: 5,
        states: 0,
    };
    let got = expect_item(
        cache.request(CacheRequest::EventHandler(CacheEvent::LegacyAdd(descriptor))),
    );
    assert_eq!(got.object, key("app-A", "/x"));
    assert_eq!(got.children_num, Some(2));
    assert_eq!(got.children.len(), 2);
    assert_eq!(got.name, None, "an empty wire name must normalize to absent");
}
