use vstd::prelude::*;
use vstd::string::{StrSliceExecFns, StringExecFns};

use crate::cache::Cache;
use crate::driver::{CacheDriver, ItemDescriptor, LegacyItemDescriptor};
use crate::error::CacheError;
use crate::item::{empty_to_none, norm, CacheItem, ItemView};
use crate::key::{key_eq, CacheKey, KeyView};
use crate::store::keys_of_sender;

verus! {

/// The key of an application's root accessible: every application
/// exposes its root under the same fixed object path.
pub open spec fn app_root_key(sender: Seq<char>) -> KeyView {
    KeyView { sender: sender, id: "/org/a11y/atspi/accessible/root"@ }
}

/// The object path under which every application exposes its root
/// accessible on the bus.
pub fn app_root_id() -> (r: &'static str)
    ensures
        r@ == "/org/a11y/atspi/accessible/root"@,
{
    "/org/a11y/atspi/accessible/root"
}

/// The value carried by a property-change notification, for the properties
/// the cache mirrors.
#[derive(Clone, Debug)]
pub enum PropertyValue {
    /// A new short name; the empty string means "unset".
    Name(String),
    /// A new description; the empty string means "unset".
    Description(String),
    /// A new role tag.
    Role(u32),
    /// A new parent key.
    Parent(CacheKey),
}

/// One upstream change notification, reduced to the parameters the cache
/// needs to apply the corresponding mutation. Unknown upstream kinds are
/// rejected at the boundary and never reach the cache.
#[derive(Clone, Debug)]
pub enum CacheEvent {
    /// A child was inserted at `index` (clamped to the child list) below
    /// `parent`.
    ChildrenAdded { parent: CacheKey, index: usize, child: CacheKey },
    /// The first occurrence of `child` was removed from `parent`'s child
    /// list.
    ChildrenRemoved { parent: CacheKey, child: CacheKey },
    /// The state bits in `state` were switched on (`enabled`) or off.
    StateChanged { target: CacheKey, state: u64, enabled: bool },
    /// `length` characters at `offset` were replaced by `inserted`;
    /// `removed` reports the old text for consumers.
    TextChanged { target: CacheKey, offset: usize, length: usize, inserted: String, removed: String },
    /// The caret moved; no store mutation.
    TextCaretMoved { target: CacheKey, position: i32 },
    /// A mirrored property of `target` changed.
    PropertyChanged { target: CacheKey, value: PropertyValue },
    /// An upstream cache-add notification carrying a thin descriptor.
    Add(ItemDescriptor),
    /// An upstream cache-add notification in the legacy wire shape.
    LegacyAdd(LegacyItemDescriptor),
    /// An upstream cache-remove notification.
    Remove { target: CacheKey },
    /// The application `sender` left the bus.
    ApplicationExit { sender: String },
}

/// Clamp a desired insertion position to the length of a child list.
pub open spec fn clamp_pos(i: int, len: int) -> int {
    if i <= len {
        i
    } else {
        len
    }
}

/// The effect of a children-added notification on a state where both
/// parent and child are present: the child key enters the parent's child
/// list at the clamped position, and the child's parent pointer is set.
pub open spec fn children_added_spec(
    m: Map<KeyView, ItemView>,
    p: KeyView,
    i: int,
    c: KeyView,
) -> Map<KeyView, ItemView> {
    let pv = m[p];
    let p2 = ItemView { children: pv.children.insert(clamp_pos(i, pv.children.len() as int), c), ..pv };
    let m2 = m.insert(p, p2);
    let cv = m2[c];
    let c2 = ItemView { parent: p, ..cv };
    m2.insert(c, c2)
}

/// Remove the first occurrence of `c`, if any.
pub open spec fn remove_first(s: Seq<KeyView>, c: KeyView) -> Seq<KeyView>
    decreases s.len(),
{
    if s.len() == 0 {
        s
    } else if s[0] == c {
        s.drop_first()
    } else {
        seq![s[0]] + remove_first(s.drop_first(), c)
    }
}

/// The effect of a children-removed notification on a state where the
/// parent is present.
pub open spec fn children_removed_spec(m: Map<KeyView, ItemView>, p: KeyView, c: KeyView) -> Map<
    KeyView,
    ItemView,
> {
    let pv = m[p];
    m.insert(p, ItemView { children: remove_first(pv.children, c), ..pv })
}

/// Set or clear the given state bits.
pub open spec fn apply_state(states: u64, mask: u64, enabled: bool) -> u64 {
    if enabled {
        states | mask
    } else {
        states & !mask
    }
}

/// The effect of a state-changed notification on a state where the target
/// is present.
pub open spec fn state_changed_spec(
    m: Map<KeyView, ItemView>,
    t: KeyView,
    mask: u64,
    enabled: bool,
) -> Map<KeyView, ItemView> {
    let tv = m[t];
    m.insert(t, ItemView { states: apply_state(tv.states, mask, enabled), ..tv })
}

/// Replace `length` characters at `offset` (both clamped to the text) by
/// `ins`.
pub open spec fn splice_text(s: Seq<char>, offset: int, length: int, ins: Seq<char>) -> Seq<char> {
    let start = if offset <= s.len() {
        offset
    } else {
        s.len() as int
    };
    let end = if start + length <= s.len() {
        start + length
    } else {
        s.len() as int
    };
    s.subrange(0, start) + ins + s.subrange(end, s.len() as int)
}

/// The effect of a text-changed notification on a state where the target
/// is present: if the item has text, the replacement is spliced in and the
/// result normalized; an item without text is left unchanged.
pub open spec fn text_changed_spec(
    m: Map<KeyView, ItemView>,
    t: KeyView,
    offset: int,
    length: int,
    ins: Seq<char>,
) -> Map<KeyView, ItemView> {
    let tv = m[t];
    match tv.text {
        Some(s) => m.insert(
            t,
            ItemView { text: norm(Some(splice_text(s, offset, length, ins))), ..tv },
        ),
        None => m,
    }
}

/// The effect of a property-change notification on one item: update the
/// named field if the cache mirrors it, normalizing text values.
pub open spec fn apply_property(v: ItemView, value: PropertyValue) -> ItemView {
    match value {
        PropertyValue::Name(s) => ItemView { name: norm(Some(s@)), ..v },
        PropertyValue::Description(s) => ItemView { description: norm(Some(s@)), ..v },
        PropertyValue::Role(r) => ItemView { role: r, ..v },
        PropertyValue::Parent(k) => ItemView { parent: k@, ..v },
    }
}

/// The effect of a property-change notification on a state where the
/// target is present.
pub open spec fn property_changed_spec(
    m: Map<KeyView, ItemView>,
    t: KeyView,
    value: PropertyValue,
) -> Map<KeyView, ItemView> {
    m.insert(t, apply_property(m[t], value))
}

/// `remove_first` deletes exactly the first occurrence.
proof fn lemma_remove_first_at(s: Seq<KeyView>, c: KeyView, j: int)
    requires
        0 <= j < s.len(),
        s[j] == c,
        forall|k: int| 0 <= k < j ==> s[k] != c,
    ensures
        remove_first(s, c) == s.remove(j),
    decreases j,
{
    if j == 0 {
        assert(s.drop_first() =~= s.remove(0));
    } else {
        let tail = s.drop_first();
        assert(tail[j - 1] == c);
        assert forall|k: int| 0 <= k < j - 1 implies tail[k] != c by {
            assert(s[k + 1] != c);
        }
        lemma_remove_first_at(tail, c, j - 1);
        assert(remove_first(s, c) == seq![s[0]] + tail.remove(j - 1));
        assert(seq![s[0]] + tail.remove(j - 1) =~= s.remove(j));
    }
}

/// Without an occurrence, `remove_first` is the identity.
proof fn lemma_remove_first_absent(s: Seq<KeyView>, c: KeyView)
    requires
        forall|k: int| 0 <= k < s.len() ==> s[k] != c,
    ensures
        remove_first(s, c) == s,
    decreases s.len(),
{
    if s.len() > 0 {
        let tail = s.drop_first();
        assert forall|k: int| 0 <= k < tail.len() implies tail[k] != c by {
            assert(s[k + 1] != c);
        }
        lemma_remove_first_absent(tail, c);
        assert(seq![s[0]] + tail =~= s);
    }
}

impl<D: CacheDriver> Cache<D> {
    /// Apply a children-added notification: ensure the parent is present,
    /// insert the child key into its child list at the clamped position,
    /// ensure the child is present, point the child's parent at the
    /// parent, and return the parent post-mutation.
    pub fn handle_children_added(
        &mut self,
        parent: &CacheKey,
        index: usize,
        child: &CacheKey,
    ) -> (r: Result<CacheItem, CacheError>)
        requires
            old(self).wf(),
        ensures
            final(self).wf(),
            old(self)@.contains_key(parent@) && old(self)@.contains_key(child@) ==> final(self)@
                == children_added_spec(old(self)@, parent@, index as int, child@) && (r matches Ok(
                item,
            ) && item@ == final(self)@[parent@]),
            r matches Ok(item) ==> final(self)@.contains_key(parent@)
                && final(self)@.contains_key(child@) && item@ == final(self)@[parent@]
                && final(self)@[child@].parent == parent@ && final(self)@[parent@].children.contains(
                child@,
            ) && item@.wf(),
            r matches Err(_) ==> !(old(self)@.contains_key(parent@) && old(self)@.contains_key(
                child@,
            )),
    {
        let mut p_item = match self.get_or_create(parent) {
            Ok(item) => item,
            Err(e) => {
                return Err(e);
            },
        };
        let pos = if index <= p_item.children.len() {
            index
        } else {
            p_item.children.len()
        };
        p_item.children.insert(pos, child.clone());
        let ghost p2v = p_item@;
        self.replace(p_item);
        let ghost mid = self@;
        proof {
            assert(mid.contains_key(parent@));
            assert(mid[parent@] == p2v);
        }
        let mut c_item = match self.get_or_create(child) {
            Ok(item) => item,
            Err(e) => {
                return Err(e);
            },
        };
        let ghost mid2 = self@;
        proof {
            assert(mid2.contains_key(parent@) && mid2[parent@] == p2v);
        }
        c_item.parent = parent.clone();
        self.replace(c_item);
        proof {
            assert(self@.contains_key(parent@));
            if child@ == parent@ {
                assert(self@[parent@].children == p2v.children);
            } else {
                assert(self@[parent@] == p2v);
            }
            assert(p2v.children[pos as int] == child@);
            assert(self@[parent@].children.contains(child@));
        }
        proof {
            if old(self)@.contains_key(parent@) && old(self)@.contains_key(child@) {
                let m = old(self)@;
                let p = parent@;
                let c = child@;
                let pv = m[p];
                assert(pos as int == clamp_pos(index as int, pv.children.len() as int));
                assert(p2v.children =~= pv.children.insert(
                    clamp_pos(index as int, pv.children.len() as int),
                    c,
                ));
                assert(p2v =~= (ItemView {
                    children: pv.children.insert(
                        clamp_pos(index as int, pv.children.len() as int),
                        c,
                    ),
                    ..pv
                }));
                assert(mid == m.insert(p, p2v));
                assert(mid2 == mid);
                assert(self@ == mid.insert(c, ItemView { parent: p, ..mid[c] }));
                assert(self@ == children_added_spec(m, p, index as int, c));
            }
        }
        match self.get(parent) {
            Some(item) => {
                proof {
                    self.lemma_key_agree(parent@);
                }
                Ok(item)
            },
            None => {
                proof {
                    assert(false);
                }
                unreached()
            },
        }
    }

    /// Apply a children-removed notification: ensure the parent is
    /// present, drop the first occurrence of the child key from its child
    /// list, and return the parent post-mutation.
    pub fn handle_children_removed(&mut self, parent: &CacheKey, child: &CacheKey) -> (r: Result<
        CacheItem,
        CacheError,
    >)
        requires
            old(self).wf(),
        ensures
            final(self).wf(),
            old(self)@.contains_key(parent@) ==> final(self)@ == children_removed_spec(
                old(self)@,
                parent@,
                child@,
            ) && (r matches Ok(item) && item@ == final(self)@[parent@]),
            r matches Ok(item) ==> final(self)@.contains_key(parent@) && item@ == final(self)@[parent@] && item@.wf(),
            r matches Err(_) ==> !old(self)@.contains_key(parent@),
    {
        let mut p_item = match self.get_or_create(parent) {
            Ok(item) => item,
            Err(e) => {
                return Err(e);
            },
        };
        let ghost chs = p_item.children.deep_view();
        let mut j: usize = 0;
        let mut found: Option<usize> = None;
        while j < p_item.children.len()
            invariant
                j <= chs.len(),
                chs == p_item.children.deep_view(),
                match found {
                    Some(fj) => fj < j && chs[fj as int] == child@ && forall|k: int|
                        0 <= k < fj ==> chs[k] != child@,
                    None => forall|k: int| 0 <= k < j ==> chs[k] != child@,
                },
            decreases chs.len() - j,
        {
            if found.is_none() && key_eq(&p_item.children[j], child) {
                found = Some(j);
            }
            j = j + 1;
        }
        match found {
            Some(fj) => {
                p_item.children.remove(fj);
                proof {
                    lemma_remove_first_at(chs, child@, fj as int);
                    assert(p_item.children.deep_view() =~= chs.remove(fj as int));
                }
            },
            None => {
                proof {
                    lemma_remove_first_absent(chs, child@);
                }
            },
        }
        self.replace(p_item.clone());
        proof {
            if old(self)@.contains_key(parent@) {
                assert(self@ =~= children_removed_spec(old(self)@, parent@, child@));
            }
        }
        Ok(p_item)
    }

    /// Apply a state-changed notification: ensure the target is present,
    /// set or clear the given state bits, and return the target
    /// post-mutation.
    pub fn handle_state_changed(&mut self, target: &CacheKey, state: u64, enabled: bool) -> (r:
        Result<CacheItem, CacheError>)
        requires
            old(self).wf(),
        ensures
            final(self).wf(),
            old(self)@.contains_key(target@) ==> final(self)@ == state_changed_spec(
                old(self)@,
                target@,
                state,
                enabled,
            ) && (r matches Ok(item) && item@ == final(self)@[target@]),
            r matches Ok(item) ==> final(self)@.contains_key(target@) && item@ == final(self)@[target@] && item@.states == apply_state(item@.states, state, enabled) && item@.wf(),
            r matches Err(_) ==> !old(self)@.contains_key(target@),
    {
        let mut t_item = match self.get_or_create(target) {
            Ok(item) => item,
            Err(e) => {
                return Err(e);
            },
        };
        let ghost st0 = t_item@.states;
        t_item.states = if enabled {
            t_item.states | state
        } else {
            t_item.states & !state
        };
        proof {
            if enabled {
                assert((st0 | state) | state == st0 | state) by (bit_vector);
            } else {
                assert((st0 & !state) & !state == st0 & !state) by (bit_vector);
            }
        }
        self.replace(t_item.clone());
        Ok(t_item)
    }

    /// Apply a text-changed notification: ensure the target is present;
    /// if it has text, splice the replacement in at the clamped offset and
    /// normalize; return the target post-mutation.
    pub fn handle_text_changed(
        &mut self,
        target: &CacheKey,
        offset: usize,
        length: usize,
        inserted: &String,
    ) -> (r: Result<CacheItem, CacheError>)
        requires
            old(self).wf(),
        ensures
            final(self).wf(),
            old(self)@.contains_key(target@) ==> final(self)@ == text_changed_spec(
                old(self)@,
                target@,
                offset as int,
                length as int,
                inserted@,
            ) && (r matches Ok(item) && item@ == final(self)@[target@]),
            r matches Ok(item) ==> final(self)@.contains_key(target@) && item@ == final(self)@[target@] && item@.wf(),
            r matches Err(_) ==> !old(self)@.contains_key(target@),
    {
        let mut t_item = match self.get_or_create(target) {
            Ok(item) => item,
            Err(e) => {
                return Err(e);
            },
        };
        let new_text: Option<String> = match &t_item.text {
            Some(s) => {
                let tlen = s.as_str().unicode_len();
                let start = if offset <= tlen {
                    offset
                } else {
                    tlen
                };
                let end = if length > tlen - start {
                    tlen
                } else {
                    start + length
                };
                let mut out = s.as_str().substring_char(0, start).to_owned();
                out.append(inserted.as_str());
                out.append(s.as_str().substring_char(end, tlen));
                proof {
                    assert(out@ == splice_text(s@, offset as int, length as int, inserted@));
                }
                Some(out)
            },
            None => None,
        };
        match new_text {
            Some(ns) => {
                t_item.text = empty_to_none(Some(ns));
                self.replace(t_item.clone());
            },
            None => {
                self.replace(t_item.clone());
                proof {
                    if old(self)@.contains_key(target@) {
                        assert(self@ =~= text_changed_spec(
                            old(self)@,
                            target@,
                            offset as int,
                            length as int,
                            inserted@,
                        ));
                    }
                }
            },
        }
        Ok(t_item)
    }

    /// Apply a caret-moved notification: no store mutation; the target is
    /// ensured present and returned.
    pub fn handle_caret_moved(&mut self, target: &CacheKey, _position: i32) -> (r: Result<
        CacheItem,
        CacheError,
    >)
        requires
            old(self).wf(),
        ensures
            final(self).wf(),
            old(self)@.contains_key(target@) ==> final(self)@ == old(self)@ && (r matches Ok(item)
                && item@ == old(self)@[target@]),
            r matches Ok(item) ==> final(self)@.contains_key(target@) && item@ == final(self)@[target@] && item@.wf(),
            r matches Err(_) ==> !old(self)@.contains_key(target@),
    {
        self.get_or_create(target)
    }

    /// Apply a property-change notification: ensure the target is present,
    /// update the named field if the cache mirrors it, and return the
    /// target post-mutation.
    pub fn handle_property_changed(&mut self, target: &CacheKey, value: &PropertyValue) -> (r:
        Result<CacheItem, CacheError>)
        requires
            old(self).wf(),
        ensures
            final(self).wf(),
            old(self)@.contains_key(target@) ==> final(self)@ == property_changed_spec(
                old(self)@,
                target@,
                *value,
            ) && (r matches Ok(item) && item@ == final(self)@[target@]),
            r matches Ok(item) ==> final(self)@.contains_key(target@) && item@ == final(self)@[target@] && item@.wf(),
            r matches Err(_) ==> !old(self)@.contains_key(target@),
    {
        let mut t_item = match self.get_or_create(target) {
            Ok(item) => item,
            Err(e) => {
                return Err(e);
            },
        };
        match value {
            PropertyValue::Name(s) => {
                t_item.name = empty_to_none(Some(s.clone()));
            },
            PropertyValue::Description(s) => {
                t_item.description = empty_to_none(Some(s.clone()));
            },
            PropertyValue::Role(role) => {
                t_item.role = *role;
            },
            PropertyValue::Parent(k) => {
                t_item.parent = k.clone();
            },
        }
        self.replace(t_item.clone());
        Ok(t_item)
    }

    /// Apply an upstream cache-remove notification; the removed item is
    /// handed back, or `NotFound` if the key was not cached.
    pub fn handle_remove(&mut self, target: &CacheKey) -> (r: Result<CacheItem, CacheError>)
        requires
            old(self).wf(),
        ensures
            final(self).wf(),
            final(self)@ == old(self)@.remove(target@),
            match r {
                Ok(item) => old(self)@.contains_key(target@) && item@ == old(self)@[target@]
                    && item@.wf(),
                Err(e) => !old(self)@.contains_key(target@) && e is NotFound,
            },
    {
        proof {
            if self@.contains_key(target@) {
                self.lemma_key_agree(target@);
            }
        }
        match self.remove(target) {
            Some(item) => Ok(item),
            None => Err(CacheError::NotFound),
        }
    }

    /// Apply an application-exit notification: drop the application's
    /// whole bucket. The application's cached root item, if any, is handed
    /// back; `NotFound` otherwise.
    pub fn handle_application_exit(&mut self, sender: &String) -> (r: Result<
        CacheItem,
        CacheError,
    >)
        requires
            old(self).wf(),
        ensures
            final(self).wf(),
            final(self)@ == old(self)@.remove_keys(keys_of_sender(sender@)),
            r matches Ok(item) ==> old(self)@.contains_key(app_root_key(sender@)) && item@ == old(self)@[app_root_key(sender@)] && item@.wf(),
            r matches Err(e) ==> !old(self)@.contains_key(app_root_key(sender@)) && e is NotFound,
    {
        let root_key = CacheKey { sender: sender.clone(), id: app_root_id().to_owned() };
        let root = self.get(&root_key);
        proof {
            if self@.contains_key(root_key@) {
                self.lemma_key_agree(root_key@);
            }
        }
        self.remove_app(sender);
        match root {
            Some(item) => Ok(item),
            None => Err(CacheError::NotFound),
        }
    }

    /// Dispatch one upstream notification to its per-kind routine and
    /// return the target item post-mutation. On a state where the targets
    /// are already cached, the per-kind transition applies exactly; see
    /// the per-kind routines for the full contracts.
    pub fn handle_event(&mut self, ev: &CacheEvent) -> (r: Result<CacheItem, CacheError>)
        requires
            old(self).wf(),
        ensures
            final(self).wf(),
            r matches Ok(item) ==> item@.wf(),
            match ev {
                CacheEvent::ChildrenAdded { parent, index, child } => old(self)@.contains_key(
                    parent@,
                ) && old(self)@.contains_key(child@) ==> final(self)@ == children_added_spec(
                    old(self)@,
                    parent@,
                    *index as int,
                    child@,
                ) && (r matches Ok(item) && item@ == final(self)@[parent@]),
                CacheEvent::ChildrenRemoved { parent, child } => old(self)@.contains_key(parent@)
                    ==> final(self)@ == children_removed_spec(old(self)@, parent@, child@) && (
                r matches Ok(item) && item@ == final(self)@[parent@]),
                CacheEvent::StateChanged { target, state, enabled } => old(self)@.contains_key(
                    target@,
                ) ==> final(self)@ == state_changed_spec(old(self)@, target@, *state, *enabled) && (
                r matches Ok(item) && item@ == final(self)@[target@]),
                CacheEvent::TextChanged { target, offset, length, inserted, removed: _ } => old(self)@.contains_key(target@) ==> final(self)@ == text_changed_spec(
                    old(self)@,
                    target@,
                    *offset as int,
                    *length as int,
                    inserted@,
                ) && (r matches Ok(item) && item@ == final(self)@[target@]),
                CacheEvent::TextCaretMoved { target, position: _ } => old(self)@.contains_key(
                    target@,
                ) ==> final(self)@ == old(self)@ && (r matches Ok(item) && item@ == old(self)@[target@]),
                CacheEvent::PropertyChanged { target, value } => old(self)@.contains_key(target@)
                    ==> final(self)@ == property_changed_spec(old(self)@, target@, *value) && (
                r matches Ok(item) && item@ == final(self)@[target@]),
                CacheEvent::Add(descriptor) => old(self)@.contains_key(descriptor.object@) ==>
                    final(self)@ == old(self)@ && (r matches Ok(item) && item@ == old(self)@[descriptor.object@]),
                CacheEvent::LegacyAdd(descriptor) => old(self)@.contains_key(descriptor.object@)
                    ==> final(self)@ == old(self)@ && (r matches Ok(item) && item@ == old(self)@[descriptor.object@]),
                CacheEvent::Remove { target } => final(self)@ == old(self)@.remove(target@) && (
                r matches Ok(item) ==> old(self)@.contains_key(target@) && item@ == old(self)@[target@]),
                CacheEvent::ApplicationExit { sender } => final(self)@ == old(self)@.remove_keys(
                    keys_of_sender(sender@),
                ) && (match r {
                    Ok(item) => old(self)@.contains_key(app_root_key(sender@)) && item@ == old(self)@[app_root_key(sender@)],
                    Err(e) => !old(self)@.contains_key(app_root_key(sender@)) && e is NotFound,
                }),
            },
    {
        match ev {
            CacheEvent::ChildrenAdded { parent, index, child } => self.handle_children_added(
                parent,
                *index,
                child,
            ),
            CacheEvent::ChildrenRemoved { parent, child } => self.handle_children_removed(
                parent,
                child,
            ),
            CacheEvent::StateChanged { target, state, enabled } => self.handle_state_changed(
                target,
                *state,
                *enabled,
            ),
            CacheEvent::TextChanged { target, offset, length, inserted, removed: _ } => self
                .handle_text_changed(target, *offset, *length, inserted),
            CacheEvent::TextCaretMoved { target, position } => self.handle_caret_moved(
                target,
                *position,
            ),
            CacheEvent::PropertyChanged { target, value } => self.handle_property_changed(
                target,
                value,
            ),
            CacheEvent::Add(descriptor) => self.get_or_create_from_descriptor(descriptor),
            CacheEvent::LegacyAdd(descriptor) => self.get_or_create_from_legacy_descriptor(
                descriptor,
            ),
            CacheEvent::Remove { target } => self.handle_remove(target),
            CacheEvent::ApplicationExit { sender } => self.handle_application_exit(sender),
        }
    }
}

} // verus!
