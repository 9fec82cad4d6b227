use vstd::prelude::*;

use crate::key::{CacheKey, KeyView};

verus! {

/// The cached payload for one accessible object.
///
/// Inter-node references are plain [`CacheKey`]s resolved through the store,
/// never owning links, so cyclic trees cannot create cyclic ownership.
/// Role, state flags and interface flags are carried as the numeric tags and
/// bit sets used on the wire.
#[derive(Debug, PartialEq, Eq)]
pub struct CacheItem {
    /// Key of this accessible itself.
    pub object: CacheKey,
    /// Key of the application root for this object.
    pub app: CacheKey,
    /// Key of the parent accessible (possibly a null/root sentinel).
    pub parent: CacheKey,
    /// Zero-based position within the parent's child list, if known.
    pub index: Option<usize>,
    /// Declared child count, if known.
    pub children_num: Option<usize>,
    /// Bit set of exposed interface flags.
    pub interfaces: u32,
    /// Numeric role tag.
    pub role: u32,
    /// Bit set of state flags.
    pub states: u64,
    /// Ordered keys of the children of this accessible.
    pub children: Vec<CacheKey>,
    /// Human-readable short name; never `Some("")`.
    pub name: Option<String>,
    /// Human-readable description; never `Some("")`.
    pub description: Option<String>,
    /// Help text; never `Some("")`.
    pub help_text: Option<String>,
    /// Internal text content; never `Some("")`.
    pub text: Option<String>,
}

/// Mathematical value of a [`CacheItem`]: strings become character
/// sequences, keys become [`KeyView`]s.
#[verifier::ext_equal]
pub struct ItemView {
    pub object: KeyView,
    pub app: KeyView,
    pub parent: KeyView,
    pub index: Option<usize>,
    pub children_num: Option<usize>,
    pub interfaces: u32,
    pub role: u32,
    pub states: u64,
    pub children: Seq<KeyView>,
    pub name: Option<Seq<char>>,
    pub description: Option<Seq<char>>,
    pub help_text: Option<Seq<char>>,
    pub text: Option<Seq<char>>,
}

/// View of an optional string as an optional character sequence.
pub open spec fn opt_view(o: Option<String>) -> Option<Seq<char>> {
    match o {
        Some(s) => Some(s@),
        None => None,
    }
}

impl View for CacheItem {
    type V = ItemView;

    open spec fn view(&self) -> ItemView {
        ItemView {
            object: self.object@,
            app: self.app@,
            parent: self.parent@,
            index: self.index,
            children_num: self.children_num,
            interfaces: self.interfaces,
            role: self.role,
            states: self.states,
            children: self.children.deep_view(),
            name: opt_view(self.name),
            description: opt_view(self.description),
            help_text: opt_view(self.help_text),
            text: opt_view(self.text),
        }
    }
}

impl DeepView for CacheItem {
    type V = ItemView;

    open spec fn deep_view(&self) -> ItemView {
        self@
    }
}

/// Normalize an optional upstream text: the empty string means "absent".
pub open spec fn norm(o: Option<Seq<char>>) -> Option<Seq<char>> {
    match o {
        Some(s) => if s.len() == 0 {
            None
        } else {
            Some(s)
        },
        None => None,
    }
}

/// An optional text is in normal form when it is never the empty string.
pub open spec fn normalized(o: Option<Seq<char>>) -> bool {
    o matches Some(s) ==> s.len() > 0
}

impl ItemView {
    /// Well-formedness: all four text fields are normalized (invariant:
    /// `name`, `description`, `help_text`, `text` are never the empty
    /// string — always either absent or non-empty).
    pub open spec fn wf(self) -> bool {
        &&& normalized(self.name)
        &&& normalized(self.description)
        &&& normalized(self.help_text)
        &&& normalized(self.text)
    }
}

impl Clone for CacheItem {
    fn clone(&self) -> (r: Self)
        ensures
            r@ == self@,
    {
        let r = CacheItem {
            object: self.object.clone(),
            app: self.app.clone(),
            parent: self.parent.clone(),
            index: self.index,
            children_num: self.children_num,
            interfaces: self.interfaces,
            role: self.role,
            states: self.states,
            children: clone_keys(&self.children),
            name: clone_opt_string(&self.name),
            description: clone_opt_string(&self.description),
            help_text: clone_opt_string(&self.help_text),
            text: clone_opt_string(&self.text),
        };
        r
    }
}

/// Clone a vector of keys, preserving its value exactly.
pub fn clone_keys(v: &Vec<CacheKey>) -> (r: Vec<CacheKey>)
    ensures
        r.deep_view() == v.deep_view(),
        r@.len() == v@.len(),
        forall|i: int| 0 <= i < v@.len() ==> r@[i] == v@[i],
{
    let mut r: Vec<CacheKey> = Vec::new();
    let mut i: usize = 0;
    while i < v.len()
        invariant
            i <= v@.len(),
            r@.len() == i,
            forall|j: int| 0 <= j < i ==> r@[j] == v@[j],
        decreases v@.len() - i,
    {
        r.push(v[i].clone());
        i = i + 1;
    }
    proof {
        assert(r.deep_view() =~= v.deep_view());
    }
    r
}

/// Clone an optional string, preserving its value exactly.
pub fn clone_opt_string(o: &Option<String>) -> (r: Option<String>)
    ensures
        r == *o,
{
    match o {
        Some(s) => Some(s.clone()),
        None => None,
    }
}

/// Normalize an optional upstream text value: `Some("")` becomes `None`.
pub fn empty_to_none(o: Option<String>) -> (r: Option<String>)
    ensures
        opt_view(r) == norm(opt_view(o)),
        normalized(opt_view(r)),
{
    match o {
        Some(s) => {
            if s.as_str().unicode_len() == 0 {
                None
            } else {
                Some(s)
            }
        },
        None => None,
    }
}

impl CacheItem {
    /// Assemble an item from raw field values fetched upstream, applying the
    /// empty-string normalization rule to all four text fields. Every driver
    /// adapter builds its items through this constructor, so the rule is
    /// applied uniformly at ingest.
    #[allow(clippy::too_many_arguments)]
    pub fn assemble(
        object: CacheKey,
        app: CacheKey,
        parent: CacheKey,
        index: Option<usize>,
        children_num: Option<usize>,
        interfaces: u32,
        role: u32,
        states: u64,
        children: Vec<CacheKey>,
        name: Option<String>,
        description: Option<String>,
        help_text: Option<String>,
        text: Option<String>,
    ) -> (r: CacheItem)
        ensures
            r@ == (ItemView {
                object: object@,
                app: app@,
                parent: parent@,
                index: index,
                children_num: children_num,
                interfaces: interfaces,
                role: role,
                states: states,
                children: children.deep_view(),
                name: norm(opt_view(name)),
                description: norm(opt_view(description)),
                help_text: norm(opt_view(help_text)),
                text: norm(opt_view(text)),
            }),
            r@.wf(),
    {
        CacheItem {
            object,
            app,
            parent,
            index,
            children_num,
            interfaces,
            role,
            states,
            children,
            name: empty_to_none(name),
            description: empty_to_none(description),
            help_text: empty_to_none(help_text),
            text: empty_to_none(text),
        }
    }
}

} // verus!
