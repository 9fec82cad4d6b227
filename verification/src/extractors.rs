use vstd::prelude::*;

use core::marker::PhantomData;

use crate::item::CacheItem;
use crate::key::{key_eq, CacheKey};
use crate::roles::spec_is_container_role;
use crate::roles::is_container_role;

verus! {

/// A test applied to a matched cache item before an event route runs;
/// failure short-circuits as a flow-control signal, never a panic.
pub trait Predicate<T> {
    /// What the test checks.
    spec fn spec_test(x: &T) -> bool;

    /// Run the test.
    fn test(x: &T) -> (r: bool)
        ensures
            r == Self::spec_test(x),
    ;
}

/// The context a predicate sees: the cache item matched to the event and
/// the key of the most recently focused accessible, if any.
pub type PredicateContext = (CacheItem, Option<CacheKey>);

/// An upstream event paired with the cache item it concerns.
#[derive(Debug)]
pub struct InnerEvent<E> {
    /// The event itself.
    pub inner: E,
    /// The cache item the event concerns.
    pub item: CacheItem,
}

impl<E> InnerEvent<E> {
    /// Pair an event with its cache item.
    pub fn new(inner: E, item: CacheItem) -> (r: Self)
        ensures
            r.inner == inner,
            r.item == item,
    {
        Self { inner, item }
    }
}

/// An upstream event whose cache item passed the predicate `P`.
#[derive(Debug)]
pub struct EventPredicate<E, P> {
    /// The event itself.
    pub inner: E,
    /// The cache item the event concerns.
    pub item: CacheItem,
    /// Marker tying the passed predicate to the type.
    pub marker: PhantomData<P>,
}

impl<E, P: Predicate<PredicateContext>> EventPredicate<E, P> {
    /// Admit the event if its item passes the predicate; `None` reports
    /// the predicate failure to the caller.
    pub fn from_cache_event(ce: InnerEvent<E>, last_focused: Option<CacheKey>) -> (r: Option<
        EventPredicate<E, P>,
    >)
        ensures
            r is Some <==> P::spec_test(&(ce.item, last_focused)),
            r matches Some(ep) ==> ep.inner == ce.inner && ep.item == ce.item,
    {
        let InnerEvent { inner, item } = ce;
        let ctx = (item, last_focused);
        if P::test(&ctx) {
            let (item, _last_focused) = ctx;
            Some(EventPredicate { inner, item, marker: PhantomData })
        } else {
            None
        }
    }
}

/// Passes only items whose role is not a container role.
#[derive(Debug)]
pub struct NotContainer;

impl Predicate<PredicateContext> for NotContainer {
    open spec fn spec_test(x: &PredicateContext) -> bool {
        !spec_is_container_role(x.0.role)
    }

    fn test(x: &PredicateContext) -> (r: bool) {
        !is_container_role(x.0.role)
    }
}

/// Passes every item.
#[derive(Debug)]
pub struct Always;

impl Predicate<PredicateContext> for Always {
    open spec fn spec_test(x: &PredicateContext) -> bool {
        true
    }

    fn test(x: &PredicateContext) -> (r: bool) {
        true
    }
}

/// Passes only items belonging to the application of the most recently
/// focused accessible.
#[derive(Debug)]
pub struct ActiveApplication;

impl Predicate<PredicateContext> for ActiveApplication {
    open spec fn spec_test(x: &PredicateContext) -> bool {
        match x.1 {
            Some(k) => k@ == x.0.app@,
            None => false,
        }
    }

    fn test(x: &PredicateContext) -> (r: bool) {
        match &x.1 {
            Some(k) => key_eq(k, &x.0.app),
            None => false,
        }
    }
}

} // verus!
