use vstd::prelude::*;

use crate::events::CacheEvent;
use crate::protocol::CacheRequest;

verus! {

/// A request that can name the handler group responsible for it.
pub trait Chooser<K> {
    /// The identifier this value routes to.
    spec fn spec_identifier(&self) -> K;

    /// The identifier this value routes to.
    fn identifier(&self) -> (r: K)
        ensures
            r == self.spec_identifier(),
    ;
}

/// A request type whose handler group is known at compile time.
pub trait ChooserStatic<K> {
    /// The identifier this type routes to.
    spec fn spec_identifier() -> K;

    /// The identifier this type routes to.
    fn identifier() -> (r: K)
        ensures
            r == Self::spec_identifier(),
    ;
}

impl Chooser<u32> for CacheRequest {
    open spec fn spec_identifier(&self) -> u32 {
        match self {
            CacheRequest::Item(_) => 0,
            CacheRequest::Parent(_) => 1,
            CacheRequest::Children(_) => 2,
            CacheRequest::Relation(_, _) => 3,
            CacheRequest::EventHandler(_) => 4,
            CacheRequest::AddAll(_) => 5,
        }
    }

    fn identifier(&self) -> (r: u32) {
        match self {
            CacheRequest::Item(_) => 0,
            CacheRequest::Parent(_) => 1,
            CacheRequest::Children(_) => 2,
            CacheRequest::Relation(_, _) => 3,
            CacheRequest::EventHandler(_) => 4,
            CacheRequest::AddAll(_) => 5,
        }
    }
}

impl Chooser<u32> for CacheEvent {
    open spec fn spec_identifier(&self) -> u32 {
        match self {
            CacheEvent::ChildrenAdded { .. } => 0,
            CacheEvent::ChildrenRemoved { .. } => 1,
            CacheEvent::StateChanged { .. } => 2,
            CacheEvent::TextChanged { .. } => 3,
            CacheEvent::TextCaretMoved { .. } => 4,
            CacheEvent::PropertyChanged { .. } => 5,
            CacheEvent::Add(_) => 6,
            CacheEvent::LegacyAdd(_) => 7,
            CacheEvent::Remove { .. } => 8,
            CacheEvent::ApplicationExit { .. } => 9,
        }
    }

    fn identifier(&self) -> (r: u32) {
        match self {
            CacheEvent::ChildrenAdded { .. } => 0,
            CacheEvent::ChildrenRemoved { .. } => 1,
            CacheEvent::StateChanged { .. } => 2,
            CacheEvent::TextChanged { .. } => 3,
            CacheEvent::TextCaretMoved { .. } => 4,
            CacheEvent::PropertyChanged { .. } => 5,
            CacheEvent::Add(_) => 6,
            CacheEvent::LegacyAdd(_) => 7,
            CacheEvent::Remove { .. } => 8,
            CacheEvent::ApplicationExit { .. } => 9,
        }
    }
}

} // verus!
