use vstd::prelude::*;

verus! {

/// Identity of one accessible object: the stable unique bus name of the
/// owning application (`sender`) and the object path identifying one
/// accessible within that application (`id`).
#[derive(Debug, PartialEq, Eq, Hash)]
pub struct CacheKey {
    pub sender: String,
    pub id: String,
}

/// Mathematical identity of an accessible: both key components as
/// character sequences.
#[verifier::ext_equal]
pub struct KeyView {
    pub sender: Seq<char>,
    pub id: Seq<char>,
}

impl View for CacheKey {
    type V = KeyView;

    open spec fn view(&self) -> KeyView {
        KeyView { sender: self.sender@, id: self.id@ }
    }
}

impl DeepView for CacheKey {
    type V = KeyView;

    open spec fn deep_view(&self) -> KeyView {
        self@
    }
}

impl Clone for CacheKey {
    fn clone(&self) -> (r: Self)
        ensures
            r == *self,
    {
        CacheKey { sender: self.sender.clone(), id: self.id.clone() }
    }
}

/// Structural equality of two keys: both components must match.
pub fn key_eq(a: &CacheKey, b: &CacheKey) -> (r: bool)
    ensures
        r == (a@ == b@),
{
    a.sender == b.sender && a.id == b.id
}

} // verus!
