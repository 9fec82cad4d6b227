use vstd::prelude::*;

use crate::cache::add_all_spec;
use crate::item::ItemView;
use crate::key::KeyView;

verus! {

/// Whether some item of the batch has the key `k`.
pub open spec fn batch_has_key(items: Seq<ItemView>, k: KeyView) -> bool {
    exists|i: int| 0 <= i < items.len() && (#[trigger] items[i]).object == k
}

/// Whether position `j` holds the first item of the batch with key `k`.
pub open spec fn is_first_with_key(items: Seq<ItemView>, j: int, k: KeyView) -> bool {
    &&& 0 <= j < items.len()
    &&& items[j].object == k
    &&& forall|i: int| 0 <= i < j ==> (#[trigger] items[i]).object != k
}

/// A bulk insert populates exactly the batch's keys on top of the old
/// domain.
pub proof fn lemma_add_all_contains(m: Map<KeyView, ItemView>, items: Seq<ItemView>, k: KeyView)
    ensures
        add_all_spec(m, items).contains_key(k) == (m.contains_key(k) || batch_has_key(items, k)),
    decreases items.len(),
{
    if items.len() == 0 {
        assert(!batch_has_key(items, k));
    } else {
        let prefix = items.drop_last();
        lemma_add_all_contains(m, prefix, k);
        if batch_has_key(prefix, k) {
            let i = choose|i: int| 0 <= i < prefix.len() && (#[trigger] prefix[i]).object == k;
            assert(items[i].object == k);
            assert(batch_has_key(items, k));
        }
        if items.last().object == k {
            assert(batch_has_key(items, k));
        }
        if batch_has_key(items, k) && !batch_has_key(prefix, k) && items.last().object != k {
            let i = choose|i: int| 0 <= i < items.len() && (#[trigger] items[i]).object == k;
            assert(prefix[i] == items[i]);
            assert(false);
        }
    }
}

/// First-write-wins never overwrites: keys present before a bulk insert
/// keep their value.
pub proof fn lemma_add_all_preserves(m: Map<KeyView, ItemView>, items: Seq<ItemView>, k: KeyView)
    requires
        m.contains_key(k),
    ensures
        add_all_spec(m, items).contains_key(k),
        add_all_spec(m, items)[k] == m[k],
    decreases items.len(),
{
    if items.len() > 0 {
        lemma_add_all_preserves(m, items.drop_last(), k);
    }
}

/// For every bulk insert followed by a lookup of a batch key that was not
/// cached before: the entry equals the batch item at the first position
/// carrying that key — with duplicates in the batch, the first wins.
/// A completed `Item` request on the resulting state answers with exactly
/// this entry.
pub proof fn lemma_add_all_first_wins(
    m: Map<KeyView, ItemView>,
    items: Seq<ItemView>,
    j: int,
    k: KeyView,
)
    requires
        !m.contains_key(k),
        is_first_with_key(items, j, k),
    ensures
        add_all_spec(m, items).contains_key(k),
        add_all_spec(m, items)[k] == items[j],
    decreases items.len(),
{
    let prefix = items.drop_last();
    lemma_add_all_contains(m, prefix, k);
    if j < items.len() - 1 {
        assert(prefix[j] == items[j]);
        assert(is_first_with_key(prefix, j, k));
        lemma_add_all_first_wins(m, prefix, j, k);
    } else {
        // `j` is the last position, so the prefix has no item with key
        // `k` and the final first-write-wins step inserts it.
        if batch_has_key(prefix, k) {
            let i = choose|i: int| 0 <= i < prefix.len() && (#[trigger] prefix[i]).object == k;
            assert(items[i].object == k);
            assert(false);
        }
        assert(!add_all_spec(m, prefix).contains_key(k));
    }
}

/// Inserting a batch whose keys are all present already changes nothing.
proof fn lemma_add_all_absorbed(m: Map<KeyView, ItemView>, items: Seq<ItemView>)
    requires
        forall|i: int| 0 <= i < items.len() ==> m.contains_key((#[trigger] items[i]).object),
    ensures
        add_all_spec(m, items) == m,
    decreases items.len(),
{
    if items.len() > 0 {
        let prefix = items.drop_last();
        assert forall|i: int| 0 <= i < prefix.len() implies m.contains_key(
            (#[trigger] prefix[i]).object,
        ) by {
            assert(prefix[i] == items[i]);
        }
        lemma_add_all_absorbed(m, prefix);
        assert(m.contains_key(items.last().object));
    }
}

/// Idempotence: inserting the same batch twice is the same as inserting
/// it once, on any starting state. A repeated `AddAll` request is
/// therefore a no-op.
pub proof fn lemma_add_all_idempotent(m: Map<KeyView, ItemView>, items: Seq<ItemView>)
    ensures
        add_all_spec(add_all_spec(m, items), items) == add_all_spec(m, items),
{
    let once = add_all_spec(m, items);
    assert forall|i: int| 0 <= i < items.len() implies once.contains_key(
        (#[trigger] items[i]).object,
    ) by {
        lemma_add_all_contains(m, items, items[i].object);
        assert(batch_has_key(items, items[i].object));
    }
    lemma_add_all_absorbed(once, items);
}

} // verus!
