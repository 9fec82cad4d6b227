use vstd::prelude::*;
use vstd::seq_lib::*;
use vstd::set_lib::lemma_len_subset;

use crate::cache::Cache;
use crate::driver::CacheDriver;
use crate::error::CacheError;
use crate::item::{CacheItem, ItemView};
use crate::key::{key_eq, CacheKey, KeyView};
use crate::protocol::{CacheRequest, CacheResponse};

verus! {

/// The subtree rooted at one accessible: an ordered mapping from key to
/// item in visit order, the root first, each key at most once. Cycles in
/// corrupt trees are broken by skipping a child whose key was already
/// taken, so the traversal terminates on cyclic data.
pub struct Subtree(pub Vec<CacheItem>);

/// Whether some collected item has the key `k`.
pub open spec fn collected(items: Seq<CacheItem>, k: KeyView) -> bool {
    exists|i: int| 0 <= i < items.len() && (#[trigger] items[i])@.object == k
}

/// The child keys that the state `m` records for the `i`-th collected
/// item.
pub open spec fn kept_children(m: Map<KeyView, ItemView>, items: Seq<CacheItem>, i: int) -> Seq<
    KeyView,
> {
    m[items[i]@.object].children
}

/// Whether `k` is among the recorded children of some collected item.
pub open spec fn listed_child(m: Map<KeyView, ItemView>, items: Seq<CacheItem>, k: KeyView) -> bool {
    exists|i: int, j: int|
        0 <= i < items.len() && m.contains_key(items[i]@.object) && 0 <= j < kept_children(
            m,
            items,
            i,
        ).len() && #[trigger] kept_children(m, items, i)[j] == k
}

/// Whether `it` carries the same value as one of the first `n` resolved
/// child items.
pub open spec fn among(chs: Seq<CacheItem>, n: int, it: CacheItem) -> bool {
    exists|w: int| 0 <= w < n && #[trigger] chs[w]@ == it@
}

/// A key set closed under the recorded child relation: every key of the
/// set is cached and all its recorded children are in the set too.
pub open spec fn closed_in(m: Map<KeyView, ItemView>, s: Set<KeyView>) -> bool {
    forall|k: KeyView|
        #[trigger] s.contains(k) ==> m.contains_key(k) && (forall|j: int|
            0 <= j < m[k].children.len() ==> s.contains(#[trigger] m[k].children[j]))
}

/// A sequence of pairwise distinct keys drawn from a finite set cannot
/// outgrow the set.
proof fn lemma_distinct_keys_bound(ks: Seq<KeyView>, s: Set<KeyView>)
    requires
        ks.no_duplicates(),
        s.finite(),
        forall|i: int| 0 <= i < ks.len() ==> s.contains(#[trigger] ks[i]),
    ensures
        ks.len() <= s.len(),
{
    ks.unique_seq_to_set();
    assert(ks.to_set().subset_of(s));
    lemma_len_subset(ks.to_set(), s);
}

/// Search a list of items for an object key.
fn holds_key(items: &Vec<CacheItem>, key: &CacheKey) -> (r: bool)
    ensures
        r == collected(items@, key@),
{
    let mut i: usize = 0;
    while i < items.len()
        invariant
            i <= items@.len(),
            forall|j: int| 0 <= j < i ==> (#[trigger] items@[j])@.object != key@,
        decreases items@.len() - i,
    {
        if key_eq(&items[i].object, key) {
            return true;
        }
        i = i + 1;
    }
    false
}

impl<D: CacheDriver> Cache<D> {
    /// Collect the subtree rooted at `root`, depth-first, one `Children`
    /// request per visited node. Every key appears at most once in the
    /// result, also on a cyclic (corrupt) tree: a child whose key was
    /// already taken is skipped, which breaks the cycle. The root item
    /// itself comes first; every other entry is a recorded child of some
    /// entry and holds the cached item for its key; and the result is
    /// closed, every recorded child of every entry being collected.
    /// Whenever the root's key belongs to a finite child-closed set of
    /// cached keys, the traversal is owed success: it touches no driver.
    pub fn subtree(&mut self, root: &CacheItem) -> (r: Result<Subtree, CacheError>)
        requires
            old(self).wf(),
        ensures
            final(self).wf(),
            forall|k: KeyView|
                #[trigger] old(self)@.contains_key(k) ==> final(self)@.contains_key(k) && final(self)@[k] == old(self)@[k],
            r matches Ok(sub) ==> {
                &&& sub.0@.len() >= 1
                &&& sub.0@[0]@ == root@
                &&& forall|i: int, j: int|
                    #![trigger sub.0@[i], sub.0@[j]]
                    0 <= i < sub.0@.len() && 0 <= j < sub.0@.len() && i != j ==> sub.0@[i]@.object
                        != sub.0@[j]@.object
                &&& forall|i: int|
                    0 <= i < sub.0@.len() ==> final(self)@.contains_key(
                        (#[trigger] sub.0@[i])@.object,
                    ) && (i >= 1 ==> sub.0@[i]@ == final(self)@[sub.0@[i]@.object])
                &&& forall|i: int, j: int|
                    0 <= i < sub.0@.len() && 0 <= j < kept_children(final(self)@, sub.0@, i).len()
                        ==> collected(sub.0@, #[trigger] kept_children(final(self)@, sub.0@, i)[j])
                &&& forall|i: int|
                    1 <= i < sub.0@.len() ==> listed_child(
                        final(self)@,
                        sub.0@,
                        (#[trigger] sub.0@[i])@.object,
                    )
            },
            forall|s: Set<KeyView>|
                (#[trigger] closed_in(old(self)@, s)) && s.finite() && s.len() < usize::MAX
                    && s.contains(root@.object) ==> r is Ok,
    {
        let mut out: Vec<CacheItem> = Vec::new();
        let mut stack: Vec<CacheItem> = Vec::new();
        stack.push(root.clone());
        let mut fuel: usize = usize::MAX;
        proof {
            assert(stack@[0]@ == root@);
        }
        while stack.len() > 0 && fuel > 0
            invariant
                self.wf(),
                forall|k: KeyView|
                    #[trigger] old(self)@.contains_key(k) ==> self@.contains_key(k) && self@[k]
                        == old(self)@[k],
                forall|i: int, j: int|
                    #![trigger out@[i], out@[j]]
                    0 <= i < out@.len() && 0 <= j < out@.len() && i != j ==> out@[i]@.object
                        != out@[j]@.object,
                out@.len() == 0 ==> stack@.len() == 1 && stack@[0]@ == root@,
                out@.len() > 0 ==> out@[0]@ == root@,
                forall|i: int|
                    0 <= i < out@.len() ==> self@.contains_key((#[trigger] out@[i])@.object) && (i
                        >= 1 ==> out@[i]@ == self@[out@[i]@.object]),
                forall|i: int, j: int|
                    0 <= i < out@.len() && 0 <= j < kept_children(self@, out@, i).len() ==>
                        collected(out@, #[trigger] kept_children(self@, out@, i)[j]) || collected(
                        stack@,
                        kept_children(self@, out@, i)[j],
                    ),
                forall|i: int|
                    1 <= i < out@.len() ==> listed_child(
                        self@,
                        out@,
                        (#[trigger] out@[i])@.object,
                    ),
                forall|i: int|
                    0 <= i < stack@.len() ==> ((out@.len() == 0 && (
                    #[trigger] stack@[i])@.object == root@.object) || (listed_child(
                        self@,
                        out@,
                        stack@[i]@.object,
                    ) && self@.contains_key(stack@[i]@.object) && stack@[i]@
                        == self@[stack@[i]@.object])),
                forall|i: int, j: int|
                    #![trigger stack@[i], stack@[j]]
                    0 <= i < stack@.len() && 0 <= j < stack@.len() && i != j ==> stack@[i]@.object
                        != stack@[j]@.object,
                forall|i: int, j: int|
                    #![trigger stack@[i], out@[j]]
                    0 <= i < stack@.len() && 0 <= j < out@.len() ==> stack@[i]@.object
                        != out@[j]@.object,
                fuel == usize::MAX - out@.len(),
                forall|s: Set<KeyView>|
                    (#[trigger] closed_in(old(self)@, s)) && s.finite() && s.contains(root@.object)
                        ==> (forall|i: int|
                        0 <= i < out@.len() ==> s.contains((#[trigger] out@[i])@.object)) && (
                    forall|i: int|
                        0 <= i < stack@.len() ==> s.contains((#[trigger] stack@[i])@.object)),
            decreases fuel,
        {
            let ghost pre_self = *self;
            let ghost pre_out = out@;
            let ghost pre_stack = stack@;
            fuel = fuel - 1;
            let item = match stack.pop() {
                Some(it) => it,
                None => unreached(),
            };
            let ghost gitem = item;
            let kq = item.object.clone();
            out.push(item);
            let ghost mid_out = out@;
            let ghost mid_stack = stack@;
            proof {
                assert(mid_out == pre_out.push(gitem));
                assert(mid_stack == pre_stack.drop_last());
                assert(pre_stack[pre_stack.len() - 1] == gitem);
                assert(kq@ == gitem@.object);
            }
            let resp = match self.request(CacheRequest::Children(kq)) {
                Ok(resp) => resp,
                Err(e) => {
                    proof {
                        assert forall|s: Set<KeyView>|
                            !((#[trigger] closed_in(old(self)@, s)) && s.finite() && s.len()
                                < usize::MAX && s.contains(root@.object)) by {
                            if closed_in(old(self)@, s) && s.finite() && s.contains(root@.object) {
                                assert(s.contains(pre_stack[pre_stack.len() - 1]@.object));
                                assert(s.contains(gitem@.object));
                                assert(old(self)@.contains_key(gitem@.object));
                                assert(pre_self@.contains_key(gitem@.object));
                                assert(pre_self@[gitem@.object] == old(self)@[gitem@.object]);
                                assert forall|j: int|
                                    0 <= j < pre_self@[gitem@.object].children.len() implies pre_self@.contains_key(
                                    #[trigger] pre_self@[gitem@.object].children[j],
                                ) by {
                                    assert(s.contains(old(self)@[gitem@.object].children[j]));
                                }
                            }
                        }
                    }
                    return Err(e);
                },
            };
            let chs = match resp {
                CacheResponse::Children(chs) => chs,
                _ => {
                    return Err(CacheError::InvalidResponse);
                },
            };
            let ghost post_self = *self;
            let mut ci: usize = 0;
            while ci < chs.len()
                invariant
                    ci <= chs@.len(),
                    *self == post_self,
                    self.wf(),
                    out@ == mid_out,
                    self@.contains_key(gitem@.object),
                    chs@.len() == self@[gitem@.object].children.len(),
                    forall|j: int|
                        0 <= j < chs@.len() ==> (#[trigger] chs@[j])@.object
                            == self@[gitem@.object].children[j] && self@.contains_key(
                            chs@[j]@.object,
                        ) && chs@[j]@ == self@[chs@[j]@.object],
                    mid_stack.is_prefix_of(stack@),
                    forall|i: int|
                        mid_stack.len() <= i < stack@.len() ==> among(
                            chs@,
                            ci as int,
                            #[trigger] stack@[i],
                        ),
                    forall|j: int|
                        0 <= j < ci ==> collected(out@, (#[trigger] chs@[j])@.object) || collected(
                            stack@,
                            chs@[j]@.object,
                        ),
                    forall|i: int, j: int|
                        #![trigger stack@[i], stack@[j]]
                        0 <= i < stack@.len() && 0 <= j < stack@.len() && i != j ==> stack@[i]@.object
                            != stack@[j]@.object,
                    forall|i: int, j: int|
                        #![trigger stack@[i], out@[j]]
                        0 <= i < stack@.len() && 0 <= j < out@.len() ==> stack@[i]@.object
                            != out@[j]@.object,
                decreases chs@.len() - ci,
            {
                let ghost loop_stack = stack@;
                if !holds_key(&out, &chs[ci].object) && !holds_key(&stack, &chs[ci].object) {
                    stack.push(chs[ci].clone());
                    proof {
                        assert(stack@[stack@.len() - 1]@ == chs@[ci as int]@);
                        assert(collected(stack@, chs@[ci as int]@.object));
                        assert forall|i: int|
                            mid_stack.len() <= i < stack@.len() implies among(
                            chs@,
                            ci as int + 1,
                            #[trigger] stack@[i],
                        ) by {
                            if i < stack@.len() - 1 {
                                assert(stack@[i] == loop_stack[i]);
                                assert(among(chs@, ci as int, loop_stack[i]));
                                let w = choose|w: int|
                                    0 <= w < ci && #[trigger] chs@[w]@ == loop_stack[i]@;
                                assert(chs@[w]@ == stack@[i]@);
                            } else {
                                assert(chs@[ci as int]@ == stack@[i]@);
                            }
                        }
                        assert forall|j: int|
                            0 <= j < ci + 1 implies collected(
                            out@,
                            (#[trigger] chs@[j])@.object,
                        ) || collected(stack@, chs@[j]@.object) by {
                            if j < ci {
                                if collected(out@, chs@[j]@.object) {
                                } else {
                                    let w = choose|w: int|
                                        0 <= w < loop_stack.len() && (
                                        #[trigger] loop_stack[w])@.object == chs@[j]@.object;
                                    assert(stack@[w]@.object == chs@[j]@.object);
                                    assert(collected(stack@, chs@[j]@.object));
                                }
                            }
                        }
                    }
                } else {
                    proof {
                        assert(collected(out@, chs@[ci as int]@.object) || collected(
                            stack@,
                            chs@[ci as int]@.object,
                        ));
                    }
                }
                ci = ci + 1;
            }
            proof {
                assert forall|i: int|
                    pre_stack.len() - 1 <= i < stack@.len() implies among(
                    chs@,
                    chs@.len() as int,
                    #[trigger] stack@[i],
                ) by {
                    assert(mid_stack.len() == pre_stack.len() - 1);
                    assert(among(chs@, ci as int, stack@[i]));
                    let w = choose|w: int| 0 <= w < ci && #[trigger] chs@[w]@ == stack@[i]@;
                    assert(w < chs@.len());
                    assert(chs@[w]@ == stack@[i]@);
                }
                lemma_subtree_step(
                    *old(self),
                    pre_self,
                    post_self,
                    root,
                    pre_out,
                    pre_stack,
                    out@,
                    stack@,
                    gitem,
                    chs@,
                );
            }
        }
        if stack.len() > 0 {
            // The visit cap was hit: the data reachable from the root has
            // outgrown any plausible tree, so report it as corrupt.
            proof {
                assert forall|s: Set<KeyView>|
                    !((#[trigger] closed_in(old(self)@, s)) && s.finite() && s.len() < usize::MAX
                        && s.contains(root@.object)) by {
                    if closed_in(old(self)@, s) && s.finite() && s.len() < usize::MAX && s.contains(
                        root@.object,
                    ) {
                        let ks = Seq::new(out@.len(), |i: int| out@[i]@.object);
                        assert forall|i: int, j: int|
                            0 <= i < ks.len() && 0 <= j < ks.len() && i != j implies #[trigger] ks[i]
                            != #[trigger] ks[j] by {
                            assert(out@[i]@.object != out@[j]@.object);
                        }
                        assert(ks.no_duplicates());
                        assert forall|i: int| 0 <= i < ks.len() implies s.contains(
                            #[trigger] ks[i],
                        ) by {
                            assert(s.contains(out@[i]@.object));
                        }
                        lemma_distinct_keys_bound(ks, s);
                    }
                }
            }
            return Err(
                CacheError::DriverError("the subtree outgrew the visit cap; data is corrupt".to_owned()),
            );
        }
        Ok(Subtree(out))
    }
}

/// One traversal step keeps the result well formed: the popped item joins
/// the result, every recorded child of every entry sits in the result or
/// on the stack, and non-root entries are recorded children tied to their
/// cached values.
#[verifier::rlimit(100)]
#[verifier::spinoff_prover]
proof fn lemma_subtree_step<D: CacheDriver>(
    orig: Cache<D>,
    pre: Cache<D>,
    post: Cache<D>,
    root: &CacheItem,
    pre_out: Seq<CacheItem>,
    pre_stack: Seq<CacheItem>,
    out: Seq<CacheItem>,
    stack: Seq<CacheItem>,
    item: CacheItem,
    chs: Seq<CacheItem>,
)
    requires
        pre.wf(),
        post.wf(),
        forall|k: KeyView|
            #[trigger] orig@.contains_key(k) ==> pre@.contains_key(k) && pre@[k] == orig@[k],
        forall|k: KeyView|
            #[trigger] pre@.contains_key(k) ==> post@.contains_key(k) && post@[k] == pre@[k],
        forall|i: int, j: int|
            #![trigger pre_out[i], pre_out[j]]
            0 <= i < pre_out.len() && 0 <= j < pre_out.len() && i != j ==> pre_out[i]@.object
                != pre_out[j]@.object,
        pre_out.len() == 0 ==> pre_stack.len() == 1 && pre_stack[0]@ == root@,
        pre_out.len() > 0 ==> pre_out[0]@ == root@,
        forall|i: int|
            0 <= i < pre_out.len() ==> pre@.contains_key((#[trigger] pre_out[i])@.object) && (i >= 1
                ==> pre_out[i]@ == pre@[pre_out[i]@.object]),
        forall|i: int, j: int|
            0 <= i < pre_out.len() && 0 <= j < kept_children(pre@, pre_out, i).len() ==> collected(
                pre_out,
                #[trigger] kept_children(pre@, pre_out, i)[j],
            ) || collected(pre_stack, kept_children(pre@, pre_out, i)[j]),
        forall|i: int|
            1 <= i < pre_out.len() ==> listed_child(pre@, pre_out, (#[trigger] pre_out[i])@.object),
        forall|i: int|
            0 <= i < pre_stack.len() ==> ((pre_out.len() == 0 && (#[trigger] pre_stack[i])@.object
                == root@.object) || (listed_child(pre@, pre_out, pre_stack[i]@.object)
                && pre@.contains_key(pre_stack[i]@.object) && pre_stack[i]@
                == pre@[pre_stack[i]@.object])),
        forall|i: int, j: int|
            #![trigger pre_stack[i], pre_stack[j]]
            0 <= i < pre_stack.len() && 0 <= j < pre_stack.len() && i != j ==> pre_stack[i]@.object
                != pre_stack[j]@.object,
        forall|i: int, j: int|
            #![trigger pre_stack[i], pre_out[j]]
            0 <= i < pre_stack.len() && 0 <= j < pre_out.len() ==> pre_stack[i]@.object
                != pre_out[j]@.object,
        pre_stack.len() > 0,
        pre_stack[pre_stack.len() - 1] == item,
        out == pre_out.push(item),
        post@.contains_key(item@.object),
        chs.len() == post@[item@.object].children.len(),
        forall|j: int|
            0 <= j < chs.len() ==> (#[trigger] chs[j])@.object == post@[item@.object].children[j]
                && post@.contains_key(chs[j]@.object) && chs[j]@ == post@[chs[j]@.object],
        pre_stack.drop_last().is_prefix_of(stack),
        forall|i: int|
            pre_stack.len() - 1 <= i < stack.len() ==> among(
                chs,
                chs.len() as int,
                #[trigger] stack[i],
            ),
        forall|j: int|
            0 <= j < chs.len() ==> collected(out, (#[trigger] chs[j])@.object) || collected(
                stack,
                chs[j]@.object,
            ),
        forall|i: int, j: int|
            #![trigger stack[i], stack[j]]
            0 <= i < stack.len() && 0 <= j < stack.len() && i != j ==> stack[i]@.object
                != stack[j]@.object,
        forall|i: int, j: int|
            #![trigger stack[i], out[j]]
            0 <= i < stack.len() && 0 <= j < out.len() ==> stack[i]@.object != out[j]@.object,
    ensures
        forall|i: int, j: int|
            #![trigger out[i], out[j]]
            0 <= i < out.len() && 0 <= j < out.len() && i != j ==> out[i]@.object != out[j]@.object,
        out.len() > 0 && out[0]@ == root@,
        forall|i: int|
            0 <= i < out.len() ==> post@.contains_key((#[trigger] out[i])@.object) && (i >= 1 ==>
                out[i]@ == post@[out[i]@.object]),
        forall|i: int, j: int|
            0 <= i < out.len() && 0 <= j < kept_children(post@, out, i).len() ==> collected(
                out,
                #[trigger] kept_children(post@, out, i)[j],
            ) || collected(stack, kept_children(post@, out, i)[j]),
        forall|i: int|
            1 <= i < out.len() ==> listed_child(post@, out, (#[trigger] out[i])@.object),
        forall|i: int|
            0 <= i < stack.len() ==> ((out.len() == 0 && (#[trigger] stack[i])@.object
                == root@.object) || (listed_child(post@, out, stack[i]@.object)
                && post@.contains_key(stack[i]@.object) && stack[i]@ == post@[stack[i]@.object])),
        forall|s: Set<KeyView>|
            ((#[trigger] closed_in(orig@, s)) && s.finite() && s.contains(root@.object) && (
            forall|i: int|
                0 <= i < pre_out.len() ==> s.contains((#[trigger] pre_out[i])@.object)) && (
            forall|i: int|
                0 <= i < pre_stack.len() ==> s.contains((#[trigger] pre_stack[i])@.object)))
                ==> (forall|i: int| 0 <= i < out.len() ==> s.contains((#[trigger] out[i])@.object))
                && (forall|i: int|
                0 <= i < stack.len() ==> s.contains((#[trigger] stack[i])@.object)),
{
    let k = item@.object;
    let newi = pre_out.len() as int;
    let plen = pre_stack.len() as int;
    assert(pre_stack.drop_last() == stack.subrange(0, plen - 1));
    assert forall|i: int| 0 <= i < plen - 1 implies stack[i] == pre_stack[i] by {
        assert(stack.subrange(0, plen - 1)[i] == stack[i]);
        assert(pre_stack.drop_last()[i] == pre_stack[i]);
    }
    // Uniqueness of the grown result: the popped key was on the stack,
    // disjoint from everything already collected.
    assert forall|i: int, j: int|
        #![trigger out[i], out[j]]
        0 <= i < out.len() && 0 <= j < out.len() && i != j implies out[i]@.object
        != out[j]@.object by {
        if i < newi && j < newi {
            assert(pre_out[i]@.object != pre_out[j]@.object);
        } else if i == newi {
            assert(pre_stack[plen - 1]@.object != pre_out[j]@.object);
        } else {
            assert(pre_stack[plen - 1]@.object != pre_out[i]@.object);
        }
    }
    if pre_out.len() == 0 {
        assert(item == pre_stack[0]);
        assert(out[0]@ == root@);
    }
    // Every collected entry is cached, non-root entries at their cached
    // value.
    assert forall|i: int|
        0 <= i < out.len() implies post@.contains_key((#[trigger] out[i])@.object) && (i >= 1 ==>
        out[i]@ == post@[out[i]@.object]) by {
        if i < newi {
            assert(pre@.contains_key(pre_out[i]@.object));
        } else {
            if newi >= 1 {
                assert(pre_stack[plen - 1]@ == pre@[pre_stack[plen - 1]@.object]);
            }
        }
    }
    // Closure: recorded children of every collected entry sit in the
    // result or on the stack.
    assert forall|i: int, j: int|
        0 <= i < out.len() && 0 <= j < kept_children(post@, out, i).len() implies collected(
        out,
        #[trigger] kept_children(post@, out, i)[j],
    ) || collected(stack, kept_children(post@, out, i)[j]) by {
        if i < newi {
            assert(pre@.contains_key(pre_out[i]@.object));
            assert(post@[out[i]@.object] == pre@[pre_out[i]@.object]);
            assert(kept_children(post@, out, i) == kept_children(pre@, pre_out, i));
            let c = kept_children(pre@, pre_out, i)[j];
            if collected(pre_out, c) {
                let w = choose|w: int| 0 <= w < pre_out.len() && (#[trigger] pre_out[w])@.object == c;
                assert(out[w]@.object == c);
                assert(collected(out, c));
            } else {
                assert(collected(pre_stack, c));
                let w = choose|w: int|
                    0 <= w < pre_stack.len() && (#[trigger] pre_stack[w])@.object == c;
                if w == plen - 1 {
                    assert(out[newi]@.object == c);
                    assert(collected(out, c));
                } else {
                    assert(stack[w] == pre_stack[w]);
                    assert(collected(stack, c));
                }
            }
        } else {
            assert(kept_children(post@, out, i) == post@[k].children);
            assert(chs[j]@.object == post@[k].children[j]);
            if collected(out, chs[j]@.object) {
            } else {
                assert(collected(stack, chs[j]@.object));
            }
        }
    }
    // Provenance: every non-root entry is a recorded child of an entry.
    assert forall|i: int|
        1 <= i < out.len() implies listed_child(post@, out, (#[trigger] out[i])@.object) by {
        if i < newi {
            let (wi, wj) = choose|wi: int, wj: int|
                0 <= wi < pre_out.len() && pre@.contains_key(pre_out[wi]@.object) && 0 <= wj
                    < kept_children(pre@, pre_out, wi).len() && #[trigger] kept_children(
                    pre@,
                    pre_out,
                    wi,
                )[wj] == out[i]@.object;
            assert(post@[out[wi]@.object] == pre@[pre_out[wi]@.object]);
            assert(kept_children(post@, out, wi)[wj] == out[i]@.object);
        } else {
            // The new entry came off a stack beside a non-empty result,
            // so it was recorded as a child of an earlier entry.
            let (wi, wj) = choose|wi: int, wj: int|
                0 <= wi < pre_out.len() && pre@.contains_key(pre_out[wi]@.object) && 0 <= wj
                    < kept_children(pre@, pre_out, wi).len() && #[trigger] kept_children(
                    pre@,
                    pre_out,
                    wi,
                )[wj] == item@.object;
            assert(post@[out[wi]@.object] == pre@[pre_out[wi]@.object]);
            assert(kept_children(post@, out, wi)[wj] == out[i]@.object);
        }
    }
    // Remaining stack entries are recorded children of collected entries,
    // cached, and carry their cached value.
    assert forall|i: int|
        0 <= i < stack.len() implies ((out.len() == 0 && (#[trigger] stack[i])@.object
        == root@.object) || (listed_child(post@, out, stack[i]@.object) && post@.contains_key(
        stack[i]@.object,
    ) && stack[i]@ == post@[stack[i]@.object])) by {
        if i < plen - 1 {
            assert(stack[i] == pre_stack[i]);
            assert(listed_child(pre@, pre_out, pre_stack[i]@.object) || (pre_out.len() == 0
                && pre_stack.len() == 1));
            let (wi, wj) = choose|wi: int, wj: int|
                0 <= wi < pre_out.len() && pre@.contains_key(pre_out[wi]@.object) && 0 <= wj
                    < kept_children(pre@, pre_out, wi).len() && #[trigger] kept_children(
                    pre@,
                    pre_out,
                    wi,
                )[wj] == stack[i]@.object;
            assert(post@[out[wi]@.object] == pre@[pre_out[wi]@.object]);
            assert(kept_children(post@, out, wi)[wj] == stack[i]@.object);
        } else {
            // A freshly pushed child of the new entry.
            let w = choose|w: int| 0 <= w < chs.len() && #[trigger] chs[w]@ == stack[i]@;
            assert(kept_children(post@, out, newi)[w] == stack[i]@.object);
            assert(post@.contains_key(out[newi]@.object));
            assert(stack[i]@ == post@[stack[i]@.object]);
        }
    }
    // Any child-closed set around the traversal keeps containing every
    // collected and every pending key.
    assert forall|s: Set<KeyView>|
        ((#[trigger] closed_in(orig@, s)) && s.finite() && s.contains(root@.object) && (
        forall|i: int| 0 <= i < pre_out.len() ==> s.contains((#[trigger] pre_out[i])@.object)) && (
        forall|i: int|
            0 <= i < pre_stack.len() ==> s.contains(
                (#[trigger] pre_stack[i])@.object,
            ))) implies (forall|i: int|
        0 <= i < out.len() ==> s.contains((#[trigger] out[i])@.object)) && (forall|i: int|
        0 <= i < stack.len() ==> s.contains((#[trigger] stack[i])@.object)) by {
        assert(s.contains(pre_stack[plen - 1]@.object));
        assert(s.contains(item@.object));
        assert forall|i: int| 0 <= i < out.len() implies s.contains(
            (#[trigger] out[i])@.object,
        ) by {
            if i < newi {
                assert(s.contains(pre_out[i]@.object));
            }
        }
        assert(orig@.contains_key(k));
        assert(post@[k] == orig@[k]);
        assert forall|i: int| 0 <= i < stack.len() implies s.contains(
            (#[trigger] stack[i])@.object,
        ) by {
            if i < plen - 1 {
                assert(stack[i] == pre_stack[i]);
                assert(s.contains(pre_stack[i]@.object));
            } else {
                let w = choose|w: int| 0 <= w < chs.len() && #[trigger] chs[w]@ == stack[i]@;
                assert(chs[w]@.object == orig@[k].children[w]);
                assert(s.contains(orig@[k].children[w]));
            }
        }
    }
}

} // verus!
