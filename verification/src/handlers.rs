use vstd::prelude::*;
use vstd::string::{StrSliceExecFns, StringExecFns};

use crate::item::{CacheItem, ItemView};
use crate::key::{key_eq, CacheKey};
use crate::roles::{role_name, spec_role_name, ROLE_LIST_ITEM};
use crate::subtree::Subtree;

verus! {

/// The priority a speech request is queued with.
#[derive(Clone, Copy, Debug, PartialEq, Eq, Structural)]
pub enum Priority {
    Progress,
    Notification,
    Message,
    Text,
    Important,
}

/// One command produced by an event handler for downstream consumers.
#[derive(Clone, Debug)]
pub enum OdiliaCommand {
    /// Speak an utterance at the given priority.
    Speak(String, Priority),
    /// Move the reading focus to the given accessible.
    Focus(CacheKey),
    /// Record a state-bit change of the given accessible.
    SetState { target: CacheKey, state: u64, enabled: bool },
    /// Record the new caret position.
    CaretPos(usize),
}

/// The fixed announcement for a finished document load.
pub fn doc_loaded() -> (r: (Priority, String))
    ensures
        r.0 == Priority::Text,
        r.1@ == "Doc loaded"@,
{
    (Priority::Text, "Doc loaded".to_owned())
}

/// Translate a state-changed notification into the command recording it.
pub fn state_set(target: &CacheKey, state: u64, enabled: bool) -> (r: OdiliaCommand)
    ensures
        r matches OdiliaCommand::SetState { target: t, state: st, enabled: en } && t@ == target@
            && st == state && en == enabled,
{
    OdiliaCommand::SetState { target: target.clone(), state, enabled }
}

/// Translate a caret move into the commands updating the recorded caret
/// position and focus. The position reported upstream must not be
/// negative.
pub fn caret_moved_update_state(target: &CacheKey, position: i32) -> (r: Vec<OdiliaCommand>)
    requires
        position >= 0,
    ensures
        r@.len() == 2,
        r@[0] matches OdiliaCommand::CaretPos(p) && p == position as usize,
        r@[1] matches OdiliaCommand::Focus(k) && k@ == target@,
{
    let mut out: Vec<OdiliaCommand> = Vec::new();
    out.push(OdiliaCommand::CaretPos(position as usize));
    out.push(OdiliaCommand::Focus(target.clone()));
    out
}

/// The text spoken for a caret move within the focused item: the span of
/// characters between the old and the new caret position, clamped to the
/// text.
pub open spec fn caret_span(text: Seq<char>, a: int, b: int) -> Seq<char> {
    let lo = if a <= b {
        a
    } else {
        b
    };
    let hi = if a <= b {
        b
    } else {
        a
    };
    let lo2 = if lo <= text.len() {
        lo
    } else {
        text.len() as int
    };
    let hi2 = if hi <= text.len() {
        hi
    } else {
        text.len() as int
    };
    text.subrange(lo2, hi2)
}

/// Decide what a caret move makes the reader say: inside the item focused
/// last, the span between the previous and the new position, unless it is
/// empty; on a newly focused item, its whole text; nothing for items
/// without text. The position reported upstream must not be negative.
pub fn caret_moved(item: &CacheItem, position: i32, last_pos: usize, last_focus: &CacheKey) -> (r:
    Option<OdiliaCommand>)
    requires
        position >= 0,
    ensures
        match r {
            Some(cmd) => {
                &&& item@.text matches Some(t)
                &&& cmd matches OdiliaCommand::Speak(utterance, p)
                &&& p == Priority::Text
                &&& if last_focus@ == item@.object {
                    utterance@ == caret_span(t, position as int, last_pos as int) && utterance@.len()
                        > 0
                } else {
                    utterance@ == t
                }
            },
            None => match item@.text {
                Some(t) => last_focus@ == item@.object && caret_span(
                    t,
                    position as int,
                    last_pos as int,
                ).len() == 0,
                None => true,
            },
        },
{
    let pos = position as usize;
    match &item.text {
        Some(text) => {
            if key_eq(last_focus, &item.object) {
                let lo = if pos <= last_pos {
                    pos
                } else {
                    last_pos
                };
                let hi = if pos <= last_pos {
                    last_pos
                } else {
                    pos
                };
                let tlen = text.as_str().unicode_len();
                let lo2 = if lo <= tlen {
                    lo
                } else {
                    tlen
                };
                let hi2 = if hi <= tlen {
                    hi
                } else {
                    tlen
                };
                let slice = text.as_str().substring_char(lo2, hi2).to_owned();
                if slice.as_str().unicode_len() != 0 {
                    Some(OdiliaCommand::Speak(slice, Priority::Text))
                } else {
                    None
                }
            } else {
                Some(OdiliaCommand::Speak(text.clone(), Priority::Text))
            }
        },
        None => None,
    }
}

/// The concatenation of the texts of the given items, in order, skipping
/// items without text.
pub open spec fn texts_concat(items: Seq<ItemView>) -> Seq<char>
    decreases items.len(),
{
    if items.len() == 0 {
        Seq::empty()
    } else {
        (match items[0].text {
            Some(t) => t,
            None => Seq::empty(),
        }) + texts_concat(items.drop_first())
    }
}

/// The label of an item that has no text of its own: its name, else its
/// description, else the concatenated texts of the items labelling it.
pub open spec fn label_of(item: ItemView, relations: Seq<ItemView>) -> Seq<char> {
    match item.name {
        Some(n) => n,
        None => match item.description {
            Some(d) => d,
            None => texts_concat(relations),
        },
    }
}

/// The utterance spoken when an item takes the focus: its text, or its
/// label; for a list item additionally the texts of its subtree below the
/// root; and finally a space and the role name.
pub open spec fn focused_utterance(
    item: ItemView,
    relations: Seq<ItemView>,
    sub: Seq<ItemView>,
) -> Seq<char> {
    let base = match item.text {
        Some(t) => t,
        None => label_of(item, relations),
    };
    let with_children = if item.role == ROLE_LIST_ITEM {
        base + texts_concat(sub.drop_first())
    } else {
        base
    };
    with_children + seq![' '] + spec_role_name(item.role)
}

/// Append the texts of `items`, in order, to `out`.
fn append_texts(out: &mut String, items: &Vec<CacheItem>, from: usize)
    requires
        from <= items@.len(),
    ensures
        final(out)@ == old(out)@ + texts_concat(items.deep_view().skip(from as int)),
    decreases items@.len() - from,
{
    if from < items.len() {
        match &items[from].text {
            Some(t) => {
                out.append(t.as_str());
            },
            None => {},
        }
        append_texts(out, items, from + 1);
        proof {
            let tail = items.deep_view().skip(from as int);
            assert(tail[0] == items.deep_view()[from as int]);
            assert(tail.drop_first() =~= items.deep_view().skip(from as int + 1));
            assert(old(out)@ + texts_concat(tail) =~= out@);
        }
    } else {
        proof {
            assert(items.deep_view().skip(from as int) =~= Seq::<ItemView>::empty());
        }
    }
}

/// React to an item taking the focus: move the reading focus there and
/// speak the item's text or label, a list item's subtree texts, and its
/// role name.
pub fn focused(item: &CacheItem, relations: &Vec<CacheItem>, sub: &Subtree) -> (r: Vec<
    OdiliaCommand,
>)
    requires
        sub.0@.len() >= 1,
    ensures
        r@.len() == 2,
        r@[0] matches OdiliaCommand::Focus(k) && k@ == item@.object,
        r@[1] matches OdiliaCommand::Speak(utterance, p) && p == Priority::Text && utterance@
            == focused_utterance(item@, relations.deep_view(), sub.0.deep_view()),
{
    let mut buffer = String::new();
    match &item.text {
        Some(t) => {
            buffer.append(t.as_str());
        },
        None => {
            match &item.name {
                Some(n) => {
                    buffer.append(n.as_str());
                },
                None => {
                    match &item.description {
                        Some(d) => {
                            buffer.append(d.as_str());
                        },
                        None => {
                            append_texts(&mut buffer, relations, 0);
                            proof {
                                assert(relations.deep_view().skip(0) =~= relations.deep_view());
                            }
                        },
                    }
                },
            }
        },
    }
    if item.role == ROLE_LIST_ITEM {
        // Read the subtree below the root element; this lets list entries
        // composed of child text nodes be read in one utterance.
        append_texts(&mut buffer, &sub.0, 1);
        proof {
            assert(sub.0.deep_view().skip(1) =~= sub.0.deep_view().drop_first());
        }
    }
    buffer.append(" ");
    buffer.append(role_name(item.role));
    proof {
        reveal_strlit(" ");
        assert(" "@ =~= seq![' ']);
        assert(buffer@ =~= focused_utterance(
            item@,
            relations.deep_view(),
            sub.0.deep_view(),
        ));
    }
    let mut out: Vec<OdiliaCommand> = Vec::new();
    out.push(OdiliaCommand::Focus(item.object.clone()));
    out.push(OdiliaCommand::Speak(buffer, Priority::Text));
    out
}

} // verus!
