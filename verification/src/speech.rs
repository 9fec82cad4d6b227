use vstd::prelude::*;
use vstd::string::{StrSliceExecFns, StringExecFns};

use crate::handlers::Priority;

verus! {

/// One request to the speech server.
#[derive(Clone, Debug)]
pub enum SpeechRequest {
    /// Set the priority of what follows.
    SetPriority(Priority),
    /// Start a speak transaction.
    Speak,
    /// Send the lines to speak.
    SendLines(Vec<String>),
    /// Cancel all queued speech.
    Cancel,
    /// Close the connection.
    Quit,
}

/// The requests that speaking one utterance sends, in order: set the
/// priority, open a speak transaction, send the text. A single period on
/// a line of its own is the speech server's stop character and would
/// break the connection, so that text is refused instead of sent.
pub fn speech_batch(priority: Priority, text: String) -> (r: Option<Vec<SpeechRequest>>)
    ensures
        match r {
            None => text@ == "."@,
            Some(reqs) => {
                &&& text@ != "."@
                &&& reqs@.len() == 3
                &&& reqs@[0] matches SpeechRequest::SetPriority(p) && p == priority
                &&& reqs@[1] is Speak
                &&& reqs@[2] matches SpeechRequest::SendLines(lines) && lines@.len() == 1
                    && lines@[0]@ == text@
            },
        },
{
    let dot = ".".to_owned();
    if text == dot {
        return None;
    }
    let mut lines: Vec<String> = Vec::new();
    lines.push(text);
    let mut reqs: Vec<SpeechRequest> = Vec::new();
    reqs.push(SpeechRequest::SetPriority(priority));
    reqs.push(SpeechRequest::Speak);
    reqs.push(SpeechRequest::SendLines(lines));
    Some(reqs)
}

/// The bus interface and member named by an event string of the form
/// `Interface:Member[:Detail]`: the interface gains the event interface
/// prefix, the member is taken verbatim.
pub open spec fn spec_first_colon(s: Seq<char>, from: int) -> int
    decreases s.len() - from,
{
    if from < 0 || from >= s.len() {
        s.len() as int
    } else if s[from] == ':' {
        from
    } else {
        spec_first_colon(s, from + 1)
    }
}

/// Find the first `:` at or after `from`; the text length when there is
/// none.
fn first_colon(s: &str, from: usize) -> (r: usize)
    requires
        from <= s@.len(),
    ensures
        r == spec_first_colon(s@, from as int),
        from <= r <= s@.len(),
        r < s@.len() ==> s@[r as int] == ':',
    decreases s@.len() - from,
{
    let len = s.unicode_len();
    if from >= len {
        return len;
    }
    if s.get_char(from) == ':' {
        from
    } else {
        first_colon(s, from + 1)
    }
}

/// Split an event name such as `Object:StateChanged:Focused` into the
/// fully qualified bus interface (the first component behind the event
/// interface prefix) and the member (the second component); `None` if the
/// text has fewer than two components.
pub fn event_rule_parts(event: &str) -> (r: Option<(String, String)>)
    ensures
        match r {
            Some(parts) => {
                let c1 = spec_first_colon(event@, 0);
                &&& c1 < event@.len()
                &&& parts.0@ == "org.a11y.atspi.Event."@ + event@.subrange(0, c1)
                &&& parts.1@ == event@.subrange(c1 + 1, spec_first_colon(event@, c1 + 1))
            },
            None => spec_first_colon(event@, 0) == event@.len(),
        },
{
    let len = event.unicode_len();
    let c1 = first_colon(event, 0);
    if c1 >= len {
        return None;
    }
    let mut interface = "org.a11y.atspi.Event.".to_owned();
    interface.append(event.substring_char(0, c1));
    let c2 = first_colon(event, c1 + 1);
    let member = event.substring_char(c1 + 1, c2).to_owned();
    Some((interface, member))
}

/// Replace the characters of `s` between `a` and `b` (clamped to the
/// text, and with `b` at least `a`) by `t`.
pub open spec fn replace_span(s: Seq<char>, a: int, b: int, t: Seq<char>) -> Seq<char> {
    let a2 = if a <= s.len() {
        a
    } else {
        s.len() as int
    };
    let b3 = if b <= a2 {
        a2
    } else {
        b
    };
    let b2 = if b3 <= s.len() {
        b3
    } else {
        s.len() as int
    };
    s.subrange(0, a2) + t + s.subrange(b2, s.len() as int)
}

/// One child span to splice into a spoken selection: where the child sits
/// in the text and the label that replaces it.
pub struct ChildSpan {
    /// First character of the replaced region.
    pub start: usize,
    /// One past the last character of the replaced region.
    pub end: usize,
    /// The label spoken in place of the region.
    pub label: String,
}

/// The selection text after splicing every child span in order; each
/// splice is applied to the result of the previous one.
pub open spec fn splice_spans(s: Seq<char>, spans: Seq<ChildSpan>) -> Seq<char>
    decreases spans.len(),
{
    if spans.len() == 0 {
        s
    } else {
        splice_spans(
            replace_span(s, spans[0].start as int, spans[0].end as int, spans[0].label@),
            spans.drop_first(),
        )
    }
}

/// Splice child labels into a spoken text selection, in order: for each
/// span, the region it names is replaced by its label. Regions are
/// clamped to the text as it stands when the span is applied.
pub fn splice_child_spans(text: String, spans: &Vec<ChildSpan>) -> (r: String)
    ensures
        r@ == splice_spans(text@, spans@),
{
    let mut cur = text;
    let mut i: usize = 0;
    proof {
        assert(spans@.skip(0) =~= spans@);
    }
    while i < spans.len()
        invariant
            i <= spans@.len(),
            splice_spans(cur@, spans@.skip(i as int)) == splice_spans(text@, spans@),
        decreases spans@.len() - i,
    {
        let ghost pre = cur@;
        let tlen = cur.as_str().unicode_len();
        let a = if spans[i].start <= tlen {
            spans[i].start
        } else {
            tlen
        };
        let b0 = if spans[i].end <= a {
            a
        } else {
            spans[i].end
        };
        let b = if b0 <= tlen {
            b0
        } else {
            tlen
        };
        let mut next = cur.as_str().substring_char(0, a).to_owned();
        next.append(spans[i].label.as_str());
        next.append(cur.as_str().substring_char(b, tlen));
        proof {
            assert(next@ =~= replace_span(
                pre,
                spans@[i as int].start as int,
                spans@[i as int].end as int,
                spans@[i as int].label@,
            ));
            assert(spans@.skip(i as int)[0] == spans@[i as int]);
            assert(spans@.skip(i as int).drop_first() =~= spans@.skip(i as int + 1));
        }
        cur = next;
        i = i + 1;
    }
    proof {
        assert(spans@.skip(spans@.len() as int) =~= Seq::<ChildSpan>::empty());
    }
    cur
}

} // verus!
