use odilia_cache::choice::Chooser;
use odilia_cache::codec::{parse_item, serialize_item};
use odilia_cache::events::CacheEvent;
use odilia_cache::protocol::CacheRequest;
use odilia_cache::extractors::{
    ActiveApplication, Always, InnerEvent, NotContainer, Predicate,
};
use odilia_cache::handlers::{
    caret_moved, caret_moved_update_state, doc_loaded, focused, state_set, OdiliaCommand, Priority,
};
use odilia_cache::item::CacheItem;
use odilia_cache::key::CacheKey;
use odilia_cache::relations::{relations_of_kind, RelationType};
use odilia_cache::roles::{is_container_role, role_name, ROLE_LIST_ITEM};
use odilia_cache::service_set::ServiceSet;
use odilia_cache::settings::{ApplicationConfig, SpeechSettings};
use odilia_cache::speech::{
    event_rule_parts, speech_batch, splice_child_spans, ChildSpan, SpeechRequest,
};
use odilia_cache::subtree::Subtree;
use odilia_cache::types::{
    ElementType, GranularSelection, Granularity, IndexesSelection, TextSelectionArea,
};

fn key(sender: &str, id: &str) -> CacheKey {
    CacheKey { sender: sender.to_string(), id: id.to_string() }
}

fn item(sender: &str, id: &str) -> CacheItem {
    CacheItem {
        object: key(sender, id),
        app: key(sender, "/root"),
        parent: key(sender, "/root"),
        index: Some(0),
        children_num: Some(0),
        interfaces: 0,
        role: 0,
        states: 0,
        children: Vec::new(),
        name: None,
        description: None,
        help_text: None,
        text: None,
    }
}

#[test]
fn roundtrip_preserves_every_field() {
    let mut x = item("app-A", "/x");
    x.index = Some(7);
    x.children_num = None;
    x.interfaces = 0xdead_beef;
    x.role = 32;
    x.states = u64::MAX;
    x.children = vec![key("app-A", "/c1"), key("app-B", "/c:2;tricky=chars")];
    x.name = Some("a name".to_string());
    x.description = Some("longer description, with punctuation;=:".to_string());
    x.help_text = None;
    x.text = Some("unicode text: äöü€".to_string());
    let text = serialize_item(&x);
    let back = parse_item(text.as_str()).expect("round trip must succeed");
    assert_eq!(back, x);
}

#[test]
fn roundtrip_normalizes_empty_strings_to_absent() {
    let mut x = item("app-A", "/x");
    x.name = Some(String::new());
    x.description = Some("kept".to_string());
    let text = serialize_item(&x);
    let back = parse_item(text.as_str()).expect("round trip must succeed");
    assert_eq!(back.name, None, "name: \"\" must deserialize to absent");
    assert_eq!(back.description.as_deref(), Some("kept"));
    let mut normalized = x.clone();
    normalized.name = None;
    assert_eq!(back, normalized);
}

#[test]
fn roundtrip_minimal_item() {
    let mut x = item("", "");
    x.index = None;
    x.children_num = None;
    let text = serialize_item(&x);
    let back = parse_item(text.as_str()).expect("round trip must succeed");
    assert_eq!(back, x);
}

#[test]
fn serialized_form_is_textual_with_field_names() {
    let x = item("app-A", "/x");
    let text = serialize_item(&x);
    for name in [
        "object=", "app=", "parent=", "index=", "children_num=", "children=", "interfaces=",
        "role=", "states=", "name=", "description=", "help_text=", "text=",
    ] {
        assert!(text.contains(name), "missing field name {} in {}", name, text);
    }
}

#[test]
fn parse_rejects_malformed_text() {
    assert!(parse_item("").is_none());
    assert!(parse_item("nonsense").is_none());
    assert!(parse_item("object=XYZ;").is_none());
    let x = item("app-A", "/x");
    let text = serialize_item(&x);
    let truncated = &text[..text.len() - 5];
    assert!(parse_item(truncated).is_none());
}

#[test]
fn doc_loaded_announcement() {
    let (priority, text) = doc_loaded();
    assert_eq!(priority, Priority::Text);
    assert_eq!(text, "Doc loaded");
}

#[test]
fn state_set_builds_command() {
    let cmd = state_set(&key("app-A", "/x"), 1 << 12, true);
    match cmd {
        OdiliaCommand::SetState { target, state, enabled } => {
            assert_eq!(target, key("app-A", "/x"));
            assert_eq!(state, 1 << 12);
            assert!(enabled);
        }
        other => panic!("expected SetState, got {:?}", other),
    }
}

#[test]
fn caret_update_commands() {
    let cmds = caret_moved_update_state(&key("app-A", "/x"), 17);
    assert_eq!(cmds.len(), 2);
    assert!(matches!(cmds[0], OdiliaCommand::CaretPos(17)));
    match &cmds[1] {
        OdiliaCommand::Focus(k) => assert_eq!(*k, key("app-A", "/x")),
        other => panic!("expected Focus, got {:?}", other),
    }
}

#[test]
fn caret_moved_speaks_span_within_focused_item() {
    let mut x = item("app-A", "/x");
    x.text = Some("hello world".to_string());
    let got = caret_moved(&x, 8, 3, &key("app-A", "/x"));
    match got {
        Some(OdiliaCommand::Speak(text, Priority::Text)) => assert_eq!(text, "lo wo"),
        other => panic!("expected Speak, got {:?}", other),
    }
}

#[test]
fn caret_moved_zero_positions_say_nothing() {
    let mut x = item("app-A", "/x");
    x.text = Some("hello".to_string());
    assert!(caret_moved(&x, 0, 0, &key("app-A", "/x")).is_none());
}

#[test]
fn caret_moved_new_focus_speaks_whole_text() {
    let mut x = item("app-A", "/x");
    x.text = Some("hello".to_string());
    let got = caret_moved(&x, 2, 4, &key("app-A", "/other"));
    match got {
        Some(OdiliaCommand::Speak(text, Priority::Text)) => assert_eq!(text, "hello"),
        other => panic!("expected Speak, got {:?}", other),
    }
}

#[test]
fn focused_speaks_text_and_role() {
    let mut x = item("app-A", "/x");
    x.text = Some("hello".to_string());
    x.role = 39;
    let sub = Subtree(vec![x.clone()]);
    let cmds = focused(&x, &Vec::new(), &sub);
    assert_eq!(cmds.len(), 2);
    match &cmds[0] {
        OdiliaCommand::Focus(k) => assert_eq!(*k, key("app-A", "/x")),
        other => panic!("expected Focus, got {:?}", other),
    }
    match &cmds[1] {
        OdiliaCommand::Speak(text, Priority::Text) => assert_eq!(text, "hello panel"),
        other => panic!("expected Speak, got {:?}", other),
    }
}

#[test]
fn focused_list_item_reads_subtree() {
    let mut x = item("app-A", "/x");
    x.name = Some("entry".to_string());
    x.role = ROLE_LIST_ITEM;
    let mut c1 = item("app-A", "/c1");
    c1.text = Some(" one".to_string());
    let mut c2 = item("app-A", "/c2");
    c2.text = Some(" two".to_string());
    let sub = Subtree(vec![x.clone(), c1, c2]);
    let cmds = focused(&x, &Vec::new(), &sub);
    match &cmds[1] {
        OdiliaCommand::Speak(text, _) => assert_eq!(text, "entry one two list item"),
        other => panic!("expected Speak, got {:?}", other),
    }
}

#[test]
fn focused_label_falls_back_to_relations() {
    let mut x = item("app-A", "/x");
    x.role = 39;
    let mut lbl = item("app-A", "/lbl");
    lbl.text = Some("label text".to_string());
    let sub = Subtree(vec![x.clone()]);
    let cmds = focused(&x, &vec![lbl], &sub);
    match &cmds[1] {
        OdiliaCommand::Speak(text, _) => assert_eq!(text, "label text panel"),
        other => panic!("expected Speak, got {:?}", other),
    }
}

#[test]
fn role_names_match_the_bus() {
    assert_eq!(role_name(0), "invalid");
    assert_eq!(role_name(32), "list item");
    assert_eq!(role_name(39), "panel");
    assert_eq!(role_name(75), "application");
    assert_eq!(role_name(9999), "invalid");
}

#[test]
fn container_roles_recognized() {
    assert!(is_container_role(23), "a frame is a container");
    assert!(is_container_role(39), "a panel is a container");
    assert!(!is_container_role(32), "a list item is not a container");
    assert!(!is_container_role(0));
}

#[test]
fn predicates_filter_by_role_and_application() {
    let mut frame = item("app-A", "/f");
    frame.role = 23;
    let ctx = (frame, None);
    assert!(!NotContainer::test(&ctx));
    assert!(Always::test(&ctx));
    let entry = item("app-A", "/e");
    let ctx = (entry, Some(key("app-A", "/root")));
    assert!(NotContainer::test(&ctx));
    assert!(ActiveApplication::test(&ctx));
    let ctx = (item("app-A", "/e"), Some(key("app-B", "/root")));
    assert!(!ActiveApplication::test(&ctx));
    let ctx = (item("app-A", "/e"), None);
    assert!(!ActiveApplication::test(&ctx));
}

#[test]
fn event_predicate_admits_passing_items() {
    let entry = item("app-A", "/e");
    let ce = InnerEvent::new(7u32, entry);
    let ep = odilia_cache::extractors::EventPredicate::<u32, NotContainer>::from_cache_event(
        ce, None,
    );
    assert!(ep.is_some());
    let ep = ep.unwrap();
    assert_eq!(ep.inner, 7);
    assert_eq!(ep.item.object, key("app-A", "/e"));
    let mut frame = item("app-A", "/f");
    frame.role = 23;
    let ce = InnerEvent::new(8u32, frame);
    let ep = odilia_cache::extractors::EventPredicate::<u32, NotContainer>::from_cache_event(
        ce, None,
    );
    assert!(ep.is_none());
}

#[test]
fn speech_batch_refuses_single_period() {
    assert!(speech_batch(Priority::Text, ".".to_string()).is_none());
    let reqs = speech_batch(Priority::Message, "hello".to_string()).expect("must send");
    assert_eq!(reqs.len(), 3);
    assert!(matches!(reqs[0], SpeechRequest::SetPriority(Priority::Message)));
    assert!(matches!(reqs[1], SpeechRequest::Speak));
    match &reqs[2] {
        SpeechRequest::SendLines(lines) => assert_eq!(lines, &vec!["hello".to_string()]),
        other => panic!("expected SendLines, got {:?}", other),
    }
}

#[test]
fn event_rule_parts_split() {
    let (interface, member) = event_rule_parts("Object:StateChanged:Focused").expect("two parts");
    assert_eq!(interface, "org.a11y.atspi.Event.Object");
    assert_eq!(member, "StateChanged");
    let (interface, member) = event_rule_parts("Document:LoadComplete").expect("two parts");
    assert_eq!(interface, "org.a11y.atspi.Event.Document");
    assert_eq!(member, "LoadComplete");
    assert!(event_rule_parts("NoSeparator").is_none());
}

#[test]
fn splice_child_spans_replaces_regions() {
    let spans = vec![ChildSpan { start: 6, end: 11, label: "there, friend".to_string() }];
    let got = splice_child_spans("hello world".to_string(), &spans);
    assert_eq!(got, "hello there, friend");
    let spans = vec![
        ChildSpan { start: 0, end: 1, label: "H".to_string() },
        ChildSpan { start: 90, end: 95, label: "!".to_string() },
    ];
    let got = splice_child_spans("hi".to_string(), &spans);
    assert_eq!(got, "Hi!");
}

#[test]
fn service_set_keeps_registration_order() {
    let mut set: ServiceSet<u32> = ServiceSet::new();
    assert_eq!(set.len(), 0);
    set.push(4);
    set.push(9);
    assert_eq!(set.len(), 2);
    let single = ServiceSet::from(1u32);
    assert_eq!(single.len(), 1);
}

#[test]
fn speech_settings_carry_rate() {
    let s = SpeechSettings::new(75);
    assert_eq!(s.rate, 75);
    let c = ApplicationConfig::default();
    assert_eq!(c.speech.rate, 0);
}

#[test]
fn selection_types_hold_their_fields() {
    let sel = TextSelectionArea::Index(IndexesSelection { start: 3, end: 9 });
    match sel {
        TextSelectionArea::Index(i) => {
            assert_eq!(i.start, 3);
            assert_eq!(i.end, 9);
        }
        TextSelectionArea::Granular(_) => panic!("expected an index selection"),
    }
    let sel = TextSelectionArea::Granular(GranularSelection {
        index: 2,
        granularity: Granularity::Line,
    });
    assert!(matches!(
        sel,
        TextSelectionArea::Granular(GranularSelection { index: 2, granularity: Granularity::Line })
    ));
    assert_ne!(ElementType::Heading, ElementType::Button);
}

#[test]
fn request_identifiers_are_distinct() {
    let a = CacheRequest::Item(key("app-A", "/x"));
    let b = CacheRequest::AddAll(Vec::new());
    assert_ne!(a.identifier(), b.identifier());
    let ev = CacheEvent::Remove { target: key("app-A", "/x") };
    let ev2 = CacheEvent::ApplicationExit { sender: "app-A".to_string() };
    assert_ne!(ev.identifier(), ev2.identifier());
}

#[test]
fn relation_selection_takes_first_matching_group() {
    let pairs = vec![
        (RelationType::LabelFor, vec![key("app-A", "/other")]),
        (RelationType::LabelledBy, vec![key("app-A", "/l1"), key("app-A", "/l2")]),
        (RelationType::LabelledBy, vec![key("app-A", "/ignored")]),
    ];
    let got = relations_of_kind(&pairs, RelationType::LabelledBy);
    assert_eq!(got, vec![key("app-A", "/l1"), key("app-A", "/l2")]);
    assert_eq!(relations_of_kind(&pairs, RelationType::Embeds), Vec::<CacheKey>::new());
}
