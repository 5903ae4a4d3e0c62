use cmark_chunk::chunk::{chunk_markdown, ChunkKind};
use cmark_chunk::engine::{parse_offsets, parse_offsets_with_broken_link_callback, BrokenLink};
use cmark_chunk::{Event, HeadingLevel, InvalidHeadingLevel, LinkType, Options, Tag, TagEnd};
use std::cell::RefCell;

fn texts(events: &[cmark_chunk::engine::OffsetEvent]) -> Vec<String> {
    events
        .iter()
        .filter_map(|e| match &e.event {
            Event::Text(t) => Some(t.clone()),
            _ => None,
        })
        .collect()
}

#[test]
fn unresolved_reference_stays_literal_text() {
    let events = parse_offsets("[foo][bar]", Options::empty());
    assert!(!events.iter().any(|e| matches!(e.event, Event::Start(Tag::Link { .. }))));
    assert_eq!(texts(&events), vec!["[foo][bar]".to_string()]);
    assert_eq!(events.len(), 3);
    assert!(matches!(events[0].event, Event::Start(Tag::Paragraph)));
    assert!(matches!(events[2].event, Event::End(TagEnd::Paragraph)));
}

#[test]
fn unresolved_reference_is_reported_as_reference_unknown() {
    let seen: RefCell<Vec<(String, LinkType)>> = RefCell::new(Vec::new());
    let events = parse_offsets_with_broken_link_callback("[foo][bar]", Options::empty(), |l: BrokenLink| {
        seen.borrow_mut().push((l.reference.clone(), l.link_type));
        None
    });
    assert_eq!(seen.borrow().clone(), vec![("bar".to_string(), LinkType::ReferenceUnknown)]);
    assert_eq!(texts(&events), vec!["[foo][bar]".to_string()]);
}

#[test]
fn resolver_supplies_the_destination() {
    let events = parse_offsets_with_broken_link_callback("see [foo][bar] now", Options::empty(), |_l: BrokenLink| {
        Some(("https://x.example".to_string(), "T".to_string()))
    });
    let link = events
        .iter()
        .find_map(|e| match &e.event {
            Event::Start(Tag::Link { link_type, dest_url, title, id }) => {
                Some((*link_type, dest_url.clone(), title.clone(), id.clone(), e.start, e.end))
            }
            _ => None,
        })
        .unwrap();
    assert_eq!(link, (LinkType::ReferenceUnknown, "https://x.example".to_string(), "T".to_string(), "bar".to_string(), 4, 14));
    assert_eq!(texts(&events), vec!["see ".to_string(), "foo".to_string(), " now".to_string()]);
}

#[test]
fn defined_references_resolve_in_any_order() {
    let text = "[a][Ref] and [ref][] and [ref]\n\n[REF]: /url\n";
    let events = parse_offsets(text, Options::empty());
    let kinds: Vec<(LinkType, String)> = events
        .iter()
        .filter_map(|e| match &e.event {
            Event::Start(Tag::Link { link_type, dest_url, .. }) => Some((*link_type, dest_url.clone())),
            _ => None,
        })
        .collect();
    assert_eq!(
        kinds,
        vec![
            (LinkType::Reference, "/url".to_string()),
            (LinkType::Collapsed, "/url".to_string()),
            (LinkType::Shortcut, "/url".to_string()),
        ]
    );
    let chunks = chunk_markdown(text, Options::empty());
    assert_eq!(chunks.len(), 1);
    assert_eq!(chunks[0].kind, ChunkKind::Paragraph);
}

#[test]
fn heading_level_conversions() {
    assert_eq!(HeadingLevel::try_from(2usize), Ok(HeadingLevel::H2));
    assert_eq!(HeadingLevel::try_from(9usize), Err(InvalidHeadingLevel(9)));
    let end: TagEnd = Tag::BlockQuote(None).into();
    assert_eq!(end, TagEnd::BlockQuote(None));
    assert_eq!(TagEnd::from(Tag::Heading { level: HeadingLevel::H5, id: None, classes: vec![], attrs: vec![] }), TagEnd::Heading(HeadingLevel::H5));
}
