use cmark_chunk::chunk::ChunkKind;
use cmark_chunk::{
    CodeBlockKind, HeadingLevel, InvalidHeadingLevel, LinkType, Options, Tag, TagEnd, Event,
    ENABLE_FOOTNOTES, ENABLE_OLD_FOOTNOTES, ENABLE_TABLES,
};

#[test]
fn chunk_kind_labels() {
    assert_eq!(ChunkKind::Heading(HeadingLevel::H3).as_str(), "heading");
    assert_eq!(ChunkKind::Paragraph.as_str(), "paragraph");
    assert_eq!(ChunkKind::CodeBlock.as_str(), "code_block");
    assert_eq!(ChunkKind::BlockQuote.as_str(), "blockquote");
    assert_eq!(ChunkKind::List.as_str(), "list");
    assert_eq!(ChunkKind::Table.as_str(), "table");
    assert_eq!(ChunkKind::Rule.as_str(), "rule");
    assert_eq!(ChunkKind::Metadata.as_str(), "metadata");
    assert_eq!(ChunkKind::Footnote.as_str(), "footnote");
    assert_eq!(ChunkKind::DefinitionList.as_str(), "definition_list");
    assert_eq!(ChunkKind::Other.as_str(), "other");
}

#[test]
fn heading_levels_from_numbers() {
    assert_eq!(HeadingLevel::from_number(1), Ok(HeadingLevel::H1));
    assert_eq!(HeadingLevel::from_number(6), Ok(HeadingLevel::H6));
    assert_eq!(HeadingLevel::from_number(0), Err(InvalidHeadingLevel(0)));
    assert_eq!(HeadingLevel::from_number(7), Err(InvalidHeadingLevel(7)));
    assert_eq!(HeadingLevel::H4.name(), "h4");
}

#[test]
fn tag_end_projection() {
    let h = Tag::Heading { level: HeadingLevel::H2, id: Some("x".to_string()), classes: vec![], attrs: vec![] };
    assert_eq!(h.to_end(), TagEnd::Heading(HeadingLevel::H2));
    assert_eq!(Tag::List(Some(3)).to_end(), TagEnd::List(true));
    assert_eq!(Tag::List(None).to_end(), TagEnd::List(false));
    assert_eq!(Tag::CodeBlock(CodeBlockKind::Fenced("rust".to_string())).to_end(), TagEnd::CodeBlock);
    let h2 = h.clone().into_static();
    assert_eq!(h2, h);
    let e = Event::Start(Tag::Item).into_static();
    assert_eq!(e, Event::Start(Tag::Item));
}

#[test]
fn code_block_kinds() {
    assert!(CodeBlockKind::Indented.is_indented());
    assert!(!CodeBlockKind::Indented.is_fenced());
    let f = CodeBlockKind::Fenced("".to_string());
    assert!(f.is_fenced());
    assert_eq!(f.clone().into_static(), f);
}

#[test]
fn unknown_link_types() {
    assert_eq!(LinkType::Reference.to_unknown(), LinkType::ReferenceUnknown);
    assert_eq!(LinkType::Collapsed.to_unknown(), LinkType::CollapsedUnknown);
    assert_eq!(LinkType::Shortcut.to_unknown(), LinkType::ShortcutUnknown);
}

#[test]
fn old_footnotes_imply_footnotes() {
    let mut o = Options::empty();
    assert!(!o.has_gfm_footnotes());
    o.insert(ENABLE_FOOTNOTES);
    assert!(o.has_gfm_footnotes());
    o.insert(ENABLE_OLD_FOOTNOTES);
    assert!(o.contains(ENABLE_FOOTNOTES));
    assert!(!o.has_gfm_footnotes());
    let only_old = Options::from_bits_truncate(ENABLE_OLD_FOOTNOTES | 1);
    assert!(only_old.contains(ENABLE_FOOTNOTES));
    assert!(!only_old.contains(ENABLE_TABLES));
    assert_eq!(only_old.bits, ENABLE_OLD_FOOTNOTES);
}
