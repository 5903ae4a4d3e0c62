use cmark_chunk::chunk::{chunk_events, chunk_markdown, chunk_markdown_with_config, ChunkConfig, ChunkKind, Chunker};
use cmark_chunk::engine::{parse_offsets, OffsetEvent};
use cmark_chunk::{Event, HeadingLevel, Options, Tag, TagEnd};

#[test]
fn test_basic_chunking() {
    let markdown = r#"# 标题

段落内容。

## 二级标题

- 列表项1
- 列表项2"#;

    let chunks = chunk_markdown(markdown, Options::empty());

    assert_eq!(chunks.len(), 4);
    assert_eq!(chunks[0].kind, ChunkKind::Heading(HeadingLevel::H1));
    assert_eq!(chunks[1].kind, ChunkKind::Paragraph);
    assert_eq!(chunks[2].kind, ChunkKind::Heading(HeadingLevel::H2));
    assert_eq!(chunks[3].kind, ChunkKind::List);
}

#[test]
fn test_chunk_indices() {
    let markdown = "# 标题\n\n段落";
    let chunks = chunk_markdown(markdown, Options::empty());

    for (i, chunk) in chunks.iter().enumerate() {
        assert_eq!(chunk.index, i);
    }
}

#[test]
fn test_config_options() {
    let markdown = "# 很长的标题内容很长很长";
    let config = ChunkConfig {
        max_length: Some(10),
        ..Default::default()
    };

    let chunks = chunk_markdown_with_config(markdown, Options::empty(), config);
    assert_eq!(chunks.len(), 1);
    assert!(chunks[0].content.chars().count() <= 13);
    assert!(chunks[0].content.ends_with("..."));
}

#[test]
fn test_code_block_chunking() {
    let markdown = r#"```rust
let x = 42;
```"#;

    let chunks = chunk_markdown(markdown, Options::empty());
    assert_eq!(chunks.len(), 1);
    assert_eq!(chunks[0].kind, ChunkKind::CodeBlock);
}

#[test]
fn test_blockquote_chunking() {
    let markdown = r#"> 这是引用块
> 包含多行"#;

    let chunks = chunk_markdown(markdown, Options::empty());
    assert_eq!(chunks.len(), 1);
    assert_eq!(chunks[0].kind, ChunkKind::BlockQuote);
}

#[test]
fn four_blocks_in_order() {
    let chunks = chunk_markdown("# Title\n\nBody text.\n\n## Sub\n\n- a\n- b", Options::empty());
    assert_eq!(chunks.len(), 4);
    assert_eq!(chunks[0].kind, ChunkKind::Heading(HeadingLevel::H1));
    assert_eq!(chunks[1].kind, ChunkKind::Paragraph);
    assert_eq!(chunks[2].kind, ChunkKind::Heading(HeadingLevel::H2));
    assert_eq!(chunks[3].kind, ChunkKind::List);
    for (i, c) in chunks.iter().enumerate() {
        assert_eq!(c.index, i);
    }
    assert_eq!(chunks[0].content, "# Title");
    assert_eq!(chunks[1].content, "Body text.");
    assert_eq!(chunks[2].content, "## Sub");
    assert_eq!(chunks[3].content, "- a\n- b");
}

#[test]
fn fenced_code_block_is_one_chunk() {
    let chunks = chunk_markdown("```\nx = 1\n```", Options::empty());
    assert_eq!(chunks.len(), 1);
    assert_eq!(chunks[0].kind, ChunkKind::CodeBlock);
    assert!(chunks[0].content.contains("x = 1"));
    assert_eq!(chunks[0].content, "```\nx = 1\n```");
}

#[test]
fn heading_cut_to_ten_characters() {
    let config = ChunkConfig { max_length: Some(10), ..Default::default() };
    let chunks = chunk_markdown_with_config("# 0123456789ABCDE", Options::empty(), config);
    assert_eq!(chunks.len(), 1);
    assert_eq!(chunks[0].kind, ChunkKind::Heading(HeadingLevel::H1));
    assert_eq!(chunks[0].content, "# 01234567...");
    assert_eq!(chunks[0].content.chars().count(), 13);
}

#[test]
fn truncation_counts_characters_not_bytes() {
    let config = ChunkConfig { max_length: Some(3), ..Default::default() };
    let chunks = chunk_markdown_with_config("标题内容", Options::empty(), config);
    assert_eq!(chunks.len(), 1);
    assert_eq!(chunks[0].content, "标题内...");
    let config = ChunkConfig { max_length: Some(4), ..Default::default() };
    let chunks = chunk_markdown_with_config("标题内容", Options::empty(), config);
    assert_eq!(chunks[0].content, "标题内容");
}

#[test]
fn blockquote_spans_both_lines() {
    let chunks = chunk_markdown("> line one\n> line two", Options::empty());
    assert_eq!(chunks.len(), 1);
    assert_eq!(chunks[0].kind, ChunkKind::BlockQuote);
    assert_eq!(chunks[0].content, "> line one\n> line two");
}

#[test]
fn rule_at_top_level_is_a_chunk() {
    let chunks = chunk_markdown("para\n\n***\n\nmore", Options::empty());
    assert_eq!(chunks.len(), 3);
    assert_eq!(chunks[1].kind, ChunkKind::Rule);
    assert_eq!(chunks[1].content, "***");
    assert_eq!(chunks[2].index, 2);
}

#[test]
fn setext_and_indented_code() {
    let chunks = chunk_markdown("Title\n=====\n\n    code\n    more\n\n1. one\n2. two", Options::empty());
    assert_eq!(chunks.len(), 3);
    assert_eq!(chunks[0].kind, ChunkKind::Heading(HeadingLevel::H1));
    assert_eq!(chunks[1].kind, ChunkKind::CodeBlock);
    assert_eq!(chunks[1].content, "code\n    more");
    assert_eq!(chunks[2].kind, ChunkKind::List);
}

#[test]
fn preserve_formatting_keeps_whitespace() {
    let config = ChunkConfig { preserve_formatting: true, ..Default::default() };
    let chunks = chunk_markdown_with_config("  text  \n\nnext", Options::empty(), config);
    assert_eq!(chunks[0].content, "  text  ");
    let chunks = chunk_markdown("  text  \n\nnext", Options::empty());
    assert_eq!(chunks[0].content, "text");
}

#[test]
fn empty_document_has_no_chunks() {
    assert!(chunk_markdown("", Options::empty()).is_empty());
    assert!(chunk_markdown("\n\n   \n", Options::empty()).is_empty());
}

fn ev(event: Event, start: usize, end: usize) -> OffsetEvent {
    OffsetEvent { event, start, end }
}

#[test]
fn empty_chunks_skipped_without_gaps_in_indices() {
    let text = "ab   cd";
    let events = vec![
        ev(Event::Start(Tag::Paragraph), 0, 2),
        ev(Event::End(TagEnd::Paragraph), 0, 2),
        ev(Event::Start(Tag::Paragraph), 2, 5),
        ev(Event::End(TagEnd::Paragraph), 2, 5),
        ev(Event::Start(Tag::Paragraph), 5, 7),
        ev(Event::End(TagEnd::Paragraph), 5, 7),
    ];
    let chunks = chunk_events(text, &events, ChunkConfig::default());
    assert_eq!(chunks.len(), 2);
    assert_eq!(chunks[0].index, 0);
    assert_eq!(chunks[0].content, "ab");
    assert_eq!(chunks[1].index, 1);
    assert_eq!(chunks[1].content, "cd");
    let keep = ChunkConfig { include_empty: true, ..Default::default() };
    let chunks = chunk_events(text, &events, keep);
    assert_eq!(chunks.len(), 3);
    assert_eq!(chunks[1].content, "");
    assert_eq!(chunks[2].index, 2);
}

#[test]
fn mismatched_end_drops_the_span() {
    let text = "# x";
    let events = vec![
        ev(Event::Start(Tag::Paragraph), 0, 3),
        ev(Event::End(TagEnd::Heading(HeadingLevel::H1)), 0, 3),
    ];
    assert!(chunk_events(text, &events, ChunkConfig::default()).is_empty());
}

#[test]
fn out_of_bounds_range_gives_empty_content() {
    let text = "abc";
    let events = vec![ev(Event::Rule, 1, 10), ev(Event::Rule, 2, 1)];
    let keep = ChunkConfig { include_empty: true, ..Default::default() };
    let chunks = chunk_events(text, &events, keep);
    assert_eq!(chunks.len(), 2);
    assert_eq!(chunks[0].content, "");
    assert_eq!(chunks[1].content, "");
    assert_eq!(chunks[0].kind, ChunkKind::Rule);
}

#[test]
fn html_and_container_blocks_are_other() {
    let text = "<div>\n\n:::";
    let events = vec![
        ev(Event::Start(Tag::HtmlBlock), 0, 5),
        ev(Event::End(TagEnd::HtmlBlock), 0, 5),
        ev(Event::Start(Tag::DefinitionList), 7, 10),
        ev(Event::End(TagEnd::DefinitionList), 7, 10),
    ];
    let chunks = chunk_events(text, &events, ChunkConfig::default());
    assert_eq!(chunks.len(), 2);
    assert_eq!(chunks[0].kind, ChunkKind::Other);
    assert_eq!(chunks[0].content, "<div>");
    assert_eq!(chunks[1].kind, ChunkKind::DefinitionList);
}

#[test]
fn rechunking_gives_the_same_chunks() {
    let text = "# A\n\ntext\n\n> q\n\n- x\n- y\n\n---\n";
    let first = chunk_markdown(text, Options::empty());
    let second = chunk_markdown(text, Options::empty());
    assert_eq!(first, second);
}

#[test]
fn chunker_yields_one_at_a_time() {
    let mut c = Chunker::with_defaults("a\n\nb", Options::empty());
    let first = c.next_chunk().unwrap();
    assert_eq!(first.index, 0);
    assert_eq!(first.content, "a");
    let second = c.next_chunk().unwrap();
    assert_eq!(second.index, 1);
    assert_eq!(second.content, "b");
    assert!(c.next_chunk().is_none());
    assert!(c.next_chunk().is_none());
}

#[test]
fn engine_stream_is_balanced() {
    let text = "# A\n\ntext\nmore\n\n> q\n> r\n\n- x\n\n  y\n- z\n\n```\ncode\n```\n\n***\n";
    let events = parse_offsets(text, Options::empty());
    let mut stack: Vec<(TagEnd, usize, usize)> = Vec::new();
    for e in &events {
        assert!(e.start <= e.end && e.end <= text.len());
        if let Some(top) = stack.last() {
            assert!(top.1 <= e.start && e.end <= top.2);
        }
        match &e.event {
            Event::Start(t) => stack.push((t.to_end(), e.start, e.end)),
            Event::End(t) => assert_eq!(stack.pop(), Some((*t, e.start, e.end))),
            _ => {}
        }
    }
    assert!(stack.is_empty());
    let kinds: Vec<ChunkKind> = chunk_markdown(text, Options::empty()).iter().map(|c| c.kind).collect();
    assert_eq!(
        kinds,
        vec![
            ChunkKind::Heading(HeadingLevel::H1),
            ChunkKind::Paragraph,
            ChunkKind::BlockQuote,
            ChunkKind::List,
            ChunkKind::CodeBlock,
            ChunkKind::Rule
        ]
    );
}

#[test]
fn paragraph_rule_paragraph() {
    let chunks = chunk_markdown("a\n\n***\n\nb", Options::empty());
    let got: Vec<(usize, String, ChunkKind)> = chunks.iter().map(|c| (c.index, c.content.clone(), c.kind)).collect();
    assert_eq!(
        got,
        vec![
            (0, "a".to_string(), ChunkKind::Paragraph),
            (1, "***".to_string(), ChunkKind::Rule),
            (2, "b".to_string(), ChunkKind::Paragraph)
        ]
    );
}

#[test]
fn nested_constructs_give_one_entry() {
    let list = chunk_markdown("- a\n  - b", Options::empty());
    assert_eq!(list.len(), 1);
    assert_eq!(list[0].kind, ChunkKind::List);
    let quote = chunk_markdown("> p\n>\n> ---", Options::empty());
    assert_eq!(quote.len(), 1);
    assert_eq!(quote[0].kind, ChunkKind::BlockQuote);
}

#[test]
fn long_chinese_heading_is_cut_to_ten_characters() {
    let config = ChunkConfig { max_length: Some(10), ..Default::default() };
    let chunks = chunk_markdown_with_config("# 很长的标题内容很长很长", Options::empty(), config);
    assert_eq!(chunks.len(), 1);
    assert_eq!(chunks[0].content, "# 很长的标题内容很...");
    assert_eq!(chunks[0].kind, ChunkKind::Heading(HeadingLevel::H1));
}
