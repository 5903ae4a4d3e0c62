use cmark_chunk::chunk::{chunk_markdown, ChunkKind};
use cmark_chunk::engine::{grammar_of, parse_offsets};
use cmark_chunk::{
    Alignment, Event, MetadataBlockKind, Options, Tag, TagEnd, ENABLE_OLD_FOOTNOTES,
    ENABLE_PLUSES_DELIMITED_METADATA_BLOCKS, ENABLE_STRIKETHROUGH, ENABLE_SUBSCRIPT, ENABLE_TABLES,
    ENABLE_YAML_STYLE_METADATA_BLOCKS,
};

const TABLE: &str = "| a | b | c |\n|:--|:-:|--:|\n| 1 | 2 | 3 |\n| 4 | 5 | 6 |\n\nafter";

#[test]
fn table_needs_its_flag() {
    let with = chunk_markdown(TABLE, Options::from_bits_truncate(ENABLE_TABLES));
    assert_eq!(with.len(), 2);
    assert_eq!(with[0].kind, ChunkKind::Table);
    assert_eq!(with[0].content, "| a | b | c |\n|:--|:-:|--:|\n| 1 | 2 | 3 |\n| 4 | 5 | 6 |");
    assert_eq!(with[1].kind, ChunkKind::Paragraph);
    let without = chunk_markdown(TABLE, Options::empty());
    assert_eq!(without[0].kind, ChunkKind::Paragraph);
}

#[test]
fn table_events_carry_alignments_and_cells() {
    let events = parse_offsets(TABLE, Options::from_bits_truncate(ENABLE_TABLES));
    match &events[0].event {
        Event::Start(Tag::Table(a)) => {
            assert_eq!(a, &vec![Alignment::Left, Alignment::Center, Alignment::Right]);
        }
        other => panic!("{:?}", other),
    }
    let cells: Vec<String> = events
        .iter()
        .filter_map(|e| match &e.event {
            Event::Text(t) => Some(t.clone()),
            _ => None,
        })
        .collect();
    assert_eq!(cells[..9].to_vec(), vec!["a", "b", "c", "1", "2", "3", "4", "5", "6"]);
    let heads = events.iter().filter(|e| matches!(e.event, Event::End(TagEnd::TableHead))).count();
    let rows = events.iter().filter(|e| matches!(e.event, Event::End(TagEnd::TableRow))).count();
    assert_eq!((heads, rows), (1, 2));
}

#[test]
fn yaml_metadata_block() {
    let text = "---\ntitle: x\n---\n\n# H";
    let chunks = chunk_markdown(text, Options::from_bits_truncate(ENABLE_YAML_STYLE_METADATA_BLOCKS));
    assert_eq!(chunks.len(), 2);
    assert_eq!(chunks[0].kind, ChunkKind::Metadata);
    assert_eq!(chunks[0].content, "---\ntitle: x\n---");
    let events = parse_offsets(text, Options::from_bits_truncate(ENABLE_YAML_STYLE_METADATA_BLOCKS));
    assert!(matches!(events[0].event, Event::Start(Tag::MetadataBlock(MetadataBlockKind::YamlStyle))));
    let plain = chunk_markdown(text, Options::empty());
    assert_eq!(plain[0].kind, ChunkKind::Rule);
}

#[test]
fn pluses_metadata_block() {
    let text = "+++\na = 1\n+++\ntext";
    let chunks = chunk_markdown(text, Options::from_bits_truncate(ENABLE_PLUSES_DELIMITED_METADATA_BLOCKS));
    assert_eq!(chunks[0].kind, ChunkKind::Metadata);
    assert_eq!(chunks[1].content, "text");
}

#[test]
fn grammar_resolves_flag_interactions() {
    let g = grammar_of(Options::from_bits_truncate(ENABLE_STRIKETHROUGH));
    assert!(g.strikethrough && g.tilde_strikethrough && !g.tilde_subscript);
    let g = grammar_of(Options::from_bits_truncate(ENABLE_STRIKETHROUGH | ENABLE_SUBSCRIPT));
    assert!(g.strikethrough && !g.tilde_strikethrough && g.tilde_subscript);
    let g = grammar_of(Options::from_bits_truncate(ENABLE_OLD_FOOTNOTES));
    assert!(g.footnotes && g.old_footnotes);
    let g = grammar_of(Options::empty());
    assert!(!g.tables && !g.footnotes && !g.yaml_metadata);
}

#[test]
fn footnote_definition_and_reference() {
    let text = "Text[^n] here.\n\n[^n]: The note.\n";
    let opts = Options::from_bits_truncate(cmark_chunk::ENABLE_FOOTNOTES);
    let chunks = chunk_markdown(text, opts);
    assert_eq!(chunks.len(), 2);
    assert_eq!(chunks[0].kind, ChunkKind::Paragraph);
    assert_eq!(chunks[1].kind, ChunkKind::Footnote);
    assert_eq!(chunks[1].content, "[^n]: The note.");
    let events = parse_offsets(text, opts);
    let refs: Vec<(String, usize, usize)> = events
        .iter()
        .filter_map(|e| match &e.event {
            Event::FootnoteReference(l) => Some((l.clone(), e.start, e.end)),
            _ => None,
        })
        .collect();
    assert_eq!(refs, vec![("n".to_string(), 4, 8)]);
    assert!(events.iter().any(|e| matches!(&e.event, Event::Start(Tag::FootnoteDefinition(l)) if l == "n")));
    let plain = chunk_markdown(text, Options::empty());
    assert_eq!(plain.len(), 1);
}

fn span_tags(text: &str, bits: u32) -> Vec<(TagEnd, String)> {
    let events = parse_offsets(text, Options::from_bits_truncate(bits));
    let mut out = Vec::new();
    for (k, e) in events.iter().enumerate() {
        if let Event::Start(t) = &e.event {
            if matches!(t, Tag::Strikethrough | Tag::Subscript | Tag::Superscript) {
                if let Event::Text(inner) = &events[k + 1].event {
                    out.push((t.to_end(), inner.clone()));
                }
            }
        }
    }
    out
}

#[test]
fn single_tilde_depends_on_subscript_flag() {
    let text = "a ~~b~~ c ~d~ e";
    assert_eq!(
        span_tags(text, ENABLE_STRIKETHROUGH),
        vec![(TagEnd::Strikethrough, "b".to_string()), (TagEnd::Strikethrough, "d".to_string())]
    );
    assert_eq!(
        span_tags(text, ENABLE_STRIKETHROUGH | ENABLE_SUBSCRIPT),
        vec![(TagEnd::Strikethrough, "b".to_string()), (TagEnd::Subscript, "d".to_string())]
    );
    assert_eq!(span_tags(text, 0), vec![]);
    assert_eq!(
        span_tags("x^2^", cmark_chunk::ENABLE_SUPERSCRIPT),
        vec![(TagEnd::Superscript, "2".to_string())]
    );
}
