//! Chunker: splits a document into its top-level blocks, each with its kind,
//! its source text and a sequential index.
use vstd::prelude::*;
use vstd::string::*;
use crate::{end_of, Event, HeadingLevel, Options, Tag, TagEnd};
use crate::engine::{block_infos, blocks_layout, grammar_spec, Grammar, parse_offsets, well_formed, BlockSpan, LinkDef, OffsetEvent};
use crate::text::{
    decoded_range, is_str_range, lemma_line_range_is_str, limit_str, limited, slice_str, trim_str,
    trimmed,
};
use vstd::utf8::valid_utf8;
use crate::lines::blocks_from;

verus! {

/// One top-level block of a document.
#[derive(Clone, Debug, PartialEq)]
pub struct Chunk {
    /// Position of the chunk among those yielded, from 0.
    pub index: usize,
    /// Source text of the block, after the formatting and length policy.
    pub content: String,
    pub kind: ChunkKind,
}

/// Kind of a chunk.
#[derive(Clone, Copy, Debug, PartialEq, Eq, Structural)]
pub enum ChunkKind {
    Heading(HeadingLevel),
    Paragraph,
    CodeBlock,
    BlockQuote,
    List,
    Table,
    Rule,
    Metadata,
    Footnote,
    DefinitionList,
    /// HTML blocks, container blocks and anything else.
    Other,
}

/// The stable label of a chunk kind.
pub open spec fn kind_label(k: ChunkKind) -> Seq<char> {
    match k {
        ChunkKind::Heading(_) => "heading"@,
        ChunkKind::Paragraph => "paragraph"@,
        ChunkKind::CodeBlock => "code_block"@,
        ChunkKind::BlockQuote => "blockquote"@,
        ChunkKind::List => "list"@,
        ChunkKind::Table => "table"@,
        ChunkKind::Rule => "rule"@,
        ChunkKind::Metadata => "metadata"@,
        ChunkKind::Footnote => "footnote"@,
        ChunkKind::DefinitionList => "definition_list"@,
        ChunkKind::Other => "other"@,
    }
}

impl ChunkKind {
    pub fn as_str(&self) -> (r: &'static str)
        ensures
            r@ == kind_label(*self),
    {
        match self {
            ChunkKind::Heading(_) => {
                proof { reveal_strlit("heading"); }
                "heading"
            },
            ChunkKind::Paragraph => {
                proof { reveal_strlit("paragraph"); }
                "paragraph"
            },
            ChunkKind::CodeBlock => {
                proof { reveal_strlit("code_block"); }
                "code_block"
            },
            ChunkKind::BlockQuote => {
                proof { reveal_strlit("blockquote"); }
                "blockquote"
            },
            ChunkKind::List => {
                proof { reveal_strlit("list"); }
                "list"
            },
            ChunkKind::Table => {
                proof { reveal_strlit("table"); }
                "table"
            },
            ChunkKind::Rule => {
                proof { reveal_strlit("rule"); }
                "rule"
            },
            ChunkKind::Metadata => {
                proof { reveal_strlit("metadata"); }
                "metadata"
            },
            ChunkKind::Footnote => {
                proof { reveal_strlit("footnote"); }
                "footnote"
            },
            ChunkKind::DefinitionList => {
                proof { reveal_strlit("definition_list"); }
                "definition_list"
            },
            ChunkKind::Other => {
                proof { reveal_strlit("other"); }
                "other"
            },
        }
    }
}

/// Policy applied to the text of each chunk.
#[derive(Clone, Copy, Debug)]
pub struct ChunkConfig {
    /// Keep the source text as it is; otherwise trim its surrounding whitespace.
    pub preserve_formatting: bool,
    /// Longest content in characters; longer content is cut and gets `...`.
    pub max_length: Option<usize>,
    /// Yield chunks whose content is empty.
    pub include_empty: bool,
}

impl Default for ChunkConfig {
    fn default() -> (r: ChunkConfig)
        ensures
            !r.preserve_formatting,
            r.max_length is None,
            !r.include_empty,
    {
        ChunkConfig { preserve_formatting: false, max_length: None, include_empty: false }
    }
}

/// A top-level block found in the event stream: its byte range and kind.
#[derive(Clone, Copy, Debug, PartialEq, Eq, Structural)]
pub struct ChunkInfo {
    pub start: usize,
    pub end: usize,
    pub kind: ChunkKind,
}

/// The tags that open a top-level block.
pub open spec fn is_block_tag_spec(t: Tag) -> bool {
    ||| t is Paragraph
    ||| t is Heading
    ||| t is BlockQuote
    ||| t is CodeBlock
    ||| t is HtmlBlock
    ||| t is List
    ||| t is FootnoteDefinition
    ||| t is MetadataBlock
    ||| t is Table
    ||| t is DefinitionList
    ||| t is ContainerBlock
}

/// The chunk kind of a block tag.
pub open spec fn kind_of(t: Tag) -> ChunkKind {
    match t {
        Tag::Heading { level, .. } => ChunkKind::Heading(level),
        Tag::Paragraph => ChunkKind::Paragraph,
        Tag::BlockQuote(_) => ChunkKind::BlockQuote,
        Tag::CodeBlock(_) => ChunkKind::CodeBlock,
        Tag::List(_) => ChunkKind::List,
        Tag::FootnoteDefinition(_) => ChunkKind::Footnote,
        Tag::MetadataBlock(_) => ChunkKind::Metadata,
        Tag::Table(_) => ChunkKind::Table,
        Tag::DefinitionList => ChunkKind::DefinitionList,
        _ => ChunkKind::Other,
    }
}

/// State of the chunk scan: the nesting depth, the pending top-level openers
/// (index of the start event and its start offset), and the blocks found.
pub type ScanState = (int, Seq<(usize, usize)>, Seq<ChunkInfo>);

/// The scan state after the event `evs[i]`, given the state before it.
pub open spec fn chunk_step(evs: Seq<OffsetEvent>, st: ScanState, i: int) -> ScanState {
    let ev = evs[i];
    let (depth, stack, found) = st;
    match ev.event {
        Event::Start(t) => (
            depth + 1,
            if depth == 0 && is_block_tag_spec(t) {
                stack.push((i as usize, ev.start))
            } else {
                stack
            },
            found,
        ),
        Event::End(e) => {
            let d = if depth > 0 {
                depth - 1
            } else {
                0
            };
            if d == 0 && stack.len() > 0 {
                let (j, s) = stack.last();
                let closed = match evs[j as int].event {
                    Event::Start(t) => if is_block_tag_spec(t) && end_of(t) == e {
                        found.push(ChunkInfo { start: s, end: ev.end, kind: kind_of(t) })
                    } else {
                        found
                    },
                    _ => found,
                };
                (d, stack.drop_last(), closed)
            } else {
                (d, stack, found)
            }
        },
        Event::Rule => (
            depth,
            stack,
            if depth == 0 {
                found.push(ChunkInfo { start: ev.start, end: ev.end, kind: ChunkKind::Rule })
            } else {
                found
            },
        ),
        _ => st,
    }
}

/// The scan state after the first `n` events.
pub open spec fn chunk_scan(evs: Seq<OffsetEvent>, n: int) -> ScanState
    decreases n,
{
    if n <= 0 || n > evs.len() {
        (0, Seq::empty(), Seq::empty())
    } else {
        chunk_step(evs, chunk_scan(evs, n - 1), n - 1)
    }
}

/// The top-level blocks of an event stream, in order.
pub open spec fn chunk_infos(evs: Seq<OffsetEvent>) -> Seq<ChunkInfo> {
    chunk_scan(evs, evs.len() as int).2
}

/// The content of the block `info` of a source whose bytes are `bytes`.
pub open spec fn chunk_text(bytes: Seq<u8>, info: ChunkInfo, config: ChunkConfig) -> Seq<char> {
    if info.start >= info.end || !is_str_range(bytes, info.start as int, info.end as int) {
        Seq::empty()
    } else {
        let raw = decoded_range(bytes, info.start as int, info.end as int);
        limited(
            if config.preserve_formatting {
                raw
            } else {
                trimmed(raw)
            },
            config.max_length,
        )
    }
}

/// The kind and content of each chunk yielded from the first `n` blocks of
/// `infos`: a block with empty content is skipped unless the policy keeps it.
pub open spec fn yielded(
    bytes: Seq<u8>,
    infos: Seq<ChunkInfo>,
    config: ChunkConfig,
    n: int,
) -> Seq<(ChunkKind, Seq<char>)>
    decreases n,
{
    if n <= 0 || n > infos.len() {
        Seq::empty()
    } else {
        let before = yielded(bytes, infos, config, n - 1);
        let c = chunk_text(bytes, infos[n - 1], config);
        if config.include_empty || c.len() > 0 {
            before.push((infos[n - 1].kind, c))
        } else {
            before
        }
    }
}

/// `out` is the chunk sequence of the blocks `infos`: one chunk per yielded
/// block, with its kind and content, indexed from 0 with no gap.
pub open spec fn chunks_match(
    out: Seq<Chunk>,
    bytes: Seq<u8>,
    infos: Seq<ChunkInfo>,
    config: ChunkConfig,
) -> bool {
    let y = yielded(bytes, infos, config, infos.len() as int);
    &&& out.len() == y.len()
    &&& forall|i: int|
        0 <= i < out.len() ==> {
            &&& (#[trigger] out[i]).index == i
            &&& out[i].kind == y[i].0
            &&& out[i].content@ == y[i].1
        }
}

/// Laws of [`yielded`]: it only grows with `n`, by at most one chunk per block.
proof fn lemma_yielded_prefix(bytes: Seq<u8>, infos: Seq<ChunkInfo>, config: ChunkConfig, m: int, n: int)
    requires
        0 <= m <= n <= infos.len(),
    ensures
        yielded(bytes, infos, config, m).len() <= yielded(bytes, infos, config, n).len(),
        yielded(bytes, infos, config, n).len() <= n,
        forall|i: int|
            0 <= i < yielded(bytes, infos, config, m).len() ==> #[trigger] yielded(
                bytes,
                infos,
                config,
                n,
            )[i] == yielded(bytes, infos, config, m)[i],
    decreases n,
{
    if m < n {
        lemma_yielded_prefix(bytes, infos, config, m, n - 1);
    } else if n > 0 {
        lemma_yielded_prefix(bytes, infos, config, n - 1, n - 1);
    }
}

/// Chunks of a document, yielded one at a time.
#[derive(Debug)]
pub struct Chunker<'a> {
    text: &'a str,
    config: ChunkConfig,
    chunks: Vec<ChunkInfo>,
    current: usize,
    emitted: usize,
}

impl<'a> Chunker<'a> {
    /// The source text.
    pub closed spec fn source(&self) -> Seq<u8> {
        self.text.spec_bytes()
    }

    /// The policy.
    pub closed spec fn policy(&self) -> ChunkConfig {
        self.config
    }

    /// The top-level blocks of the source, in order.
    pub closed spec fn blocks(&self) -> Seq<ChunkInfo> {
        self.chunks@
    }

    /// How many chunks have been yielded so far.
    pub closed spec fn emitted_count(&self) -> nat {
        self.emitted as nat
    }

    /// The kind and content of every chunk this chunker yields, from the first.
    pub open spec fn all_chunks(&self) -> Seq<(ChunkKind, Seq<char>)> {
        yielded(self.source(), self.blocks(), self.policy(), self.blocks().len() as int)
    }

    /// The internal invariant: the blocks before the cursor gave the chunks
    /// yielded so far.
    pub closed spec fn wf(&self) -> bool {
        &&& self.current <= self.chunks@.len()
        &&& self.emitted == yielded(self.text.spec_bytes(), self.chunks@, self.config, self.current as int).len()
    }

    /// A chunker over `text`, whose blocks are those of the event stream of `text`.
    pub fn new(text: &'a str, options: Options, config: ChunkConfig) -> (r: Chunker<'a>)
        ensures
            r.wf(),
            r.source() == text.spec_bytes(),
            r.policy() == config,
            r.emitted_count() == 0,
            exists|blocks: Seq<BlockSpan>, defs: Seq<LinkDef>|
                blocks_layout(text.spec_bytes(), blocks, defs) && r.blocks() == block_infos(blocks),
            r.blocks() == blocks_from(text.spec_bytes(), grammar_spec(options), 0),
    {
        let chunks = Self::extract_chunks(text, options);
        Chunker { text, config, chunks, current: 0, emitted: 0 }
    }

    /// A chunker over `text` with the default policy.
    pub fn with_defaults(text: &'a str, options: Options) -> (r: Chunker<'a>)
        ensures
            r.wf(),
            r.source() == text.spec_bytes(),
            !r.policy().preserve_formatting,
            r.policy().max_length is None,
            !r.policy().include_empty,
            r.emitted_count() == 0,
            exists|blocks: Seq<BlockSpan>, defs: Seq<LinkDef>|
                blocks_layout(text.spec_bytes(), blocks, defs) && r.blocks() == block_infos(blocks),
            r.blocks() == blocks_from(text.spec_bytes(), grammar_spec(options), 0),
    {
        Self::new(text, options, ChunkConfig::default())
    }

    /// A chunker over the blocks of the given event stream of `text`.
    pub fn from_events(text: &'a str, events: &Vec<OffsetEvent>, config: ChunkConfig) -> (r: Chunker<'a>)
        ensures
            r.wf(),
            r.source() == text.spec_bytes(),
            r.policy() == config,
            r.emitted_count() == 0,
            r.blocks() == chunk_infos(events@),
    {
        let chunks = Self::scan_chunks(events);
        Chunker { text, config, chunks, current: 0, emitted: 0 }
    }

    /// The top-level blocks of the event stream of `text`.
    fn extract_chunks(text: &str, options: Options) -> (r: Vec<ChunkInfo>)
        ensures
            exists|blocks: Seq<BlockSpan>, defs: Seq<LinkDef>|
                blocks_layout(text.spec_bytes(), blocks, defs) && r@ == block_infos(blocks),
            r@ == blocks_from(text.spec_bytes(), grammar_spec(options), 0),
    {
        let events = parse_offsets(text, options);
        Self::scan_chunks(&events)
    }

    /// The top-level blocks of `events`, found with a depth counter and a
    /// stack of pending openers.
    fn scan_chunks(events: &Vec<OffsetEvent>) -> (r: Vec<ChunkInfo>)
        ensures
            r@ == chunk_infos(events@),
    {
        let ghost evs = events@;
        let mut chunks: Vec<ChunkInfo> = Vec::new();
        let mut depth: usize = 0;
        let mut stack: Vec<(usize, usize)> = Vec::new();
        let mut i: usize = 0;
        while i < events.len()
            invariant
                evs == events@,
                i <= evs.len(),
                depth <= i,
                chunk_scan(evs, i as int) == (depth as int, stack@, chunks@),
                forall|k: int| 0 <= k < stack@.len() ==> (#[trigger] stack@[k]).0 < i,
            decreases evs.len() - i,
        {
            let ev = &events[i];
            match &ev.event {
                Event::Start(tag) => {
                    if depth == 0 && Self::is_block_tag(tag) {
                        stack.push((i, ev.start));
                    }
                    depth = depth + 1;
                },
                Event::End(tag_end) => {
                    if depth > 0 {
                        depth = depth - 1;
                    }
                    if depth == 0 && stack.len() > 0 {
                        let ghost before = stack@;
                        let (j, start) = stack.pop().unwrap();
                        proof {
                            assert(before.last() == (j, start));
                            assert(stack@ == before.drop_last());
                        }
                        match &events[j].event {
                            Event::Start(open) => {
                                if Self::tags_match(open, tag_end) {
                                    chunks.push(
                                        ChunkInfo { start, end: ev.end, kind: Self::tag_to_kind(open) },
                                    );
                                }
                            },
                            _ => {},
                        }
                    }
                },
                Event::Rule => {
                    if depth == 0 {
                        chunks.push(ChunkInfo { start: ev.start, end: ev.end, kind: ChunkKind::Rule });
                    }
                },
                _ => {},
            }
            i = i + 1;
        }
        chunks
    }

    /// Whether `tag` opens a top-level block.
    fn is_block_tag(tag: &Tag) -> (r: bool)
        ensures
            r == is_block_tag_spec(*tag),
    {
        match tag {
            Tag::Paragraph | Tag::Heading { .. } | Tag::BlockQuote(_) | Tag::CodeBlock(_)
            | Tag::HtmlBlock | Tag::List(_) | Tag::FootnoteDefinition(_) | Tag::MetadataBlock(_)
            | Tag::Table(_) | Tag::DefinitionList | Tag::ContainerBlock(_, _) => true,
            _ => false,
        }
    }

    /// Whether `start` opens a top-level block and `end` is its closing marker.
    fn tags_match(start: &Tag, end: &TagEnd) -> (r: bool)
        ensures
            r == (is_block_tag_spec(*start) && end_of(*start) == *end),
    {
        Self::is_block_tag(start) && start.to_end() == *end
    }

    /// The chunk kind of a block tag.
    fn tag_to_kind(tag: &Tag) -> (r: ChunkKind)
        ensures
            r == kind_of(*tag),
    {
        match tag {
            Tag::Heading { level, .. } => ChunkKind::Heading(*level),
            Tag::Paragraph => ChunkKind::Paragraph,
            Tag::BlockQuote(_) => ChunkKind::BlockQuote,
            Tag::CodeBlock(_) => ChunkKind::CodeBlock,
            Tag::HtmlBlock => ChunkKind::Other,
            Tag::List(_) => ChunkKind::List,
            Tag::FootnoteDefinition(_) => ChunkKind::Footnote,
            Tag::MetadataBlock(_) => ChunkKind::Metadata,
            Tag::Table(_) => ChunkKind::Table,
            Tag::DefinitionList => ChunkKind::DefinitionList,
            Tag::ContainerBlock(_, _) => ChunkKind::Other,
            _ => ChunkKind::Other,
        }
    }

    /// The content of the block `chunk` under the policy.
    fn extract_content(&self, chunk: &ChunkInfo) -> (r: String)
        ensures
            r@ == chunk_text(self.text.spec_bytes(), *chunk, self.config),
    {
        if chunk.start >= chunk.end {
            return String::new();
        }
        match slice_str(self.text, chunk.start, chunk.end) {
            None => String::new(),
            Some(raw) => {
                let processed = if self.config.preserve_formatting {
                    raw
                } else {
                    trim_str(raw)
                };
                limit_str(processed, self.config.max_length)
            },
        }
    }

    /// The next chunk, or `None` once every chunk has been yielded.
    pub fn next_chunk(&mut self) -> (r: Option<Chunk>)
        requires
            old(self).wf(),
        ensures
            final(self).wf(),
            final(self).source() == old(self).source(),
            final(self).policy() == old(self).policy(),
            final(self).blocks() == old(self).blocks(),
            r is None <==> old(self).emitted_count() == old(self).all_chunks().len(),
            r is None ==> final(self).emitted_count() == old(self).emitted_count(),
            r matches Some(c) ==> {
                &&& c.index == old(self).emitted_count()
                &&& c.index < old(self).all_chunks().len()
                &&& c.kind == old(self).all_chunks()[c.index as int].0
                &&& c.content@ == old(self).all_chunks()[c.index as int].1
                &&& final(self).emitted_count() == old(self).emitted_count() + 1
            },
    {
        let ghost bytes = self.text.spec_bytes();
        let ghost n = self.chunks@.len() as int;
        proof {
            lemma_yielded_prefix(bytes, self.chunks@, self.config, self.current as int, n);
        }
        while self.current < self.chunks.len()
            invariant
                self.wf(),
                bytes == self.text.spec_bytes(),
                n == self.chunks@.len(),
                self.text == old(self).text,
                self.config == old(self).config,
                self.chunks == old(self).chunks,
                self.emitted == old(self).emitted,
                yielded(bytes, self.chunks@, self.config, self.current as int).len()
                    <= yielded(bytes, self.chunks@, self.config, n).len(),
            decreases n - self.current,
        {
            let content = self.extract_content(&self.chunks[self.current]);
            let kind = self.chunks[self.current].kind;
            proof {
                lemma_yielded_prefix(bytes, self.chunks@, self.config, self.current as int + 1, n);
            }
            if self.config.include_empty || !content.as_str().is_empty() {
                let chunk = Chunk { index: self.emitted, content, kind };
                self.current = self.current + 1;
                self.emitted = self.emitted + 1;
                return Some(chunk);
            }
            self.current = self.current + 1;
        }
        None
    }

    /// Every chunk, in order, from a chunker that has yielded none yet.
    pub fn collect_chunks(&mut self) -> (r: Vec<Chunk>)
        requires
            old(self).wf(),
            old(self).emitted_count() == 0,
        ensures
            chunks_match(r@, old(self).source(), old(self).blocks(), old(self).policy()),
    {
        let ghost all = self.all_chunks();
        let mut out: Vec<Chunk> = Vec::new();
        loop
            invariant
                self.wf(),
                self.source() == old(self).source(),
                self.policy() == old(self).policy(),
                self.blocks() == old(self).blocks(),
                all == self.all_chunks(),
                out@.len() == self.emitted_count(),
                self.emitted_count() <= all.len(),
                forall|i: int|
                    0 <= i < out@.len() ==> {
                        &&& (#[trigger] out@[i]).index == i
                        &&& out@[i].kind == all[i].0
                        &&& out@[i].content@ == all[i].1
                    },
            ensures
                out@.len() == all.len(),
            decreases all.len() - self.emitted_count(),
        {
            match self.next_chunk() {
                Some(c) => {
                    out.push(c);
                },
                None => {
                    break;
                },
            }
        }
        out
    }
}

/// The chunks of `text` under the default policy.
pub fn chunk_markdown(text: &str, options: Options) -> (r: Vec<Chunk>)
    ensures
        exists|blocks: Seq<BlockSpan>, defs: Seq<LinkDef>|
            blocks_layout(text.spec_bytes(), blocks, defs) && chunks_match(
                r@,
                text.spec_bytes(),
                block_infos(blocks),
                ChunkConfig { preserve_formatting: false, max_length: None, include_empty: false },
            ),
        chunks_match(
            r@,
            text.spec_bytes(),
            blocks_from(text.spec_bytes(), grammar_spec(options), 0),
            ChunkConfig { preserve_formatting: false, max_length: None, include_empty: false },
        ),
{
    let mut c = Chunker::with_defaults(text, options);
    assert(c.policy() == ChunkConfig { preserve_formatting: false, max_length: None, include_empty: false });
    c.collect_chunks()
}

/// The chunks of `text` under `config`.
pub fn chunk_markdown_with_config(text: &str, options: Options, config: ChunkConfig) -> (r: Vec<Chunk>)
    ensures
        exists|blocks: Seq<BlockSpan>, defs: Seq<LinkDef>|
            blocks_layout(text.spec_bytes(), blocks, defs) && chunks_match(
                r@,
                text.spec_bytes(),
                block_infos(blocks),
                config,
            ),
        chunks_match(
            r@,
            text.spec_bytes(),
            blocks_from(text.spec_bytes(), grammar_spec(options), 0),
            config,
        ),
{
    let mut c = Chunker::new(text, options, config);
    c.collect_chunks()
}

/// The chunks of `text` read from the event stream `events`.
pub fn chunk_events(text: &str, events: &Vec<OffsetEvent>, config: ChunkConfig) -> (r: Vec<Chunk>)
    ensures
        chunks_match(r@, text.spec_bytes(), chunk_infos(events@), config),
{
    let mut c = Chunker::from_events(text, events, config);
    c.collect_chunks()
}

/// How many of the first `n` blocks of `infos` have non-empty content.
pub open spec fn nonempty_count(bytes: Seq<u8>, infos: Seq<ChunkInfo>, config: ChunkConfig, n: int) -> int
    decreases n,
{
    if n <= 0 || n > infos.len() {
        0
    } else {
        nonempty_count(bytes, infos, config, n - 1) + if chunk_text(bytes, infos[n - 1], config).len()
            > 0 {
            1int
        } else {
            0int
        }
    }
}

proof fn lemma_yielded_nonempty(bytes: Seq<u8>, infos: Seq<ChunkInfo>, config: ChunkConfig, n: int)
    requires
        0 <= n <= infos.len(),
        !config.include_empty,
    ensures
        yielded(bytes, infos, config, n).len() == nonempty_count(bytes, infos, config, n),
        forall|i: int|
            0 <= i < yielded(bytes, infos, config, n).len() ==> (#[trigger] yielded(
                bytes,
                infos,
                config,
                n,
            )[i]).1.len() > 0,
    decreases n,
{
    if n > 0 {
        lemma_yielded_nonempty(bytes, infos, config, n - 1);
    }
}

/// Chunking one event stream of one text twice under one policy yields the
/// same chunks: same count, and at each position the same index, kind and
/// content.
pub proof fn lemma_rechunk_identical(
    bytes: Seq<u8>,
    infos: Seq<ChunkInfo>,
    config: ChunkConfig,
    first: Seq<Chunk>,
    second: Seq<Chunk>,
)
    requires
        chunks_match(first, bytes, infos, config),
        chunks_match(second, bytes, infos, config),
    ensures
        first.len() == second.len(),
        forall|i: int|
            0 <= i < first.len() ==> {
                &&& (#[trigger] first[i]).index == second[i].index
                &&& first[i].kind == second[i].kind
                &&& first[i].content@ == second[i].content@
            },
{
    assert forall|i: int| 0 <= i < first.len() implies {
        &&& (#[trigger] first[i]).index == second[i].index
        &&& first[i].kind == second[i].kind
        &&& first[i].content@ == second[i].content@
    } by {
        assert(second[i].index == i);
    }
}

/// Where empty chunks are skipped, the indices of the chunks are exactly
/// `0..k`, where `k` is the number of blocks whose content is not empty, and
/// every chunk has content.
pub proof fn lemma_dense_indexing(
    out: Seq<Chunk>,
    bytes: Seq<u8>,
    infos: Seq<ChunkInfo>,
    config: ChunkConfig,
)
    requires
        chunks_match(out, bytes, infos, config),
        !config.include_empty,
    ensures
        out.len() == nonempty_count(bytes, infos, config, infos.len() as int),
        forall|i: int| 0 <= i < out.len() ==> (#[trigger] out[i]).index == i,
        forall|i: int| 0 <= i < out.len() ==> (#[trigger] out[i]).content@.len() > 0,
{
    lemma_yielded_nonempty(bytes, infos, config, infos.len() as int);
    let y = yielded(bytes, infos, config, infos.len() as int);
    assert forall|i: int| 0 <= i < out.len() implies (#[trigger] out[i]).content@.len() > 0 by {
        assert(y[i].1.len() > 0);
    }
}

/// The scan state after the first `n` events does not depend on the events
/// after them, and every pending opener is one of those `n` events.
pub proof fn lemma_chunk_scan_prefix(evs: Seq<OffsetEvent>, e: OffsetEvent, n: int)
    requires
        0 <= n <= evs.len(),
        evs.len() < usize::MAX,
    ensures
        chunk_scan(evs.push(e), n) == chunk_scan(evs, n),
        forall|k: int|
            0 <= k < chunk_scan(evs, n).1.len() ==> (#[trigger] chunk_scan(evs, n).1[k]).0 < n,
    decreases n,
{
    if n > 0 {
        lemma_chunk_scan_prefix(evs, e, n - 1);
        assert(evs.push(e)[n - 1] == evs[n - 1]);
        let st = chunk_scan(evs, n - 1);
        if st.1.len() > 0 {
            let j = st.1.last().0;
            assert(st.1[st.1.len() - 1].0 < n - 1);
            assert(evs.push(e)[j as int] == evs[j as int]);
        }
    }
}

/// In the block layout of a valid UTF-8 source, every block's byte range
/// falls on character boundaries, so its content is taken from the source
/// and never left empty on that account.
pub proof fn lemma_blocks_on_char_boundaries(bytes: Seq<u8>, blocks: Seq<BlockSpan>, defs: Seq<LinkDef>)
    requires
        valid_utf8(bytes),
        blocks_layout(bytes, blocks, defs),
    ensures
        forall|i: int|
            0 <= i < blocks.len() ==> is_str_range(
                bytes,
                (#[trigger] blocks[i]).start as int,
                blocks[i].end as int,
            ),
{
    assert forall|i: int| 0 <= i < blocks.len() implies is_str_range(
        bytes,
        (#[trigger] blocks[i]).start as int,
        blocks[i].end as int,
    ) by {
        lemma_line_range_is_str(bytes, blocks[i].start as int, blocks[i].end as int);
    }
}

/// The chunks of a text under a grammar and a policy are fixed by the text:
/// two results of `chunk_markdown_with_config` on the same text, flags and
/// policy are the same chunks.
pub proof fn lemma_chunking_deterministic(
    bytes: Seq<u8>,
    grammar: Grammar,
    config: ChunkConfig,
    first: Seq<Chunk>,
    second: Seq<Chunk>,
)
    requires
        chunks_match(first, bytes, blocks_from(bytes, grammar, 0), config),
        chunks_match(second, bytes, blocks_from(bytes, grammar, 0), config),
    ensures
        first.len() == second.len(),
        forall|i: int|
            0 <= i < first.len() ==> {
                &&& (#[trigger] first[i]).index == second[i].index
                &&& first[i].kind == second[i].kind
                &&& first[i].content@ == second[i].content@
            },
{
    lemma_rechunk_identical(bytes, blocks_from(bytes, grammar, 0), config, first, second);
}

} // verus!
