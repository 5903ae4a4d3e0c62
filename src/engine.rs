//! Block scanner: turns source text into a well-formed stream of events, each
//! with the byte range of the source that it covers.
//!
//! The scan has two phases. The first walks the lines and records each
//! top-level block as a [`BlockSpan`]; the second emits the events of each
//! block, opening and closing every construct it starts.
use vstd::prelude::*;
use crate::{
    end_of, has_flag, is_reference_kind, Alignment, CodeBlockKind, Event, HeadingLevel, LinkType,
    MetadataBlockKind, Options, Tag, TagEnd, ENABLE_CONTAINER_EXTENSIONS, ENABLE_DEFINITION_LIST,
    ENABLE_FOOTNOTES, ENABLE_GFM, ENABLE_HEADING_ATTRIBUTES, ENABLE_MATH, ENABLE_OLD_FOOTNOTES,
    ENABLE_PLUSES_DELIMITED_METADATA_BLOCKS, ENABLE_SMART_PUNCTUATION, ENABLE_STRIKETHROUGH,
    ENABLE_SUBSCRIPT, ENABLE_SUPERSCRIPT, ENABLE_TABLES, ENABLE_TASKLISTS, ENABLE_WIKILINKS,
    ENABLE_YAML_STYLE_METADATA_BLOCKS,
};
use crate::text::slice_str;
use crate::lines::{
    atx_of, blank_line, blanks_from, close_from, digits_from, fence_of, hashes_from, indent_from,
    is_def_line, line_end_from, marker_of, next_line_of, rule_from, rule_of, run_from, setext_of,
    starts_block_of, word_from, fenced_from, indented_from, paragraph_from, quote_from,
    skip_blank_lines, list_from, level_of, block_at, blocks_from, delim_line_of, metadata_from,
    footnote_ref_end, is_footnote_line, trim_back, cell_end_from, row_bounds_of, pipes_from,
    dashes_from, delim_cells, delim_row_of, table_rows_from, table_of,
};
use crate::chunk::{chunk_infos, chunk_scan, chunk_step, is_block_tag_spec, kind_of, lemma_chunk_scan_prefix, ChunkInfo, ChunkKind};
use vstd::string::*;

verus! {

/// An event with the half-open byte range `start..end` of the source it covers.
#[derive(Clone, Debug)]
pub struct OffsetEvent {
    pub event: Event,
    pub start: usize,
    pub end: usize,
}

/// Whether the range `s..e` lies in a source of `len` bytes and inside the
/// innermost open construct of `frames`, if any.
pub open spec fn fits(frames: Seq<(TagEnd, int, int)>, s: int, e: int, len: int) -> bool {
    &&& 0 <= s <= e <= len
    &&& frames.len() > 0 ==> frames.last().1 <= s && e <= frames.last().2
}

/// The open constructs after `ev`, given those before it; `None` once the
/// stream has gone wrong. A start opens a frame holding the closing marker it
/// expects and its range; an end must close the innermost frame with that
/// very marker and range.
pub open spec fn step(
    frames: Option<Seq<(TagEnd, int, int)>>,
    ev: OffsetEvent,
    len: int,
) -> Option<Seq<(TagEnd, int, int)>> {
    match frames {
        None => None,
        Some(fr) => if !fits(fr, ev.start as int, ev.end as int, len) {
            None
        } else {
            match ev.event {
                Event::Start(t) => Some(fr.push((end_of(t), ev.start as int, ev.end as int))),
                Event::End(e) => if fr.len() > 0 && fr.last() == (e, ev.start as int, ev.end as int) {
                    Some(fr.drop_last())
                } else {
                    None
                },
                _ => Some(fr),
            }
        },
    }
}

/// The constructs left open after the events `evs`, read from the first on.
pub open spec fn open_frames(evs: Seq<OffsetEvent>, len: int) -> Option<Seq<(TagEnd, int, int)>>
    decreases evs.len(),
{
    if evs.len() == 0 {
        Some(Seq::empty())
    } else {
        step(open_frames(evs.drop_last(), len), evs.last(), len)
    }
}

/// A well-formed stream over a source of `len` bytes: starts and ends are
/// properly nested, every end is the closing marker of its start with the
/// same range, each range lies in the source and inside the range of every
/// construct around it, and nothing is left open.
pub open spec fn well_formed(evs: Seq<OffsetEvent>, len: int) -> bool {
    open_frames(evs, len) == Some(Seq::<(TagEnd, int, int)>::empty())
}

/// The grammar that a set of flags selects, resolved once for a parse.
#[derive(Clone, Copy, Debug, PartialEq, Eq, Structural)]
pub struct Grammar {
    pub tables: bool,
    /// Footnotes in either syntax.
    pub footnotes: bool,
    /// Footnotes in the old syntax, which changes definition and indentation rules.
    pub old_footnotes: bool,
    /// `~~text~~` is strikethrough.
    pub strikethrough: bool,
    /// `~text~` is subscript.
    pub tilde_subscript: bool,
    /// `~text~` is strikethrough: the subscript extension is off, so the
    /// token falls to strikethrough.
    pub tilde_strikethrough: bool,
    pub superscript: bool,
    pub tasklists: bool,
    pub smart_punctuation: bool,
    pub heading_attributes: bool,
    pub yaml_metadata: bool,
    pub pluses_metadata: bool,
    pub math: bool,
    pub gfm: bool,
    pub definition_lists: bool,
    pub wikilinks: bool,
    pub containers: bool,
}

/// The grammar that `o` selects.
pub open spec fn grammar_spec(o: Options) -> Grammar {
    let f = |flag: u32| has_flag(o.bits, flag);
    Grammar {
        tables: f(ENABLE_TABLES),
        footnotes: f(ENABLE_FOOTNOTES),
        old_footnotes: f(ENABLE_OLD_FOOTNOTES),
        strikethrough: f(ENABLE_STRIKETHROUGH),
        tilde_subscript: f(ENABLE_SUBSCRIPT),
        tilde_strikethrough: f(ENABLE_STRIKETHROUGH) && !f(ENABLE_SUBSCRIPT),
        superscript: f(ENABLE_SUPERSCRIPT),
        tasklists: f(ENABLE_TASKLISTS),
        smart_punctuation: f(ENABLE_SMART_PUNCTUATION),
        heading_attributes: f(ENABLE_HEADING_ATTRIBUTES),
        yaml_metadata: f(ENABLE_YAML_STYLE_METADATA_BLOCKS),
        pluses_metadata: f(ENABLE_PLUSES_DELIMITED_METADATA_BLOCKS),
        math: f(ENABLE_MATH),
        gfm: f(ENABLE_GFM),
        definition_lists: f(ENABLE_DEFINITION_LIST),
        wikilinks: f(ENABLE_WIKILINKS),
        containers: f(ENABLE_CONTAINER_EXTENSIONS),
    }
}

/// The grammar that `options` selects.
pub fn grammar_of(options: Options) -> (r: Grammar)
    ensures
        r == grammar_spec(options),
{
    let strike = options.contains(ENABLE_STRIKETHROUGH);
    let sub = options.contains(ENABLE_SUBSCRIPT);
    Grammar {
        tables: options.contains(ENABLE_TABLES),
        footnotes: options.contains(ENABLE_FOOTNOTES),
        old_footnotes: options.contains(ENABLE_OLD_FOOTNOTES),
        strikethrough: strike,
        tilde_subscript: sub,
        tilde_strikethrough: strike && !sub,
        superscript: options.contains(ENABLE_SUPERSCRIPT),
        tasklists: options.contains(ENABLE_TASKLISTS),
        smart_punctuation: options.contains(ENABLE_SMART_PUNCTUATION),
        heading_attributes: options.contains(ENABLE_HEADING_ATTRIBUTES),
        yaml_metadata: options.contains(ENABLE_YAML_STYLE_METADATA_BLOCKS),
        pluses_metadata: options.contains(ENABLE_PLUSES_DELIMITED_METADATA_BLOCKS),
        math: options.contains(ENABLE_MATH),
        gfm: options.contains(ENABLE_GFM),
        definition_lists: options.contains(ENABLE_DEFINITION_LIST),
        wikilinks: options.contains(ENABLE_WIKILINKS),
        containers: options.contains(ENABLE_CONTAINER_EXTENSIONS),
    }
}

/// Kind of a top-level block found by the first phase.
#[derive(Clone, Copy, Debug, PartialEq, Eq, Structural)]
pub enum BlockKind {
    Rule,
    Heading(HeadingLevel),
    Paragraph,
    FencedCode,
    IndentedCode,
    Quote,
    /// A list; the number is the start of an ordered list.
    List(Option<u64>),
    /// A table; its items are the header row and then the body rows.
    Table,
    /// A footnote definition; its info range is the label.
    Footnote,
    Metadata(MetadataBlockKind),
}

/// A top-level block: its kind, its byte range, the range of its text, the
/// range of a fence's info string, and the ranges of a list's items.
#[derive(Clone, Debug)]
pub struct BlockSpan {
    pub kind: BlockKind,
    pub start: usize,
    pub end: usize,
    pub body_start: usize,
    pub body_end: usize,
    pub info_start: usize,
    pub info_end: usize,
    pub items: Vec<(usize, usize)>,
    /// Column alignments of a table.
    pub aligns: Vec<Alignment>,
}

/// Every range of `b` lies in `b.start..b.end`, which lies in `0..len`.
pub open spec fn span_ok(b: BlockSpan, len: int) -> bool {
    &&& b.start <= b.body_start <= b.body_end <= b.end <= len
    &&& b.start <= b.info_start <= b.info_end <= b.end
    &&& forall|k: int|
        0 <= k < b.items@.len() ==> b.start <= #[trigger] b.items@[k].0 <= b.items@[k].1 <= b.end
}

pub const NEWLINE: u8 = 10;
pub const SPACE: u8 = 32;
pub const TAB: u8 = 9;

/// End of the line that starts at `pos`: its newline, or the end of input.
fn line_end(b: &[u8], pos: usize) -> (r: usize)
    requires
        pos <= b@.len(),
    ensures
        r == line_end_from(b@, pos as int),
        pos <= r <= b@.len(),
        r < b@.len() ==> b@[r as int] == NEWLINE,
{
    let mut i = pos;
    while i < b.len() && b[i] != NEWLINE
        invariant
            line_end_from(b@, i as int) == line_end_from(b@, pos as int),
            pos <= i <= b@.len(),
        decreases b@.len() - i,
    {
        i = i + 1;
    }
    i
}

/// Start of the line after the one that ends at `le`.
fn next_line(b: &[u8], le: usize) -> (r: usize)
    requires
        le <= b@.len(),
    ensures
        r == next_line_of(b@, le as int),
        le <= r <= b@.len(),
        le < b@.len() ==> r == le + 1,
{
    if le < b.len() {
        le + 1
    } else {
        le
    }
}

/// Position after at most `max` spaces from `p`, before `le`.
fn skip_indent(b: &[u8], p: usize, le: usize, max: usize) -> (r: usize)
    requires
        p <= le <= b@.len(),
    ensures
        r == indent_from(b@, p as int, p as int, le as int, max as int),
        p <= r <= le,
        r - p <= max,
{
    let mut i = p;
    while i < le && i - p < max && b[i] == SPACE
        invariant
            indent_from(b@, i as int, p as int, le as int, max as int) == indent_from(b@, p as int, p as int, le as int, max as int),
            p <= i <= le <= b@.len(),
            i - p <= max,
        decreases le - i,
    {
        i = i + 1;
    }
    i
}

/// A space, a tab or a newline.
pub open spec fn is_blank_byte(c: u8) -> bool {
    c == SPACE || c == TAB || c == NEWLINE
}

fn is_space_or_tab(c: u8) -> (r: bool)
    ensures
        r == (c == SPACE || c == TAB),
{
    c == SPACE || c == TAB
}

/// Position after the spaces and tabs from `p`, before `le`.
fn skip_blanks(b: &[u8], p: usize, le: usize) -> (r: usize)
    requires
        p <= le <= b@.len(),
    ensures
        r == blanks_from(b@, p as int, le as int),
        p <= r <= le,
        forall|k: int| p <= k < r ==> is_blank_byte(b@[k]),
{
    let mut i = p;
    while i < le && is_space_or_tab(b[i])
        invariant
            blanks_from(b@, i as int, le as int) == blanks_from(b@, p as int, le as int),
            forall|k: int| p <= k < i ==> is_blank_byte(b@[k]),
            p <= i <= le <= b@.len(),
        decreases le - i,
    {
        i = i + 1;
    }
    i
}

/// Start of the trailing spaces and tabs of `p..le`.
fn trim_end_blanks(b: &[u8], p: usize, le: usize) -> (r: usize)
    requires
        p <= le <= b@.len(),
    ensures
        r == trim_back(b@, p as int, le as int),
        p <= r <= le,
{
    let mut j = le;
    while j > p && is_space_or_tab(b[j - 1])
        invariant
            trim_back(b@, p as int, j as int) == trim_back(b@, p as int, le as int),
            p <= j <= le <= b@.len(),
        decreases j,
    {
        j = j - 1;
    }
    j
}

fn is_blank(b: &[u8], p: usize, le: usize) -> (r: bool)
    requires
        p <= le <= b@.len(),
    ensures
        r == blank_line(b@, p as int, le as int),
        r ==> forall|k: int| p <= k < le ==> is_blank_byte(b@[k]),
{
    skip_blanks(b, p, le) == le
}

/// Number of the marks of an ATX heading at `p` (1 to 6), or 0.
fn atx_level(b: &[u8], p: usize, le: usize) -> (r: usize)
    requires
        p <= le <= b@.len(),
    ensures
        r == atx_of(b@, p as int, le as int),
        r <= 6,
        r > 0 ==> p + r <= le,
{
    let mut i = p;
    while i < le && i - p < 7 && b[i] == 35u8
        invariant
            hashes_from(b@, i as int, p as int, le as int) == hashes_from(b@, p as int, p as int, le as int),
            p <= i <= le <= b@.len(),
            i - p <= 7,
        decreases le - i,
    {
        i = i + 1;
    }
    let n = i - p;
    if n == 0 || n > 6 {
        0
    } else if i == le || is_space_or_tab(b[i]) {
        n
    } else {
        0
    }
}

/// Character and length of a code fence opening at `p`, or length 0.
fn fence_at(b: &[u8], p: usize, le: usize) -> (r: (u8, usize))
    requires
        p <= le <= b@.len(),
    ensures
        r.0 == fence_of(b@, p as int, le as int).0,
        r.1 == fence_of(b@, p as int, le as int).1,
        p + r.1 <= le,
{
    if p >= le || (b[p] != 96u8 && b[p] != 126u8) {
        return (0, 0);
    }
    let c = b[p];
    let mut i = p;
    while i < le && b[i] == c
        invariant
            run_from(b@, i as int, le as int, c) == run_from(b@, p as int, le as int, c),
            c == b@[p as int],
            p <= i <= le <= b@.len(),
        decreases le - i,
    {
        i = i + 1;
    }
    if i - p >= 3 {
        (c, i - p)
    } else {
        (0, 0)
    }
}

/// Whether `p..le` is a thematic break: three or more of one of `*`, `-`,
/// `_`, with only spaces and tabs between them.
fn is_rule(b: &[u8], p: usize, le: usize) -> (r: bool)
    requires
        p <= le <= b@.len(),
    ensures
        r == rule_of(b@, p as int, le as int),
{
    if p >= le || (b[p] != 42u8 && b[p] != 45u8 && b[p] != 95u8) {
        return false;
    }
    let c = b[p];
    let mut count: usize = 0;
    let mut i = p;
    while i < le
        invariant
            rule_from(b@, i as int, le as int, c, count as int) == rule_from(b@, p as int, le as int, c, 0),
            c == b@[p as int],
            p <= i <= le <= b@.len(),
            count <= i - p,
        decreases le - i,
    {
        if b[i] == c {
            count = count + 1;
        } else if !is_space_or_tab(b[i]) {
            return false;
        }
        i = i + 1;
    }
    count >= 3
}

/// A list marker at `p`: 1 for a bullet, 2 for an ordered marker, 0 for none;
/// the start number of an ordered marker; the position after the marker.
fn list_marker(b: &[u8], p: usize, le: usize) -> (r: (u8, u64, usize))
    requires
        p <= le <= b@.len(),
    ensures
        r.0 == marker_of(b@, p as int, le as int).0,
        r.2 == marker_of(b@, p as int, le as int).1,
        r.0 <= 2,
        r.0 != 0 ==> p < r.2 <= le,
{
    if p >= le {
        return (0, 0, p);
    }
    let c = b[p];
    if c == 45u8 || c == 43u8 || c == 42u8 {
        if p + 1 == le || is_space_or_tab(b[p + 1]) {
            return (1, 0, p + 1);
        }
        return (0, 0, p);
    }
    let mut i = p;
    let mut n: u64 = 0;
    while i < le && i - p < 9 && n < 100_000_000 && 48u8 <= b[i] && b[i] <= 57u8
        invariant
            digits_from(b@, i as int, p as int, le as int, n as int) == digits_from(b@, p as int, p as int, le as int, 0),
            p <= i <= le <= b@.len(),
            n < 1_000_000_000,
        decreases le - i,
    {
        n = n * 10 + (b[i] - 48u8) as u64;
        i = i + 1;
    }
    if i == p || i >= le || (b[i] != 46u8 && b[i] != 41u8) {
        return (0, 0, p);
    }
    if i + 1 == le || is_space_or_tab(b[i + 1]) {
        (2, n, i + 1)
    } else {
        (0, 0, p)
    }
}

/// Level of a setext underline at `p` (`=` gives 1, `-` gives 2), or 0.
fn setext_level(b: &[u8], p: usize, le: usize) -> (r: usize)
    requires
        p <= le <= b@.len(),
    ensures
        r == setext_of(b@, p as int, le as int),
{
    if p >= le || (b[p] != 61u8 && b[p] != 45u8) {
        return 0;
    }
    let c = b[p];
    let mut i = p;
    while i < le && b[i] == c
        invariant
            run_from(b@, i as int, le as int, c) == run_from(b@, p as int, le as int, c),
            c == b@[p as int],
            p <= i <= le <= b@.len(),
        decreases le - i,
    {
        i = i + 1;
    }
    if skip_blanks(b, i, le) != le {
        0
    } else if c == 61u8 {
        1
    } else {
        2
    }
}

/// Whether a line whose text starts at `p` (after at most three spaces)
/// opens a block that ends a paragraph.
fn starts_block(b: &[u8], p: usize, le: usize) -> (r: bool)
    requires
        p <= le <= b@.len(),
    ensures
        r == starts_block_of(b@, p as int, le as int),
{
    if atx_level(b, p, le) > 0 || fence_at(b, p, le).1 > 0 || is_rule(b, p, le) {
        return true;
    }
    if p < le && b[p] == 62u8 {
        return true;
    }
    let m = list_marker(b, p, le);
    m.0 != 0 && !is_blank(b, m.2, le)
}

/// Every byte from `end` up to `next` is a newline.
pub open spec fn newline_gap(b: Seq<u8>, end: int, next: int) -> bool {
    &&& end <= next
    &&& forall|k: int| end <= k < next ==> b[k] == NEWLINE
}

/// `le` ends a line of `b`: it is the end of input or a newline.
pub open spec fn is_line_end(b: Seq<u8>, le: int) -> bool {
    le == b.len() || (0 <= le < b.len() && b[le] == NEWLINE)
}

fn span(kind: BlockKind, start: usize, end: usize, body_start: usize, body_end: usize) -> (r: BlockSpan)
    requires
        start <= body_start <= body_end <= end,
    ensures
        r.kind == kind,
        r.start == start,
        r.end == end,
        r.body_start == body_start,
        r.body_end == body_end,
        r.info_start == start,
        r.info_end == start,
        r.items@.len() == 0,
{
    BlockSpan {
        kind,
        start,
        end,
        body_start,
        body_end,
        info_start: start,
        info_end: start,
        items: Vec::new(),
        aligns: Vec::new(),
    }
}

/// An ATX heading on the line `pos..le`, whose marks start at `p`.
fn scan_atx(b: &[u8], pos: usize, p: usize, le: usize, level: usize) -> (r: BlockSpan)
    requires
        pos <= p <= le <= b@.len(),
        1 <= level <= 6,
        p + level <= le,
    ensures
        r.kind == BlockKind::Heading(level_of(level as int)),
        span_ok(r, b@.len() as int),
        r.start == pos,
        r.end == le,
{
    let hl = if level == 1 {
        HeadingLevel::H1
    } else if level == 2 {
        HeadingLevel::H2
    } else if level == 3 {
        HeadingLevel::H3
    } else if level == 4 {
        HeadingLevel::H4
    } else if level == 5 {
        HeadingLevel::H5
    } else {
        HeadingLevel::H6
    };
    let bs = skip_blanks(b, p + level, le);
    let be = trim_end_blanks(b, bs, le);
    span(BlockKind::Heading(hl), pos, le, bs, be)
}

/// A fenced code block opening on the line `pos..le` with `count` of `c` at `p`.
fn scan_fenced(b: &[u8], pos: usize, p: usize, le: usize, c: u8, count: usize) -> (r: (
    BlockSpan,
    usize,
))
    requires
        is_line_end(b@, le as int),
        pos <= p <= le <= b@.len(),
        p + count <= le,
    ensures
        (r.0.end as int, r.1 as int) == fenced_from(b@, next_line_of(b@, le as int), c, count as int),
        r.0.kind == BlockKind::FencedCode,
        newline_gap(b@, r.0.end as int, r.1 as int),
        r.0.end < r.1 || r.1 == b@.len(),
        span_ok(r.0, b@.len() as int),
        r.0.start == pos,
        pos < r.1 <= b@.len() || r.1 == b@.len(),
        le <= r.1,
        r.0.end <= r.1,
{
    let n = b.len();
    let info_start = skip_blanks(b, p + count, le);
    let info_end = trim_end_blanks(b, info_start, le);
    let body_start = next_line(b, le);
    let mut q = body_start;
    let mut end = n;
    let mut body_end = n;
    let mut next = n;
    while q < n
        invariant
            fenced_from(b@, q as int, c, count as int) == fenced_from(b@, body_start as int, c, count as int),
            body_start as int == next_line_of(b@, le as int),
            pos <= info_start <= info_end <= le <= body_start <= q <= n,
            n == b@.len(),
            body_start <= body_end <= end <= n,
            next == n,
        decreases n - q,
    {
        let lq = line_end(b, q);
        let cp = skip_indent(b, q, lq, 3);
        let f = fence_at(b, cp, lq);
        if f.0 == c && f.1 >= count && is_blank(b, cp + f.1, lq) {
            let close_body = if q > body_start {
                q - 1
            } else {
                body_start
            };
            let nx = next_line(b, lq);
            let mut bs = span(BlockKind::FencedCode, pos, lq, body_start, close_body);
            bs.info_start = info_start;
            bs.info_end = info_end;
            return (bs, nx);
        }
        q = next_line(b, lq);
        if lq == n {
            q = n;
        }
    }
    let mut bs = span(BlockKind::FencedCode, pos, end, body_start, body_end);
    bs.info_start = info_start;
    bs.info_end = info_end;
    (bs, next)
}

/// An indented code block from the line at `pos`.
fn scan_indented(b: &[u8], pos: usize, le: usize) -> (r: (BlockSpan, usize))
    requires
        is_line_end(b@, le as int),
        pos <= le <= b@.len(),
    ensures
        r.0.end as int == indented_from(b@, next_line_of(b@, le as int), le as int),
        r.1 as int == next_line_of(b@, r.0.end as int),
        r.0.kind == BlockKind::IndentedCode,
        newline_gap(b@, r.0.end as int, r.1 as int),
        r.0.end < r.1 || r.1 == b@.len(),
        span_ok(r.0, b@.len() as int),
        r.0.start == pos,
        le <= r.1 <= b@.len(),
        pos < r.1 || r.1 == b@.len(),
{
    let n = b.len();
    let mut last = le;
    let mut q = next_line(b, le);
    while q < n
        invariant
            indented_from(b@, q as int, last as int) == indented_from(b@, next_line_of(b@, le as int), le as int),
            is_line_end(b@, last as int),
            pos <= le <= last <= q <= n,
            n == b@.len(),
            pos < q || q == n,
        ensures
            last as int == indented_from(b@, next_line_of(b@, le as int), le as int),
            is_line_end(b@, last as int),
            pos <= le <= last <= n,
        decreases n - q,
    {
        let lq = line_end(b, q);
        if !is_blank(b, q, lq) {
            if skip_indent(b, q, lq, 4) - q < 4 {
                break;
            }
            last = lq;
        }
        let nq = next_line(b, lq);
        if nq == q {
            break;
        }
        q = nq;
    }
    (span(BlockKind::IndentedCode, pos, last, pos, last), next_line(b, last))
}

/// A paragraph from the line `pos..le`; an underline turns it into a heading.
fn scan_paragraph(b: &[u8], pos: usize, p: usize, le: usize) -> (r: (BlockSpan, usize))
    requires
        is_line_end(b@, le as int),
        pos <= p <= le <= b@.len(),
    ensures
        ({
            let x = paragraph_from(b@, next_line_of(b@, le as int), le as int);
            &&& r.0.end as int == x.1
            &&& r.1 as int == x.2
            &&& r.0.kind == if x.0 == 0 {
                BlockKind::Paragraph
            } else {
                BlockKind::Heading(level_of(x.0))
            }
        }),
        newline_gap(b@, r.0.end as int, r.1 as int),
        r.0.end < r.1 || r.1 == b@.len(),
        span_ok(r.0, b@.len() as int),
        r.0.start == pos,
        r.0.body_start == p,
        le <= r.0.end,
        le <= r.1 <= b@.len(),
        pos < r.1 || r.1 == b@.len(),
{
    let n = b.len();
    let mut last = le;
    let mut q = next_line(b, le);
    while q < n
        invariant
            paragraph_from(b@, q as int, last as int) == paragraph_from(b@, next_line_of(b@, le as int), le as int),
            is_line_end(b@, last as int),
            pos <= p <= le <= last <= q <= n,
            n == b@.len(),
            pos < q || q == n,
        ensures
            paragraph_from(b@, next_line_of(b@, le as int), le as int) == (0int, last as int, next_line_of(b@, last as int)),
            pos <= p <= le <= last <= n,
            is_line_end(b@, last as int),
        decreases n - q,
    {
        let lq = line_end(b, q);
        if is_blank(b, q, lq) {
            break;
        }
        let cp = skip_indent(b, q, lq, 3);
        let lvl = if cp - q < 3 || cp == lq || b[cp] != SPACE {
            setext_level(b, cp, lq)
        } else {
            0
        };
        if lvl > 0 {
            let body_end = trim_end_blanks(b, p, last);
            let hl = if lvl == 1 {
                HeadingLevel::H1
            } else {
                HeadingLevel::H2
            };
            assert(lvl == 1 || lvl == 2);
            assert(paragraph_from(b@, q as int, last as int) == (lvl as int, lq as int, next_line_of(b@, lq as int)));
            return (span(BlockKind::Heading(hl), pos, lq, p, body_end), next_line(b, lq));
        }
        if skip_indent(b, q, lq, 4) - q < 4 && starts_block(b, cp, lq) {
            break;
        }
        last = lq;
        let nq = next_line(b, lq);
        if nq == q {
            break;
        }
        q = nq;
    }
    let body_end = trim_end_blanks(b, p, last);
    (span(BlockKind::Paragraph, pos, last, p, body_end), next_line(b, last))
}

/// A block quote from the line `pos..le`, whose marker is at `p`.
fn scan_quote(b: &[u8], pos: usize, p: usize, le: usize) -> (r: (BlockSpan, usize))
    requires
        is_line_end(b@, le as int),
        pos <= p < le <= b@.len(),
    ensures
        r.0.end as int == quote_from(b@, next_line_of(b@, le as int), le as int),
        r.1 as int == next_line_of(b@, r.0.end as int),
        r.0.kind == BlockKind::Quote,
        newline_gap(b@, r.0.end as int, r.1 as int),
        r.0.end < r.1 || r.1 == b@.len(),
        span_ok(r.0, b@.len() as int),
        r.0.start == pos,
        le <= r.1 <= b@.len(),
        pos < r.1 || r.1 == b@.len(),
{
    let n = b.len();
    let body_start = if p + 1 < le && b[p + 1] == SPACE {
        p + 2
    } else {
        p + 1
    };
    let mut last = le;
    let mut q = next_line(b, le);
    while q < n
        invariant
            quote_from(b@, q as int, last as int) == quote_from(b@, next_line_of(b@, le as int), le as int),
            is_line_end(b@, last as int),
            pos <= p < le <= last <= q <= n,
            n == b@.len(),
            pos < q || q == n,
        ensures
            last as int == quote_from(b@, next_line_of(b@, le as int), le as int),
            pos <= p < le <= last <= n,
            is_line_end(b@, last as int),
        decreases n - q,
    {
        let lq = line_end(b, q);
        if is_blank(b, q, lq) {
            break;
        }
        let cp = skip_indent(b, q, lq, 3);
        let quoted = cp < lq && b[cp] == 62u8;
        if !quoted && starts_block(b, cp, lq) {
            break;
        }
        last = lq;
        let nq = next_line(b, lq);
        if nq == q {
            break;
        }
        q = nq;
    }
    (span(BlockKind::Quote, pos, last, body_start, last), next_line(b, last))
}

/// A list from the line `pos..le`, whose first marker is at `p`: `kind` 1
/// for bullets, 2 for ordered items starting at `number`.
fn scan_list(b: &[u8], pos: usize, p: usize, le: usize, kind: u8, number: u64) -> (r: (
    BlockSpan,
    usize,
))
    requires
        is_line_end(b@, le as int),
        pos <= p <= le <= b@.len(),
    ensures
        r.0.end as int == list_from(b@, next_line_of(b@, le as int), le as int, kind),
        r.1 as int == next_line_of(b@, r.0.end as int),
        r.0.kind is List,
        newline_gap(b@, r.0.end as int, r.1 as int),
        r.0.end < r.1 || r.1 == b@.len(),
        span_ok(r.0, b@.len() as int),
        r.0.start == pos,
        le <= r.1 <= b@.len(),
        pos < r.1 || r.1 == b@.len(),
{
    let n = b.len();
    let mut items: Vec<(usize, usize)> = Vec::new();
    let mut item_start = pos;
    let mut last = le;
    let mut q = next_line(b, le);
    while q < n
        invariant_except_break
            list_from(b@, q as int, last as int, kind) == list_from(b@, next_line_of(b@, le as int), le as int, kind),
        invariant
            is_line_end(b@, last as int),
            pos <= item_start <= last <= q <= n,
            le <= last,
            n == b@.len(),
            pos < q || q == n,
            forall|k: int|
                0 <= k < items@.len() ==> pos <= #[trigger] items@[k].0 <= items@[k].1
                    <= item_start,
        ensures
            last as int == list_from(b@, next_line_of(b@, le as int), le as int, kind),
            is_line_end(b@, last as int),
            pos <= item_start <= last <= n,
            le <= last,
            forall|k: int|
                0 <= k < items@.len() ==> pos <= #[trigger] items@[k].0 <= items@[k].1
                    <= item_start,
        decreases n - q,
    {
        let ghost q0 = q;
        let mut lq = line_end(b, q);
        let mut gap = false;
        while q < n && is_blank(b, q, lq)
            invariant
                last <= q <= lq <= n,
                n == b@.len(),
                is_line_end(b@, lq as int),
                pos < q || q == n,
                q0 <= q,
                lq as int == line_end_from(b@, q as int),
                skip_blank_lines(b@, q as int).0 == skip_blank_lines(b@, q0 as int).0,
                gap ==> skip_blank_lines(b@, q0 as int).1,
                !gap ==> q == q0,
            decreases n - q,
        {
            gap = true;
            q = next_line(b, lq);
            if q == lq {
                q = n;
            }
            lq = line_end(b, q);
        }
        assert(skip_blank_lines(b@, q0 as int) == (q as int, gap));
        if q >= n {
            break;
        }
        let ind = skip_indent(b, q, lq, 4) - q;
        let cp = skip_indent(b, q, lq, 3);
        if ind <= 3 && is_rule(b, cp, lq) {
            break;
        }
        let m = list_marker(b, cp, lq);
        if ind <= 3 && m.0 == kind {
            items.push((item_start, last));
            item_start = q;
        } else if ind >= 2 {
        } else if gap || starts_block(b, cp, lq) {
            break;
        }
        last = lq;
        let nq = next_line(b, lq);
        if nq == q {
            break;
        }
        q = nq;
    }
    items.push((item_start, last));
    let start_number = if kind == 2 {
        Some(number)
    } else {
        None
    };
    let mut bs = span(BlockKind::List(start_number), pos, last, pos, last);
    bs.items = items;
    (bs, next_line(b, last))
}

/// A link reference definition `[label]: destination`: the byte ranges of
/// its label and of its destination.
#[derive(Clone, Copy, Debug)]
pub struct LinkDef {
    /// The line that holds the definition.
    pub line_start: usize,
    pub line_end: usize,
    pub label_start: usize,
    pub label_end: usize,
    pub dest_start: usize,
    pub dest_end: usize,
}

/// Both ranges of `d` lie in `0..len`.
pub open spec fn def_ok(d: LinkDef, len: int) -> bool {
    &&& d.label_start <= d.label_end <= len
    &&& d.dest_start <= d.dest_end <= len
}

/// Position of the first `]` in `from..hi`, unless a `[` comes before it.
fn close_bracket(b: &[u8], from: usize, hi: usize) -> (r: Option<usize>)
    requires
        from <= hi <= b@.len(),
    ensures
        r is Some <==> close_from(b@, from as int, hi as int) is Some,
        r matches Some(k) ==> close_from(b@, from as int, hi as int) == Some(k as int),
        r matches Some(k) ==> from <= k < hi,
{
    let mut k = from;
    while k < hi
        invariant
            close_from(b@, k as int, hi as int) == close_from(b@, from as int, hi as int),
            from <= k <= hi <= b@.len(),
        decreases hi - k,
    {
        if b[k] == 93u8 {
            return Some(k);
        }
        if b[k] == 91u8 {
            return None;
        }
        k = k + 1;
    }
    None
}

/// A link reference definition on the line whose text starts at `p`.
fn link_def_at(b: &[u8], p: usize, le: usize) -> (r: Option<LinkDef>)
    requires
        p <= le <= b@.len(),
    ensures
        r is Some <==> is_def_line(b@, p as int, le as int),
        r matches Some(d) ==> def_ok(d, b@.len() as int),
{
    if p >= le || b[p] != 91u8 {
        return None;
    }
    match close_bracket(b, p + 1, le) {
        None => None,
        Some(k) => {
            if k == p + 1 || k + 1 >= le || b[k + 1] != 58u8 {
                return None;
            }
            let ds = skip_blanks(b, k + 2, le);
            let mut de = ds;
            while de < le && !is_space_or_tab(b[de])
                invariant
                    word_from(b@, de as int, le as int) == word_from(b@, ds as int, le as int),
                    ds <= de <= le <= b@.len(),
                decreases le - de,
            {
                de = de + 1;
            }
            if de == ds {
                return None;
            }
            Some(LinkDef { line_start: p, line_end: le, label_start: p + 1, label_end: k, dest_start: ds, dest_end: de })
        },
    }
}

/// Whether `p..le` is three of `c` and nothing else but spaces and tabs.
fn delimiter_line(b: &[u8], p: usize, le: usize, c: u8) -> (r: bool)
    requires
        p <= le <= b@.len(),
    ensures
        r == delim_line_of(b@, p as int, le as int, c),
{
    le - p >= 3 && b[p] == c && b[p + 1] == c && b[p + 2] == c && is_blank(b, p + 3, le)
}

/// A metadata block opening the document on the line `0..le`, delimited by
/// lines of `---` (closed by `---` or `...`) or of `+++`.
fn scan_metadata(b: &[u8], le: usize, c: u8) -> (r: Option<(BlockSpan, usize)>)
    requires
        is_line_end(b@, le as int),
        le <= b@.len(),
    ensures
        r is Some <==> metadata_from(b@, next_line_of(b@, le as int), next_line_of(b@, le as int), c) is Some,
        r matches Some(x) ==> metadata_from(b@, next_line_of(b@, le as int), next_line_of(b@, le as int), c) == Some((x.0.end as int, x.1 as int)),
        r matches Some(x) ==> x.0.kind is Metadata,
        r matches Some(x) ==> newline_gap(b@, x.0.end as int, x.1 as int),
        r matches Some(x) ==> x.0.end < x.1 || x.1 == b@.len(),
        r matches Some(x) ==> span_ok(x.0, b@.len() as int) && le <= x.1 <= b@.len() && (0 < x.1
            || x.1 == b@.len()) && x.0.start == 0,
{
    let n = b.len();
    let kind = if c == 43u8 {
        MetadataBlockKind::PlusesStyle
    } else {
        MetadataBlockKind::YamlStyle
    };
    let body_start = next_line(b, le);
    let mut q = body_start;
    while q < n
        invariant
            metadata_from(b@, q as int, body_start as int, c) == metadata_from(b@, next_line_of(b@, le as int), next_line_of(b@, le as int), c),
            body_start as int == next_line_of(b@, le as int),
            le <= body_start <= q <= n,
            n == b@.len(),
        ensures
            metadata_from(b@, next_line_of(b@, le as int), next_line_of(b@, le as int), c) is None,
        decreases n - q,
    {
        let lq = line_end(b, q);
        if delimiter_line(b, q, lq, c) || (c == 45u8 && delimiter_line(b, q, lq, 46u8)) {
            if q == body_start {
                return None;
            }
            let bs = span(BlockKind::Metadata(kind), 0, lq, body_start, q - 1);
            return Some((bs, next_line(b, lq)));
        }
        let nq = next_line(b, lq);
        if nq == q {
            break;
        }
        q = nq;
    }
    None
}

/// The bounds of the cells of the table row `s..e`: without the blanks and
/// the pipes at either end.
fn row_bounds(b: &[u8], s: usize, e: usize) -> (r: (usize, usize))
    requires
        s <= e <= b@.len(),
    ensures
        (r.0 as int, r.1 as int) == row_bounds_of(b@, s as int, e as int),
        s <= r.0 <= r.1 <= e,
{
    let mut p = skip_blanks(b, s, e);
    if p < e && b[p] == 124u8 {
        p = p + 1;
    }
    let mut q = trim_end_blanks(b, p, e);
    if q > p && b[q - 1] == 124u8 {
        q = q - 1;
    }
    (p, q)
}

/// End of the cell that starts at `p`: the next pipe, or `q`.
fn cell_end(b: &[u8], p: usize, q: usize) -> (r: usize)
    requires
        p <= q <= b@.len(),
    ensures
        r == cell_end_from(b@, p as int, q as int),
        p <= r <= q,
{
    let mut k = p;
    while k < q && b[k] != 124u8
        invariant
            cell_end_from(b@, k as int, q as int) == cell_end_from(b@, p as int, q as int),
            p <= k <= q <= b@.len(),
        decreases q - k,
    {
        k = k + 1;
    }
    k
}

/// Number of pipes between the cells of the row `s..e`: one less than its cells.
fn cell_separators(b: &[u8], s: usize, e: usize) -> (r: usize)
    requires
        s <= e <= b@.len(),
    ensures
        r == pipes_from(b@, row_bounds_of(b@, s as int, e as int).0, row_bounds_of(b@, s as int, e as int).1),
{
    let (first, q) = row_bounds(b, s, e);
    let mut k = first;
    let mut count: usize = 0;
    while k < q
        invariant
            count + pipes_from(b@, k as int, q as int) == pipes_from(b@, first as int, q as int),
            first <= k <= q <= e <= b@.len(),
            count <= k - first,
        decreases q - k,
    {
        if b[k] == 124u8 {
            count = count + 1;
        }
        k = k + 1;
    }
    count
}

/// The alignments of a table delimiter row `s..e`, when it is one: each cell
/// is dashes, with an optional colon at either end.
fn delimiter_row(b: &[u8], s: usize, e: usize) -> (r: Option<Vec<Alignment>>)
    requires
        s <= e <= b@.len(),
    ensures
        r is Some <==> delim_row_of(b@, s as int, e as int) is Some,
        r matches Some(a) ==> delim_row_of(b@, s as int, e as int) == Some(a@.len() as int),
{
    let (first, q) = row_bounds(b, s, e);
    if first == q {
        return None;
    }
    let mut aligns: Vec<Alignment> = Vec::new();
    let mut p = first;
    while p <= q
        invariant_except_break
            delim_cells(b@, first as int, q as int) == (match delim_cells(b@, p as int, q as int) {
                Some(m) => Some(aligns@.len() + m),
                None => None::<int>,
            }),
        invariant
            (first as int, q as int) == row_bounds_of(b@, s as int, e as int),
            first < q,
            p <= q + 1,
            first <= q <= e <= b@.len(),
            first <= p,
        ensures
            delim_cells(b@, first as int, q as int) == Some(aligns@.len() as int),
        decreases q + 1 - p,
    {
        let k = cell_end(b, p, q);
        let c0 = skip_blanks(b, p, k);
        let c1 = trim_end_blanks(b, c0, k);
        if c0 == c1 {
            assert(delim_cells(b@, p as int, q as int) is None);
            return None;
        }
        let left = b[c0] == 58u8;
        let right = c1 > c0 + 1 && b[c1 - 1] == 58u8;
        let d0 = if left {
            c0 + 1
        } else {
            c0
        };
        let d1 = if right {
            c1 - 1
        } else {
            c1
        };
        if d0 >= d1 {
            assert(delim_cells(b@, p as int, q as int) is None);
            return None;
        }
        let mut j = d0;
        #[verifier::loop_isolation(false)]
        while j < d1
            invariant
                dashes_from(b@, j as int, d1 as int) == dashes_from(b@, d0 as int, d1 as int),
                d0 <= j <= d1 <= b@.len(),
            decreases d1 - j,
        {
            if b[j] != 45u8 {
                assert(!dashes_from(b@, d0 as int, d1 as int));
                assert(delim_cells(b@, p as int, q as int) is None);
                return None;
            }
            j = j + 1;
        }
        aligns.push(
            if left && right {
                Alignment::Center
            } else if left {
                Alignment::Left
            } else if right {
                Alignment::Right
            } else {
                Alignment::Unspecified
            },
        );
        if k >= q {
            break;
        }
        p = k + 1;
    }
    Some(aligns)
}

/// A table whose header row is the line `pos..le`, when the next line is a
/// delimiter row with as many cells.
fn scan_table(b: &[u8], pos: usize, le: usize) -> (r: Option<(BlockSpan, usize)>)
    requires
        is_line_end(b@, le as int),
        pos <= le <= b@.len(),
    ensures
        r is Some <==> table_of(b@, pos as int, le as int) is Some,
        r matches Some(x) ==> table_of(b@, pos as int, le as int) == Some((x.0.end as int, x.1 as int)),
        r matches Some(x) ==> x.0.kind is Table,
        r matches Some(x) ==> newline_gap(b@, x.0.end as int, x.1 as int),
        r matches Some(x) ==> x.0.end < x.1 || x.1 == b@.len(),
        r matches Some(x) ==> span_ok(x.0, b@.len() as int) && x.0.start == pos && le <= x.1
            <= b@.len() && (pos < x.1 || x.1 == b@.len()),
{
    let n = b.len();
    if cell_end(b, pos, le) == le {
        return None;
    }
    let d = next_line(b, le);
    if d >= n {
        return None;
    }
    let ld = line_end(b, d);
    let aligns = match delimiter_row(b, d, ld) {
        Some(a) => a,
        None => {
            return None;
        },
    };
    if aligns.len() == 0 || aligns.len() - 1 != cell_separators(b, pos, le) {
        return None;
    }
    let mut items: Vec<(usize, usize)> = Vec::new();
    items.push((pos, le));
    let mut last = ld;
    let mut q = next_line(b, ld);
    while q < n
        invariant
            table_rows_from(b@, q as int, last as int) == table_rows_from(b@, next_line_of(b@, ld as int), ld as int),
            is_line_end(b@, last as int),
            pos <= le <= last <= q <= n,
            n == b@.len(),
            pos < q || q == n,
            forall|k: int|
                0 <= k < items@.len() ==> pos <= #[trigger] items@[k].0 <= items@[k].1 <= last,
        ensures
            last as int == table_rows_from(b@, next_line_of(b@, ld as int), ld as int),
            pos <= le <= last <= n,
            is_line_end(b@, last as int),
            forall|k: int|
                0 <= k < items@.len() ==> pos <= #[trigger] items@[k].0 <= items@[k].1 <= last,
        decreases n - q,
    {
        let lq = line_end(b, q);
        if is_blank(b, q, lq) || starts_block(b, skip_indent(b, q, lq, 3), lq) {
            break;
        }
        items.push((q, lq));
        last = lq;
        let nq = next_line(b, lq);
        if nq == q {
            break;
        }
        q = nq;
    }
    let mut bs = span(BlockKind::Table, pos, last, pos, last);
    bs.items = items;
    bs.aligns = aligns;
    Some((bs, next_line(b, last)))
}

/// A span delimited by runs of exactly `count` copies of `c`, opening at
/// `i`, within `i..hi`, with no `c` inside: the start of its closing run and
/// its end.
fn delimited_at(b: &[u8], i: usize, hi: usize, c: u8, count: usize) -> (r: Option<(usize, usize)>)
    requires
        i < hi <= b@.len(),
        1 <= count <= 2,
    ensures
        r matches Some(x) ==> i + count < x.0 && x.0 + count == x.1 && x.1 <= hi,
{
    if hi - i <= count || b[i] != c || (count == 2 && b[i + 1] != c) || b[i + count] == c {
        return None;
    }
    let t0 = i + count;
    if is_space_or_tab(b[t0]) || b[t0] == NEWLINE {
        return None;
    }
    let mut k = t0 + 1;
    while k < hi && b[k] != c
        invariant
            t0 < k <= hi <= b@.len(),
        decreases hi - k,
    {
        k = k + 1;
    }
    if k >= hi || hi - k < count {
        return None;
    }
    if count == 2 && b[k + 1] != c {
        return None;
    }
    if k + count < hi && b[k + count] == c {
        return None;
    }
    Some((k, k + count))
}

/// The inline span that opens at `i` under `grammar`: its tag, the range of
/// its text and its end. `~~text~~` is strikethrough; `~text~` is subscript,
/// or strikethrough where the subscript extension is off; `^text^` is
/// superscript.
fn styled_at(b: &[u8], i: usize, hi: usize, grammar: Grammar) -> (r: Option<(Tag, usize, usize, usize)>)
    requires
        i < hi <= b@.len(),
    ensures
        r matches Some(x) ==> i < x.1 <= x.2 < x.3 <= hi && (x.0 is Strikethrough || x.0 is Subscript
            || x.0 is Superscript),
{
    if b[i] == 126u8 {
        if grammar.strikethrough {
            match delimited_at(b, i, hi, 126u8, 2) {
                Some((k, end)) => {
                    return Some((Tag::Strikethrough, i + 2, k, end));
                },
                None => {},
            }
        }
        if grammar.tilde_subscript || grammar.tilde_strikethrough {
            match delimited_at(b, i, hi, 126u8, 1) {
                Some((k, end)) => {
                    let tag = if grammar.tilde_subscript {
                        Tag::Subscript
                    } else {
                        Tag::Strikethrough
                    };
                    return Some((tag, i + 1, k, end));
                },
                None => {},
            }
        }
    } else if b[i] == 94u8 && grammar.superscript {
        match delimited_at(b, i, hi, 94u8, 1) {
            Some((k, end)) => {
                return Some((Tag::Superscript, i + 1, k, end));
            },
            None => {},
        }
    }
    None
}

/// A footnote reference `[^label]` at `i`, within `i..hi`: the range of its
/// label and its end.
fn footnote_ref_at(b: &[u8], i: usize, hi: usize) -> (r: Option<(usize, usize, usize)>)
    requires
        i < hi <= b@.len(),
    ensures
        r is Some <==> footnote_ref_end(b@, i as int, hi as int) is Some,
        r matches Some(x) ==> footnote_ref_end(b@, i as int, hi as int) == Some(x.2 as int),
        r matches Some(x) ==> i < x.0 <= x.1 < x.2 <= hi,
{
    if b[i] != 91u8 || i + 1 >= hi || b[i + 1] != 94u8 {
        return None;
    }
    match close_bracket(b, i + 2, hi) {
        Some(j) => if j > i + 2 {
            Some((i + 2, j, j + 1))
        } else {
            None
        },
        None => None,
    }
}

/// A footnote definition `[^label]: text` from the line `pos..le`, whose
/// text starts at `p`; the label goes in the info range.
fn scan_footnote(b: &[u8], pos: usize, p: usize, le: usize) -> (r: Option<(BlockSpan, usize)>)
    requires
        is_line_end(b@, le as int),
        pos <= p <= le <= b@.len(),
    ensures
        r is Some <==> is_footnote_line(b@, p as int, le as int),
        r matches Some(x) ==> x.0.end as int == paragraph_from(b@, next_line_of(b@, le as int), le as int).1 && x.1 as int == paragraph_from(b@, next_line_of(b@, le as int), le as int).2,
        r matches Some(x) ==> x.0.kind is Footnote,
        r matches Some(x) ==> newline_gap(b@, x.0.end as int, x.1 as int),
        r matches Some(x) ==> x.0.end < x.1 || x.1 == b@.len(),
        r matches Some(x) ==> span_ok(x.0, b@.len() as int) && x.0.start == pos && le <= x.1
            <= b@.len() && (pos < x.1 || x.1 == b@.len()),
{
    if p >= le {
        return None;
    }
    let (l0, l1, end) = match footnote_ref_at(b, p, le) {
        Some(x) => x,
        None => {
            return None;
        },
    };
    if end >= le || b[end] != 58u8 {
        return None;
    }
    let body_start = skip_blanks(b, end + 1, le);
    let (para, next) = scan_paragraph(b, pos, body_start, le);
    let mut bs = span(BlockKind::Footnote, pos, para.end, body_start, para.body_end);
    bs.info_start = l0;
    bs.info_end = l1;
    Some((bs, next))
}

/// Byte `k` lies in one of `blocks` or on the line of one of `defs`.
pub open spec fn covered_by(blocks: Seq<BlockSpan>, defs: Seq<LinkDef>, k: int) -> bool {
    ||| exists|i: int| 0 <= i < blocks.len() && #[trigger] blocks[i].start <= k < blocks[i].end
    ||| exists|d: int| 0 <= d < defs.len() && #[trigger] defs[d].line_start <= k < defs[d].line_end
}

/// The blocks of a source `b` lie in it in order without overlapping, and
/// every byte of it that is not a space, tab or newline lies in a block or
/// on a link definition's line.
pub open spec fn blocks_layout(b: Seq<u8>, blocks: Seq<BlockSpan>, defs: Seq<LinkDef>) -> bool {
    &&& forall|i: int| 0 <= i < blocks.len() ==> span_ok(#[trigger] blocks[i], b.len() as int)
    &&& forall|i: int, j: int| 0 <= i < j < blocks.len() ==> #[trigger] blocks[i].end <= #[trigger] blocks[j].start
    &&& forall|k: int| 0 <= k < b.len() && !is_blank_byte(b[k]) ==> covered_by(blocks, defs, k)
    &&& forall|i: int| 0 <= i < blocks.len() ==> on_lines(b, #[trigger] blocks[i])
    &&& forall|d: int| 0 <= d < defs.len() ==> def_on_line(b, #[trigger] defs[d])
}

/// `d` spans a whole line whose text, after at most three spaces, is a link
/// reference definition.
pub open spec fn def_on_line(b: Seq<u8>, d: LinkDef) -> bool {
    &&& d.line_end as int == line_end_from(b, d.line_start as int)
    &&& indent_from(b, d.line_start as int, d.line_start as int, d.line_end as int, 4) - d.line_start < 4
    &&& is_def_line(
        b,
        indent_from(b, d.line_start as int, d.line_start as int, d.line_end as int, 3),
        d.line_end as int,
    )
}

/// `bs` starts where a line starts and ends where a line ends.
pub open spec fn on_lines(b: Seq<u8>, bs: BlockSpan) -> bool {
    &&& bs.start == 0 || (0 < bs.start <= b.len() && b[bs.start - 1] == NEWLINE)
    &&& is_line_end(b, bs.end as int)
}

proof fn lemma_cover_push_block(blocks: Seq<BlockSpan>, defs: Seq<LinkDef>, bs: BlockSpan, k: int)
    requires
        covered_by(blocks, defs, k),
    ensures
        covered_by(blocks.push(bs), defs, k),
{
    if exists|i: int| 0 <= i < blocks.len() && #[trigger] blocks[i].start <= k < blocks[i].end {
        let i = choose|i: int| 0 <= i < blocks.len() && #[trigger] blocks[i].start <= k < blocks[i].end;
        assert(blocks.push(bs)[i] == blocks[i]);
    }
}

proof fn lemma_cover_push_def(blocks: Seq<BlockSpan>, defs: Seq<LinkDef>, d: LinkDef, k: int)
    requires
        covered_by(blocks, defs, k),
    ensures
        covered_by(blocks, defs.push(d), k),
{
    if exists|j: int| 0 <= j < defs.len() && #[trigger] defs[j].line_start <= k < defs[j].line_end {
        let j = choose|j: int| 0 <= j < defs.len() && #[trigger] defs[j].line_start <= k < defs[j].line_end;
        assert(defs.push(d)[j] == defs[j]);
    }
}

proof fn lemma_cover_block(
    b: Seq<u8>,
    blocks: Seq<BlockSpan>,
    defs: Seq<LinkDef>,
    bs: BlockSpan,
    pos: int,
    next: int,
)
    requires
        forall|k: int| 0 <= k < pos && !is_blank_byte(b[k]) ==> covered_by(blocks, defs, k),
        bs.start == pos,
        pos <= bs.end,
        newline_gap(b, bs.end as int, next),
    ensures
        forall|k: int| 0 <= k < next && !is_blank_byte(b[k]) ==> covered_by(blocks.push(bs), defs, k),
{
    assert forall|k: int| 0 <= k < next && !is_blank_byte(b[k]) implies covered_by(blocks.push(bs), defs, k) by {
        if k < pos {
            lemma_cover_push_block(blocks, defs, bs, k);
        } else {
            let i = blocks.len() as int;
            assert(blocks.push(bs)[i] == bs);
            assert(blocks.push(bs)[i].start <= k < blocks.push(bs)[i].end);
        }
    }
}

proof fn lemma_cover_def(b: Seq<u8>, blocks: Seq<BlockSpan>, defs: Seq<LinkDef>, d: LinkDef, pos: int, next: int)
    requires
        forall|k: int| 0 <= k < pos && !is_blank_byte(b[k]) ==> covered_by(blocks, defs, k),
        d.line_start == pos,
        pos <= d.line_end,
        newline_gap(b, d.line_end as int, next),
    ensures
        forall|k: int| 0 <= k < next && !is_blank_byte(b[k]) ==> covered_by(blocks, defs.push(d), k),
{
    assert forall|k: int| 0 <= k < next && !is_blank_byte(b[k]) implies covered_by(blocks, defs.push(d), k) by {
        if k < pos {
            lemma_cover_push_def(blocks, defs, d, k);
        } else {
            let j = defs.len() as int;
            assert(defs.push(d)[j] == d);
            assert(defs.push(d)[j].line_start <= k < defs.push(d)[j].line_end);
        }
    }
}

/// The block that opens on the non-blank line `pos..le`, whose text starts
/// at `p` after at most three spaces, and the position after it.
fn scan_block_at(b: &[u8], pos: usize, p: usize, le: usize) -> (r: (BlockSpan, usize))
    requires
        pos < le <= b@.len(),
        le as int == line_end_from(b@, pos as int),
        is_line_end(b@, le as int),
        p as int == indent_from(b@, pos as int, pos as int, le as int, 3),
        pos <= p <= le,
    ensures
        span_ok(r.0, b@.len() as int),
        r.0.start == pos,
        newline_gap(b@, r.0.end as int, r.1 as int),
        r.0.end < r.1 || r.1 == b@.len(),
        pos < r.1 || r.1 == b@.len(),
        r.1 <= b@.len(),
        block_info(r.0) == block_at(b@, pos as int, p as int, le as int).0,
        r.1 as int == block_at(b@, pos as int, p as int, le as int).1,
{
    let nl = next_line(b, le);
    if skip_indent(b, pos, le, 4) - pos == 4 {
        scan_indented(b, pos, le)
    } else if is_rule(b, p, le) {
        (span(BlockKind::Rule, pos, le, pos, le), nl)
    } else {
        let lv = atx_level(b, p, le);
        let f = fence_at(b, p, le);
        let m = list_marker(b, p, le);
        if lv > 0 {
            (scan_atx(b, pos, p, le, lv), nl)
        } else if f.1 > 0 {
            scan_fenced(b, pos, p, le, f.0, f.1)
        } else if p < le && b[p] == 62u8 {
            scan_quote(b, pos, p, le)
        } else if m.0 != 0 {
            scan_list(b, pos, p, le, m.0, m.1)
        } else {
            scan_paragraph(b, pos, p, le)
        }
    }
}

/// The top-level blocks of `b`, in order, and its link reference definitions.
#[verifier::rlimit(100)]
pub fn scan_blocks(b: &[u8], grammar: Grammar) -> (r: (Vec<BlockSpan>, Vec<LinkDef>))
    ensures
        forall|k: int| 0 <= k < r.0@.len() ==> span_ok(#[trigger] r.0@[k], b@.len() as int),
        forall|k: int| 0 <= k < r.1@.len() ==> def_ok(#[trigger] r.1@[k], b@.len() as int),
        blocks_layout(b@, r.0@, r.1@),
        block_infos(r.0@) == blocks_from(b@, grammar, 0),
{
    let n = b.len();
    let mut blocks: Vec<BlockSpan> = Vec::new();
    let mut defs: Vec<LinkDef> = Vec::new();
    let mut pos: usize = 0;
    while pos < n
        invariant
            pos <= n,
            n == b@.len(),
            forall|k: int| 0 <= k < blocks@.len() ==> span_ok(#[trigger] blocks@[k], n as int),
            forall|k: int| 0 <= k < defs@.len() ==> def_ok(#[trigger] defs@[k], n as int),
            forall|i: int| 0 <= i < blocks@.len() ==> #[trigger] blocks@[i].end <= pos,
            forall|i: int, j: int| 0 <= i < j < blocks@.len() ==> #[trigger] blocks@[i].end <= #[trigger] blocks@[j].start,
            forall|k: int| 0 <= k < pos && !is_blank_byte(b@[k]) ==> covered_by(blocks@, defs@, k),
            forall|i: int| 0 <= i < blocks@.len() ==> on_lines(b@, #[trigger] blocks@[i]),
            forall|d: int| 0 <= d < defs@.len() ==> def_on_line(b@, #[trigger] defs@[d]),
            pos == 0 || pos == n || b@[pos - 1] == NEWLINE,
            block_infos(blocks@) + blocks_from(b@, grammar, pos as int) == blocks_from(b@, grammar, 0),
        ensures
            block_infos(blocks@) == blocks_from(b@, grammar, 0),
            forall|k: int| 0 <= k < n && !is_blank_byte(b@[k]) ==> covered_by(blocks@, defs@, k),
        decreases n - pos,
    {
        let ghost bl0 = blocks@;
        let ghost df0 = defs@;
        let le = line_end(b, pos);
        let nl = next_line(b, le);
        assert(newline_gap(b@, le as int, nl as int));
        if is_blank(b, pos, le) {
            if nl == pos {
                break;
            }
            pos = nl;
            continue;
        }
        let p = skip_indent(b, pos, le, 3);
        if pos == 0 && (grammar.yaml_metadata || grammar.pluses_metadata) {
            let c = if grammar.yaml_metadata && delimiter_line(b, 0, le, 45u8) {
                45u8
            } else if grammar.pluses_metadata && delimiter_line(b, 0, le, 43u8) {
                43u8
            } else {
                0u8
            };
            if c != 0 {
                match scan_metadata(b, le, c) {
                    Some((bs, next)) => {
                        proof {
                            lemma_cover_block(b@, blocks@, defs@, bs, pos as int, next as int);
                        }
                        blocks.push(bs);
                        pos = next;
                        continue;
                    },
                    None => {},
                }
            }
        }
        if grammar.tables && skip_indent(b, pos, le, 4) - pos < 4 {
            match scan_table(b, pos, le) {
                Some((bs, next)) => {
                    proof {
                        lemma_cover_block(b@, blocks@, defs@, bs, pos as int, next as int);
                    }
                    blocks.push(bs);
                    if next <= pos {
                        break;
                    }
                    pos = next;
                    continue;
                },
                None => {},
            }
        }
        if grammar.footnotes && skip_indent(b, pos, le, 4) - pos < 4 {
            match scan_footnote(b, pos, p, le) {
                Some((bs, next)) => {
                    proof {
                        lemma_cover_block(b@, blocks@, defs@, bs, pos as int, next as int);
                    }
                    blocks.push(bs);
                    if next <= pos {
                        break;
                    }
                    pos = next;
                    continue;
                },
                None => {},
            }
        }
        if skip_indent(b, pos, le, 4) - pos < 4 {
            match link_def_at(b, p, le) {
                Some(d0) => {
                    let d = LinkDef { line_start: pos, line_end: le, ..d0 };
                    assert(def_on_line(b@, d));
                    proof {
                        lemma_cover_def(b@, blocks@, defs@, d, pos as int, nl as int);
                    }
                    defs.push(d);
                    if nl == pos {
                        break;
                    }
                    pos = nl;
                    continue;
                },
                None => {},
            }
        }
        let (bs, next) = scan_block_at(b, pos, p, le);
        proof {
            lemma_cover_block(b@, blocks@, defs@, bs, pos as int, next as int);
            {
                let bi = block_at(b@, pos as int, p as int, le as int);
                assert(block_infos(blocks@.push(bs)) =~= block_infos(blocks@).push(block_info(bs)));
                if next > pos {
                    assert(blocks_from(b@, grammar, pos as int) == seq![bi.0] + blocks_from(b@, grammar, next as int));
                    assert(block_infos(blocks@.push(bs)) + blocks_from(b@, grammar, next as int) =~= block_infos(blocks@)
                        + blocks_from(b@, grammar, pos as int));
                } else {
                    assert(block_infos(blocks@.push(bs)) =~= block_infos(blocks@) + blocks_from(b@, grammar, pos as int));
                }
            }
        }
        blocks.push(bs);
        if next <= pos {
            break;
        }
        pos = next;
    }
    (blocks, defs)
}

fn ascii_lower(c: u8) -> u8 {
    if 65u8 <= c && c <= 90u8 {
        c + 32
    } else {
        c
    }
}

/// Whether the labels `a0..a1` and `c0..c1` of `b` are equal up to ASCII case.
fn same_label(b: &[u8], a0: usize, a1: usize, c0: usize, c1: usize) -> bool
    requires
        a0 <= a1 <= b@.len(),
        c0 <= c1 <= b@.len(),
{
    if a1 - a0 != c1 - c0 {
        return false;
    }
    let mut k: usize = 0;
    while k < a1 - a0
        invariant
            a0 <= a1 <= b@.len(),
            c0 <= c1 <= b@.len(),
            a1 - a0 == c1 - c0,
            k <= a1 - a0,
        decreases a1 - a0 - k,
    {
        if ascii_lower(b[a0 + k]) != ascii_lower(b[c0 + k]) {
            return false;
        }
        k = k + 1;
    }
    true
}

/// The first definition of the label `l0..l1`.
fn find_def(b: &[u8], defs: &Vec<LinkDef>, l0: usize, l1: usize) -> (r: Option<usize>)
    requires
        l0 <= l1 <= b@.len(),
        forall|k: int| 0 <= k < defs@.len() ==> def_ok(#[trigger] defs@[k], b@.len() as int),
    ensures
        r matches Some(k) ==> k < defs@.len(),
{
    let mut k: usize = 0;
    while k < defs.len()
        invariant
            l0 <= l1 <= b@.len(),
            k <= defs@.len(),
            forall|j: int| 0 <= j < defs@.len() ==> def_ok(#[trigger] defs@[j], b@.len() as int),
        decreases defs@.len() - k,
    {
        let d = defs[k];
        if same_label(b, d.label_start, d.label_end, l0, l1) {
            return Some(k);
        }
        k = k + 1;
    }
    None
}

/// A reference link whose `[` is at `i`, within `i..hi`: the range of its
/// text, the range of its label, its end, and how it was written.
fn ref_link_at(b: &[u8], i: usize, hi: usize) -> (r: Option<(usize, usize, usize, usize, usize, LinkType)>)
    requires
        i < hi <= b@.len(),
    ensures
        r matches Some(x) ==> {
            &&& i < x.0 <= x.1 < x.4 <= hi
            &&& i < x.2 <= x.3 < x.4
            &&& is_reference_kind(x.5)
        },
{
    if b[i] != 91u8 {
        return None;
    }
    match close_bracket(b, i + 1, hi) {
        None => None,
        Some(j) => {
            if j == i + 1 {
                None
            } else if j + 1 < hi && b[j + 1] == 91u8 {
                match close_bracket(b, j + 2, hi) {
                    None => None,
                    Some(k) => {
                        if k == j + 2 {
                            Some((i + 1, j, i + 1, j, k + 1, LinkType::Collapsed))
                        } else {
                            Some((i + 1, j, j + 2, k, k + 1, LinkType::Reference))
                        }
                    },
                }
            } else if j + 1 < hi && b[j + 1] == 40u8 {
                None
            } else {
                Some((i + 1, j, i + 1, j, j + 1, LinkType::Shortcut))
            }
        },
    }
}

/// A reference link whose label has no definition in the document.
#[derive(Clone, Debug)]
pub struct BrokenLink {
    /// The label as written.
    pub reference: String,
    /// How the link was written: one of the "unknown" kinds.
    pub link_type: LinkType,
}

/// The chunk kind of a block.
pub open spec fn block_chunk_kind(k: BlockKind) -> ChunkKind {
    match k {
        BlockKind::Rule => ChunkKind::Rule,
        BlockKind::Heading(level) => ChunkKind::Heading(level),
        BlockKind::Paragraph => ChunkKind::Paragraph,
        BlockKind::FencedCode => ChunkKind::CodeBlock,
        BlockKind::IndentedCode => ChunkKind::CodeBlock,
        BlockKind::Quote => ChunkKind::BlockQuote,
        BlockKind::List(_) => ChunkKind::List,
        BlockKind::Table => ChunkKind::Table,
        BlockKind::Footnote => ChunkKind::Footnote,
        BlockKind::Metadata(_) => ChunkKind::Metadata,
    }
}

/// The chunk entry of a block: its byte range and its chunk kind.
pub open spec fn block_info(bs: BlockSpan) -> ChunkInfo {
    ChunkInfo { start: bs.start, end: bs.end, kind: block_chunk_kind(bs.kind) }
}

/// The chunk entries of `blocks`, in order.
pub open spec fn block_infos(blocks: Seq<BlockSpan>) -> Seq<ChunkInfo> {
    blocks.map_values(|bs: BlockSpan| block_info(bs))
}

/// Number of constructs open after `evs`.
pub open spec fn depth_of(evs: Seq<OffsetEvent>, len: int) -> int {
    open_frames(evs, len)->0.len() as int
}

/// The chunk scan of `evs` stands at the nesting depth of `evs`, with the
/// pending openers `stack` and the blocks `found`.
pub open spec fn scan_at(
    evs: Seq<OffsetEvent>,
    len: int,
    stack: Seq<(usize, usize)>,
    found: Seq<ChunkInfo>,
) -> bool {
    &&& open_frames(evs, len) is Some
    &&& chunk_scan(evs, evs.len() as int) == (depth_of(evs, len), stack, found)
}

/// Appends `event` with its range to `out`: the open constructs become those
/// that [`step`] gives, and the chunk scan takes one [`chunk_step`]. Inside a
/// construct that stays open, the scan keeps its pending openers and blocks.
fn emit(out: &mut Vec<OffsetEvent>, event: Event, start: usize, end: usize, len: usize)
    ensures
        final(out)@ == old(out)@.push((OffsetEvent { event, start, end })),
        open_frames(final(out)@, len as int) == step(
            open_frames(old(out)@, len as int),
            (OffsetEvent { event, start, end }),
            len as int,
        ),
        chunk_scan(final(out)@, final(out)@.len() as int) == chunk_step(
            final(out)@,
            chunk_scan(old(out)@, old(out)@.len() as int),
            old(out)@.len() as int,
        ),
        forall|st: Seq<(usize, usize)>, f: Seq<ChunkInfo>|
            #![trigger scan_at(old(out)@, len as int, st, f), scan_at(final(out)@, len as int, st, f)]
            scan_at(old(out)@, len as int, st, f) && depth_of(old(out)@, len as int) > 0 && open_frames(
                final(out)@,
                len as int,
            ) is Some && depth_of(final(out)@, len as int) > 0 ==> scan_at(final(out)@, len as int, st, f),
{
    let ghost before = out@;
    let ev = OffsetEvent { event, start, end };
    out.push(ev);
    let _n = out.len();
    proof {
        assert(out@.drop_last() =~= before);
        assert(out@.subrange(0, before.len() as int) =~= before);
        lemma_chunk_scan_prefix(before, ev, before.len() as int);
    }
}

/// The text of the bytes `start..end`, or the empty string where they do
/// not fall on character boundaries.
fn text_of(text: &str, start: usize, end: usize) -> (r: String) {
    match slice_str(text, start, end) {
        Some(s) => s.to_owned(),
        None => String::new(),
    }
}

/// Emits the inline events of the text `lo..hi` of a paragraph spanning
/// `s..e`, inside the constructs `outer`: reference links whose label is
/// defined, or that `resolver` resolves, become links; with footnotes,
/// `[^label]` is a footnote reference; strikethrough, subscript and
/// superscript spans follow the grammar; the rest is text.
fn emit_inline<F: Fn(BrokenLink) -> Option<(String, String)>>(
    text: &str,
    b: &[u8],
    len: usize,
    out: &mut Vec<OffsetEvent>,
    defs: &Vec<LinkDef>,
    resolver: &F,
    grammar: Grammar,
    s: usize,
    e: usize,
    lo: usize,
    hi: usize,
    Ghost(outer): Ghost<Seq<(TagEnd, int, int)>>,
    Ghost(st0): Ghost<Seq<(usize, usize)>>,
    Ghost(f0): Ghost<Seq<ChunkInfo>>,
)
    requires
        scan_at(old(out)@, len as int, st0, f0),
        len == b@.len(),
        s <= lo <= hi <= e <= len,
        open_frames(old(out)@, len as int) == Some(outer.push((TagEnd::Paragraph, s as int, e as int))),
        forall|k: int| 0 <= k < defs@.len() ==> def_ok(#[trigger] defs@[k], len as int),
        forall|l: BrokenLink| resolver.requires((l,)),
    ensures
        open_frames(final(out)@, len as int) == Some(outer.push((TagEnd::Paragraph, s as int, e as int))),
        scan_at(final(out)@, len as int, st0, f0),
        final(out)@.len() >= old(out)@.len(),
        forall|k: int| 0 <= k < old(out)@.len() ==> final(out)@[k] == old(out)@[k],
{
    let ghost init = out@;
    let ghost frame = (TagEnd::Paragraph, s as int, e as int);
    let ghost frames = outer.push(frame);
    assert(frames.last() == frame);
    let mut run = lo;
    let mut i = lo;
    while i < hi
        invariant
            scan_at(out@, len as int, st0, f0),
            out@.len() >= init.len(),
            forall|k: int| 0 <= k < init.len() ==> out@[k] == init[k],
            len == b@.len(),
            s <= lo <= run <= i <= hi <= e <= len,
            frame == (TagEnd::Paragraph, s as int, e as int),
            frames == outer.push(frame),
            frames.last() == frame,
            open_frames(out@, len as int) == Some(frames),
            forall|k: int| 0 <= k < defs@.len() ==> def_ok(#[trigger] defs@[k], len as int),
            forall|l: BrokenLink| resolver.requires((l,)),
        decreases hi - i,
    {
        match styled_at(b, i, hi, grammar) {
            Some((tag, t0, t1, end)) => {
                if run < i {
                    emit(out, Event::Text(text_of(text, run, i)), run, i, len);
                }
                let ghost inner = frames.push((end_of(tag), i as int, end as int));
                let close = tag.to_end();
                emit(out, Event::Start(tag), i, end, len);
                assert(open_frames(out@, len as int) == Some(inner));
                emit(out, Event::Text(text_of(text, t0, t1)), t0, t1, len);
                assert(open_frames(out@, len as int) == Some(inner));
                emit(out, Event::End(close), i, end, len);
                proof {
                    assert(inner.drop_last() =~= frames);
                }
                run = end;
                i = end;
                continue;
            },
            None => {},
        }
        let note = if grammar.footnotes {
            footnote_ref_at(b, i, hi)
        } else {
            None
        };
        match note {
            Some((l0, l1, end)) => {
                if run < i {
                    emit(out, Event::Text(text_of(text, run, i)), run, i, len);
                }
                emit(out, Event::FootnoteReference(text_of(text, l0, l1)), i, end, len);
                run = end;
                i = end;
                continue;
            },
            None => {},
        }
        match ref_link_at(b, i, hi) {
            None => {
                i = i + 1;
            },
            Some((t0, t1, l0, l1, end, kind)) => {
                let target: Option<(String, String, LinkType)> = match find_def(b, defs, l0, l1) {
                    Some(k) => Some(
                        (text_of(text, defs[k].dest_start, defs[k].dest_end), String::new(), kind),
                    ),
                    None => {
                        let unknown = kind.to_unknown();
                        let broken = BrokenLink { reference: text_of(text, l0, l1), link_type: unknown };
                        match resolver(broken) {
                            Some((url, title)) => Some((url, title, unknown)),
                            None => None,
                        }
                    },
                };
                match target {
                    None => {
                        i = end;
                    },
                    Some((url, title, link_type)) => {
                                                if run < i {
                            emit(out, Event::Text(text_of(text, run, i)), run, i, len);
                        }
                        let ghost inner = frames.push((TagEnd::Link, i as int, end as int));
                        let id = text_of(text, l0, l1);
                        emit(out, Event::Start(Tag::Link { link_type, dest_url: url, title, id }), i, end, len);
                        assert(open_frames(out@, len as int) == Some(inner));
                        emit(out, Event::Text(text_of(text, t0, t1)), t0, t1, len);
                        assert(open_frames(out@, len as int) == Some(inner));
                        emit(out, Event::End(TagEnd::Link), i, end, len);
                        proof {
                            assert(inner.drop_last() =~= frames);
                        }
                        run = end;
                        i = end;
                    },
                }
            },
        }
    }
    if run < hi {
                emit(out, Event::Text(text_of(text, run, hi)), run, hi, len);
    }
}

/// Emits a table row `s..e` (the header row where `head`) inside the table
/// spanning `ts..te`: the row, and in it each cell with its text.
fn emit_row(
    text: &str,
    b: &[u8],
    len: usize,
    out: &mut Vec<OffsetEvent>,
    head: bool,
    ts: usize,
    te: usize,
    s: usize,
    e: usize,
    Ghost(st0): Ghost<Seq<(usize, usize)>>,
    Ghost(f0): Ghost<Seq<ChunkInfo>>,
)
    requires
        scan_at(old(out)@, len as int, st0, f0),
        len == b@.len(),
        ts <= s <= e <= te <= len,
        open_frames(old(out)@, len as int) == Some(seq![(TagEnd::Table, ts as int, te as int)]),
    ensures
        open_frames(final(out)@, len as int) == Some(seq![(TagEnd::Table, ts as int, te as int)]),
        scan_at(final(out)@, len as int, st0, f0),
        final(out)@.len() >= old(out)@.len(),
        forall|k: int| 0 <= k < old(out)@.len() ==> final(out)@[k] == old(out)@[k],
{
    let ghost init = out@;
    let ghost tf = (TagEnd::Table, ts as int, te as int);
    let ghost rf = (if head { TagEnd::TableHead } else { TagEnd::TableRow }, s as int, e as int);
    assert(seq![tf].last() == tf);
    let tag = if head {
        Tag::TableHead
    } else {
        Tag::TableRow
    };
    emit(out, Event::Start(tag), s, e, len);
    assert(open_frames(out@, len as int) == Some(seq![tf].push(rf)));
    let (first, q) = row_bounds(b, s, e);
    let mut p = first;
    while p <= q
        invariant
            scan_at(out@, len as int, st0, f0),
            out@.len() >= init.len(),
            forall|k: int| 0 <= k < init.len() ==> out@[k] == init[k],
            len == b@.len(),
            ts <= s <= first <= q <= e <= te <= len,
            first <= p,
            tf == (TagEnd::Table, ts as int, te as int),
            rf == (if head { TagEnd::TableHead } else { TagEnd::TableRow }, s as int, e as int),
            open_frames(out@, len as int) == Some(seq![tf].push(rf)),
        decreases q + 1 - p,
    {
        let k = cell_end(b, p, q);
        let c0 = skip_blanks(b, p, k);
        let c1 = trim_end_blanks(b, c0, k);
        let ghost row = seq![tf].push(rf);
        let ghost inner = row.push((TagEnd::TableCell, p as int, k as int));
        assert(row.last() == rf);
        emit(out, Event::Start(Tag::TableCell), p, k, len);
        assert(open_frames(out@, len as int) == Some(inner));
        emit(out, Event::Text(text_of(text, c0, c1)), c0, c1, len);
        assert(open_frames(out@, len as int) == Some(inner));
        emit(out, Event::End(TagEnd::TableCell), p, k, len);
        proof {
            assert(inner.drop_last() =~= row);
        }
        if k >= q {
            break;
        }
        p = k + 1;
    }
    let end_tag = if head {
        TagEnd::TableHead
    } else {
        TagEnd::TableRow
    };
    emit(out, Event::End(end_tag), s, e, len);
    proof {
        assert(seq![tf].push(rf).drop_last() =~= seq![tf]);
    }
}

/// Opens a top-level block with `tag` over `s..e`: the chunk scan records it
/// as its one pending opener.
fn open_block(out: &mut Vec<OffsetEvent>, tag: Tag, s: usize, e: usize, len: usize, Ghost(found): Ghost<Seq<ChunkInfo>>)
    requires
        scan_at(old(out)@, len as int, Seq::empty(), found),
        open_frames(old(out)@, len as int) == Some(Seq::<(TagEnd, int, int)>::empty()),
        s <= e <= len,
        is_block_tag_spec(tag),
    ensures
        final(out)@ == old(out)@.push((OffsetEvent { event: Event::Start(tag), start: s, end: e })),
        old(out)@.len() < usize::MAX,
        open_frames(final(out)@, len as int) == Some(seq![(end_of(tag), s as int, e as int)]),
        scan_at(final(out)@, len as int, seq![(old(out)@.len() as usize, s)], found),
{
    let ghost j0 = out@.len();
    emit(out, Event::Start(tag), s, e, len);
    let _n = out.len();
    proof {
        assert(Seq::<(TagEnd, int, int)>::empty().push((end_of(tag), s as int, e as int)) =~= seq![(end_of(tag), s as int, e as int)]);
        assert(Seq::<(usize, usize)>::empty().push((j0 as usize, s)) =~= seq![(j0 as usize, s)]);
        assert(out@[j0 as int].event == Event::Start(tag));
    }
}

/// Closes the top-level block whose start event is `out[j0]`, a start of
/// `tag`: the chunk scan adds its entry.
fn close_block(
    out: &mut Vec<OffsetEvent>,
    t: TagEnd,
    s: usize,
    e: usize,
    len: usize,
    Ghost(j0): Ghost<int>,
    Ghost(tag): Ghost<Tag>,
    Ghost(found): Ghost<Seq<ChunkInfo>>,
)
    requires
        open_frames(old(out)@, len as int) == Some(seq![(t, s as int, e as int)]),
        scan_at(old(out)@, len as int, seq![(j0 as usize, s)], found),
        s <= e <= len,
        0 <= j0 < old(out)@.len(),
        j0 < usize::MAX,
        old(out)@[j0].event == Event::Start(tag),
        end_of(tag) == t,
        is_block_tag_spec(tag),
    ensures
        open_frames(final(out)@, len as int) == Some(Seq::<(TagEnd, int, int)>::empty()),
        scan_at(final(out)@, len as int, Seq::empty(), found.push(ChunkInfo { start: s, end: e, kind: kind_of(tag) })),
{
    let ghost before = out@;
    emit(out, Event::End(t), s, e, len);
    proof {
        assert(seq![(t, s as int, e as int)].last() == (t, s as int, e as int));
        assert(seq![(t, s as int, e as int)].drop_last() =~= Seq::<(TagEnd, int, int)>::empty());
        assert(seq![(j0 as usize, s)].last() == (j0 as usize, s));
        assert(seq![(j0 as usize, s)].drop_last() =~= Seq::<(usize, usize)>::empty());
        assert((j0 as usize) as int == j0);
        assert(out@[j0] == before[j0]);
        assert(depth_of(before, len as int) == 1);
        assert(depth_of(out@, len as int) == 0);
    }
}

/// Emits the events of one top-level block.
fn emit_block<F: Fn(BrokenLink) -> Option<(String, String)>>(
    text: &str,
    b: &[u8],
    len: usize,
    out: &mut Vec<OffsetEvent>,
    bs: &BlockSpan,
    defs: &Vec<LinkDef>,
    resolver: &F,
    grammar: Grammar,
    Ghost(found): Ghost<Seq<ChunkInfo>>,
)
    requires
        scan_at(old(out)@, len as int, Seq::empty(), found),
        len == b@.len(),
        open_frames(old(out)@, len as int) == Some(Seq::<(TagEnd, int, int)>::empty()),
        span_ok(*bs, len as int),
        forall|k: int| 0 <= k < defs@.len() ==> def_ok(#[trigger] defs@[k], len as int),
        forall|l: BrokenLink| resolver.requires((l,)),
    ensures
        open_frames(final(out)@, len as int) == Some(Seq::<(TagEnd, int, int)>::empty()),
        scan_at(final(out)@, len as int, Seq::empty(), found.push(block_info(*bs))),
{
    let s = bs.start;
    let e = bs.end;
    let ghost j0 = out@.len() as int;
    let ghost st1 = seq![(j0 as usize, s)];
    match bs.kind {
        BlockKind::Rule => {
            emit(out, Event::Rule, s, e, len);
            assert(open_frames(out@, len as int) == Some(Seq::<(TagEnd, int, int)>::empty()));
            assert(depth_of(out@, len as int) == 0);
        },
        BlockKind::Heading(level) => {
            let tag = Tag::Heading { level, id: None, classes: Vec::new(), attrs: Vec::new() };
            let ghost gtag = tag;
            open_block(out, tag, s, e, len, Ghost(found));
            emit(out, Event::Text(text_of(text, bs.body_start, bs.body_end)), bs.body_start, bs.body_end, len);
            close_block(out, TagEnd::Heading(level), s, e, len, Ghost(j0), Ghost(gtag), Ghost(found));
        },
        BlockKind::Paragraph => {
            let tag = Tag::Paragraph;
            let ghost gtag = tag;
            open_block(out, tag, s, e, len, Ghost(found));
            let ghost top = Seq::<(TagEnd, int, int)>::empty();
            assert(Seq::<(TagEnd, int, int)>::empty().push((TagEnd::Paragraph, s as int, e as int))
                =~= seq![(TagEnd::Paragraph, s as int, e as int)]);
            emit_inline(
                text,
                b,
                len,
                out,
                defs,
                resolver,
                grammar,
                s,
                e,
                bs.body_start,
                bs.body_end,
                Ghost(top),
                Ghost(st1),
                Ghost(found),
            );
            close_block(out, TagEnd::Paragraph, s, e, len, Ghost(j0), Ghost(gtag), Ghost(found));
            proof {
                assert(seq![(TagEnd::Paragraph, s as int, e as int)].drop_last()
                    =~= Seq::<(TagEnd, int, int)>::empty());
            }
        },
        BlockKind::FencedCode => {
            let info = text_of(text, bs.info_start, bs.info_end);
            let tag = Tag::CodeBlock(CodeBlockKind::Fenced(info));
            let ghost gtag = tag;
            open_block(out, tag, s, e, len, Ghost(found));
            emit(out, Event::Text(text_of(text, bs.body_start, bs.body_end)), bs.body_start, bs.body_end, len);
            close_block(out, TagEnd::CodeBlock, s, e, len, Ghost(j0), Ghost(gtag), Ghost(found));
        },
        BlockKind::IndentedCode => {
            let tag = Tag::CodeBlock(CodeBlockKind::Indented);
            let ghost gtag = tag;
            open_block(out, tag, s, e, len, Ghost(found));
            emit(out, Event::Text(text_of(text, bs.body_start, bs.body_end)), bs.body_start, bs.body_end, len);
            close_block(out, TagEnd::CodeBlock, s, e, len, Ghost(j0), Ghost(gtag), Ghost(found));
        },
        BlockKind::Quote => {
            let tag = Tag::BlockQuote(None);
            let ghost gtag = tag;
            open_block(out, tag, s, e, len, Ghost(found));
            let ghost qf = (TagEnd::BlockQuote(None), s as int, e as int);
            let ghost pf = (TagEnd::Paragraph, bs.body_start as int, bs.body_end as int);
            assert(seq![qf].last() == qf);
            emit(out, Event::Start(Tag::Paragraph), bs.body_start, bs.body_end, len);
            assert(open_frames(out@, len as int) == Some(seq![qf].push(pf)));
            assert(seq![qf].push(pf).last() == pf);
            emit(out, Event::Text(text_of(text, bs.body_start, bs.body_end)), bs.body_start, bs.body_end, len);
            emit(out, Event::End(TagEnd::Paragraph), bs.body_start, bs.body_end, len);
            assert(seq![qf].push(pf).drop_last() =~= seq![qf]);
            close_block(out, TagEnd::BlockQuote(None), s, e, len, Ghost(j0), Ghost(gtag), Ghost(found));
        },
        BlockKind::Footnote => {
            let label = text_of(text, bs.info_start, bs.info_end);
            let tag = Tag::FootnoteDefinition(label);
            let ghost gtag = tag;
            open_block(out, tag, s, e, len, Ghost(found));
            let ghost ff = (TagEnd::FootnoteDefinition, s as int, e as int);
            let ghost pf = (TagEnd::Paragraph, bs.body_start as int, bs.body_end as int);
            assert(Seq::<(TagEnd, int, int)>::empty().push(ff) =~= seq![ff]);
            assert(seq![ff].last() == ff);
            let ghost around = seq![ff];
            emit(out, Event::Start(Tag::Paragraph), bs.body_start, bs.body_end, len);
            emit_inline(
                text,
                b,
                len,
                out,
                defs,
                resolver,
                grammar,
                bs.body_start,
                bs.body_end,
                bs.body_start,
                bs.body_end,
                Ghost(around),
                Ghost(st1),
                Ghost(found),
            );
            assert(seq![ff].push(pf).last() == pf);
            emit(out, Event::End(TagEnd::Paragraph), bs.body_start, bs.body_end, len);
            proof {
                assert(seq![ff].push(pf).drop_last() =~= seq![ff]);
            }
            close_block(out, TagEnd::FootnoteDefinition, s, e, len, Ghost(j0), Ghost(gtag), Ghost(found));
            proof {
                assert(seq![ff].drop_last() =~= Seq::<(TagEnd, int, int)>::empty());
            }
        },
        BlockKind::Metadata(kind) => {
            let tag = Tag::MetadataBlock(kind);
            let ghost gtag = tag;
            open_block(out, tag, s, e, len, Ghost(found));
            emit(out, Event::Text(text_of(text, bs.body_start, bs.body_end)), bs.body_start, bs.body_end, len);
            close_block(out, TagEnd::MetadataBlock(kind), s, e, len, Ghost(j0), Ghost(gtag), Ghost(found));
        },
        BlockKind::Table => {
            let tag = Tag::Table(bs.aligns.clone());
            let ghost gtag = tag;
            open_block(out, tag, s, e, len, Ghost(found));
            let ghost tf = (TagEnd::Table, s as int, e as int);
            assert(Seq::<(TagEnd, int, int)>::empty().push(tf) =~= seq![tf]);
            let mut k: usize = 0;
            while k < bs.items.len()
                invariant
                    len == b@.len(),
                    span_ok(*bs, len as int),
                    s == bs.start,
                    e == bs.end,
                    k <= bs.items@.len(),
                    tf == (TagEnd::Table, s as int, e as int),
                    scan_at(out@, len as int, st1, found),
                    st1 == seq![(j0 as usize, s)],
                    0 <= j0 < out@.len(),
                    out@[j0] == (OffsetEvent { event: Event::Start(gtag), start: s, end: e }),
                    j0 < usize::MAX,
                    end_of(gtag) == TagEnd::Table,
                    open_frames(out@, len as int) == Some(seq![tf]),
                decreases bs.items@.len() - k,
            {
                let ghost it0 = out@;
                let (rs, re) = bs.items[k];
                assert(bs.start <= bs.items@[k as int].0 <= bs.items@[k as int].1 <= bs.end);
                emit_row(text, b, len, out, k == 0, s, e, rs, re, Ghost(st1), Ghost(found));
                assert(out@[j0] == it0[j0]);
                k = k + 1;
            }
            close_block(out, TagEnd::Table, s, e, len, Ghost(j0), Ghost(gtag), Ghost(found));
            proof {
                assert(seq![tf].drop_last() =~= Seq::<(TagEnd, int, int)>::empty());
            }
        },
        BlockKind::List(number) => {
            let tag = Tag::List(number);
            let ghost gtag = tag;
            open_block(out, tag, s, e, len, Ghost(found));
            let ghost list_frame = (TagEnd::List(number is Some), s as int, e as int);
            let mut k: usize = 0;
            while k < bs.items.len()
                invariant
                    span_ok(*bs, len as int),
                    s == bs.start,
                    e == bs.end,
                    k <= bs.items@.len(),
                    list_frame == (TagEnd::List(number is Some), s as int, e as int),
                    len == b@.len(),
                    scan_at(out@, len as int, st1, found),
                    st1 == seq![(j0 as usize, s)],
                    0 <= j0 < out@.len(),
                    out@[j0] == (OffsetEvent { event: Event::Start(gtag), start: s, end: e }),
                    j0 < usize::MAX,
                    end_of(gtag) == TagEnd::List(number is Some),
                    open_frames(out@, len as int) == Some(seq![list_frame]),
                decreases bs.items@.len() - k,
            {
                let ghost it0 = out@;
                let (is, ie) = bs.items[k];
                assert(bs.start <= bs.items@[k as int].0 <= bs.items@[k as int].1 <= bs.end);
                let ghost inner = seq![list_frame].push((TagEnd::Item, is as int, ie as int));
                assert(seq![list_frame].last() == list_frame);
                emit(out, Event::Start(Tag::Item), is, ie, len);
                assert(open_frames(out@, len as int) == Some(inner));
                emit(out, Event::Text(text_of(text, is, ie)), is, ie, len);
                assert(open_frames(out@, len as int) == Some(inner));
                emit(out, Event::End(TagEnd::Item), is, ie, len);
                proof {
                    assert(inner.drop_last() =~= seq![list_frame]);
                }
                assert(out@[j0] == it0[j0]);
                k = k + 1;
            }
            close_block(out, TagEnd::List(number.is_some()), s, e, len, Ghost(j0), Ghost(gtag), Ghost(found));
            proof {
                assert(seq![list_frame].drop_last() =~= Seq::<(TagEnd, int, int)>::empty());
            }
        },
    }
}

/// The events of `text` with their byte ranges. Their top-level blocks lie
/// in order on whole lines and cover the text, and they are exactly those of
/// the line grammar [`blocks_from`] under the flags.
/// Of the extensions in `options`, tables, metadata blocks and footnotes
/// change the blocks found;
/// footnotes, strikethrough, subscript and superscript change the inline
/// events. Emphasis, code spans, HTML and math are left as text. Reference links whose label has no definition stay text.
pub fn parse_offsets(text: &str, options: Options) -> (r: Vec<OffsetEvent>)
    ensures
        well_formed(r@, text.spec_bytes().len() as int),
        exists|blocks: Seq<BlockSpan>, defs: Seq<LinkDef>|
            blocks_layout(text.spec_bytes(), blocks, defs) && chunk_infos(r@) == block_infos(blocks),
        chunk_infos(r@) == blocks_from(text.spec_bytes(), grammar_spec(options), 0),
{
    let unresolved = |link: BrokenLink| -> (r: Option<(String, String)>)
        ensures
            r is None,
        { None };
    parse_offsets_with_broken_link_callback(text, options, unresolved)
}

/// The events of `text` with their byte ranges. A reference link whose label
/// has no definition in the document is handed to `resolver`; where it gives
/// a destination and a title, the link takes them, with the "unknown" kind of
/// how it was written, and otherwise it stays text.
pub fn parse_offsets_with_broken_link_callback<F: Fn(BrokenLink) -> Option<(String, String)>>(
    text: &str,
    options: Options,
    resolver: F,
) -> (r: Vec<OffsetEvent>)
    requires
        forall|l: BrokenLink| resolver.requires((l,)),
    ensures
        well_formed(r@, text.spec_bytes().len() as int),
        exists|blocks: Seq<BlockSpan>, defs: Seq<LinkDef>|
            blocks_layout(text.spec_bytes(), blocks, defs) && chunk_infos(r@) == block_infos(blocks),
        chunk_infos(r@) == blocks_from(text.spec_bytes(), grammar_spec(options), 0),
{
    let b = text.as_bytes();
    let len = b.len();
    let grammar = grammar_of(options);
    let (blocks, defs) = scan_blocks(b, grammar);
    let mut out: Vec<OffsetEvent> = Vec::new();
    let mut k: usize = 0;
    let ghost found = Seq::<ChunkInfo>::empty();
    while k < blocks.len()
        invariant
            scan_at(out@, len as int, Seq::empty(), found),
            found == block_infos(blocks@.subrange(0, k as int)),
            grammar == grammar_spec(options),
            b@ == text.spec_bytes(),
            block_infos(blocks@) == blocks_from(b@, grammar, 0),
            len == text.spec_bytes().len(),
            len == b@.len(),
            k <= blocks@.len(),
            forall|j: int| 0 <= j < blocks@.len() ==> span_ok(#[trigger] blocks@[j], b@.len() as int),
            forall|j: int| 0 <= j < defs@.len() ==> def_ok(#[trigger] defs@[j], len as int),
            forall|l: BrokenLink| resolver.requires((l,)),
            open_frames(out@, len as int) == Some(Seq::<(TagEnd, int, int)>::empty()),
        decreases blocks@.len() - k,
    {
        emit_block(text, b, len, &mut out, &blocks[k], &defs, &resolver, grammar, Ghost(found));
        proof {
            found = found.push(block_info(blocks@[k as int]));
            assert(block_infos(blocks@.subrange(0, k as int + 1)) =~= found);
        }
        k = k + 1;
    }
    proof {
        assert(blocks@.subrange(0, blocks@.len() as int) =~= blocks@);
        assert(chunk_infos(out@) == block_infos(blocks@));
        assert(blocks_layout(text.spec_bytes(), blocks@, defs@));
        assert(b@ == text.spec_bytes());
    }
    out
}

} // verus!
