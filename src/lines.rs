//! The line grammar of the block scanner as spec functions: where each line
//! ends, what its first characters open, and which top-level blocks a source
//! holds when no block-level extension is enabled.
use vstd::prelude::*;
use crate::chunk::{ChunkInfo, ChunkKind};
use crate::engine::{Grammar, NEWLINE, SPACE, TAB};
use crate::HeadingLevel;

verus! {

pub open spec fn sp_tab(c: u8) -> bool {
    c == SPACE || c == TAB
}

/// End of the line that holds position `i`: its newline, or the end of input.
pub open spec fn line_end_from(b: Seq<u8>, i: int) -> int
    decreases b.len() - i,
{
    if 0 <= i < b.len() && b[i] != NEWLINE {
        line_end_from(b, i + 1)
    } else {
        i
    }
}

/// Start of the line after the one that ends at `le`.
pub open spec fn next_line_of(b: Seq<u8>, le: int) -> int {
    if le < b.len() {
        le + 1
    } else {
        le
    }
}

/// Position after the spaces from `i` on, at most `max` past `p`, before `le`.
pub open spec fn indent_from(b: Seq<u8>, i: int, p: int, le: int, max: int) -> int
    decreases le - i,
{
    if 0 <= i < le && i < b.len() && i - p < max && b[i] == SPACE {
        indent_from(b, i + 1, p, le, max)
    } else {
        i
    }
}

/// Position after the spaces and tabs from `i` on, before `le`.
pub open spec fn blanks_from(b: Seq<u8>, i: int, le: int) -> int
    decreases le - i,
{
    if 0 <= i < le && i < b.len() && sp_tab(b[i]) {
        blanks_from(b, i + 1, le)
    } else {
        i
    }
}

/// Whether `p..le` holds only spaces and tabs.
pub open spec fn blank_line(b: Seq<u8>, p: int, le: int) -> bool {
    blanks_from(b, p, le) == le
}

/// Position after the `#` marks from `i` on, at most seven past `p`.
pub open spec fn hashes_from(b: Seq<u8>, i: int, p: int, le: int) -> int
    decreases le - i,
{
    if 0 <= i < le && i < b.len() && i - p < 7 && b[i] == 35u8 {
        hashes_from(b, i + 1, p, le)
    } else {
        i
    }
}

/// Level of an ATX heading whose marks start at `p` (1 to 6), or 0.
pub open spec fn atx_of(b: Seq<u8>, p: int, le: int) -> int {
    let i = hashes_from(b, p, p, le);
    let n = i - p;
    if n == 0 || n > 6 {
        0
    } else if i == le || sp_tab(b[i]) {
        n
    } else {
        0
    }
}

/// Position after the run of `c` from `i` on, before `le`.
pub open spec fn run_from(b: Seq<u8>, i: int, le: int, c: u8) -> int
    decreases le - i,
{
    if 0 <= i < le && i < b.len() && b[i] == c {
        run_from(b, i + 1, le, c)
    } else {
        i
    }
}

/// Character and length of a code fence at `p`, or length 0.
pub open spec fn fence_of(b: Seq<u8>, p: int, le: int) -> (u8, int) {
    if p >= le || (b[p] != 96u8 && b[p] != 126u8) {
        (0u8, 0int)
    } else {
        let i = run_from(b, p, le, b[p]);
        if i - p >= 3 {
            (b[p], i - p)
        } else {
            (0u8, 0int)
        }
    }
}

/// Whether `i..le` continues a thematic break of `c`, `count` marks so far.
pub open spec fn rule_from(b: Seq<u8>, i: int, le: int, c: u8, count: int) -> bool
    decreases le - i,
{
    if i >= le || i < 0 || i >= b.len() {
        count >= 3
    } else if b[i] == c {
        rule_from(b, i + 1, le, c, count + 1)
    } else if !sp_tab(b[i]) {
        false
    } else {
        rule_from(b, i + 1, le, c, count)
    }
}

/// Whether `p..le` is a thematic break.
pub open spec fn rule_of(b: Seq<u8>, p: int, le: int) -> bool {
    if p >= le || (b[p] != 42u8 && b[p] != 45u8 && b[p] != 95u8) {
        false
    } else {
        rule_from(b, p, le, b[p], 0)
    }
}

/// Position and value after the digits from `i` on, at most nine past `p`.
pub open spec fn digits_from(b: Seq<u8>, i: int, p: int, le: int, n: int) -> (int, int)
    decreases le - i,
{
    if 0 <= i < le && i < b.len() && i - p < 9 && n < 100_000_000 && 48u8 <= b[i] <= 57u8 {
        digits_from(b, i + 1, p, le, n * 10 + (b[i] - 48u8))
    } else {
        (i, n)
    }
}

/// A list marker at `p`: 1 for a bullet, 2 for an ordered marker, 0 for
/// none; and the position after it.
pub open spec fn marker_of(b: Seq<u8>, p: int, le: int) -> (u8, int) {
    if p >= le {
        (0u8, p)
    } else if b[p] == 45u8 || b[p] == 43u8 || b[p] == 42u8 {
        if p + 1 == le || sp_tab(b[p + 1]) {
            (1u8, p + 1)
        } else {
            (0u8, p)
        }
    } else {
        let i = digits_from(b, p, p, le, 0).0;
        if i == p || i >= le || (b[i] != 46u8 && b[i] != 41u8) {
            (0u8, p)
        } else if i + 1 == le || sp_tab(b[i + 1]) {
            (2u8, i + 1)
        } else {
            (0u8, p)
        }
    }
}

/// Level of a setext underline at `p`, or 0.
pub open spec fn setext_of(b: Seq<u8>, p: int, le: int) -> int {
    if p >= le || (b[p] != 61u8 && b[p] != 45u8) {
        0
    } else {
        let i = run_from(b, p, le, b[p]);
        if blanks_from(b, i, le) != le {
            0
        } else if b[p] == 61u8 {
            1
        } else {
            2
        }
    }
}

/// Whether a line whose text starts at `p` opens a block that ends a paragraph.
pub open spec fn starts_block_of(b: Seq<u8>, p: int, le: int) -> bool {
    ||| atx_of(b, p, le) > 0
    ||| fence_of(b, p, le).1 > 0
    ||| rule_of(b, p, le)
    ||| (p < le && b[p] == 62u8)
    ||| (marker_of(b, p, le).0 != 0 && !blank_line(b, marker_of(b, p, le).1, le))
}

/// Position of the first `]` from `k` on before `hi`, unless a `[` comes first.
pub open spec fn close_from(b: Seq<u8>, k: int, hi: int) -> Option<int>
    decreases hi - k,
{
    if k >= hi || k < 0 || k >= b.len() {
        None
    } else if b[k] == 93u8 {
        Some(k)
    } else if b[k] == 91u8 {
        None
    } else {
        close_from(b, k + 1, hi)
    }
}

/// Position after the characters other than spaces and tabs from `i` on.
pub open spec fn word_from(b: Seq<u8>, i: int, le: int) -> int
    decreases le - i,
{
    if 0 <= i < le && i < b.len() && !sp_tab(b[i]) {
        word_from(b, i + 1, le)
    } else {
        i
    }
}

/// Whether the text `p..le` of a line is a link reference definition
/// `[label]: destination`.
pub open spec fn is_def_line(b: Seq<u8>, p: int, le: int) -> bool {
    &&& p < le
    &&& b[p] == 91u8
    &&& close_from(b, p + 1, le) matches Some(k) && {
        &&& !(k == p + 1 || k + 1 >= le || b[k + 1] != 58u8)
        &&& word_from(b, blanks_from(b, k + 2, le), le) != blanks_from(b, k + 2, le)
    }
}

/// End and next position of a code block fenced by `count` of `c`, whose
/// body lines start at `q`: the closing fence's line, or the end of input.
pub open spec fn fenced_from(b: Seq<u8>, q: int, c: u8, count: int) -> (int, int)
    decreases b.len() - q,
{
    let n = b.len() as int;
    if q >= n || q < 0 {
        (n, n)
    } else {
        let lq = line_end_from(b, q);
        let cp = indent_from(b, q, q, lq, 3);
        let f = fence_of(b, cp, lq);
        if f.0 == c && f.1 >= count && blank_line(b, cp + f.1, lq) {
            (lq, next_line_of(b, lq))
        } else if lq >= n || lq + 1 <= q {
            (n, n)
        } else {
            fenced_from(b, lq + 1, c, count)
        }
    }
}

/// End of an indented code block whose last code line so far ends at
/// `last`, reading on from the line at `q`.
pub open spec fn indented_from(b: Seq<u8>, q: int, last: int) -> int
    decreases b.len() - q,
{
    if q >= b.len() || q < 0 {
        last
    } else {
        let lq = line_end_from(b, q);
        let blank = blank_line(b, q, lq);
        if !blank && indent_from(b, q, q, lq, 4) - q < 4 {
            last
        } else {
            let last2 = if blank {
                last
            } else {
                lq
            };
            let nq = next_line_of(b, lq);
            if nq <= q || nq > b.len() {
                last2
            } else {
                indented_from(b, nq, last2)
            }
        }
    }
}

/// Underline level (0 for none), end and next position of a paragraph whose
/// last line so far ends at `last`, reading on from the line at `q`.
pub open spec fn paragraph_from(b: Seq<u8>, q: int, last: int) -> (int, int, int)
    decreases b.len() - q,
{
    if q >= b.len() || q < 0 {
        (0, last, next_line_of(b, last))
    } else {
        let lq = line_end_from(b, q);
        if blank_line(b, q, lq) {
            (0, last, next_line_of(b, last))
        } else {
            let cp = indent_from(b, q, q, lq, 3);
            let lvl = if cp - q < 3 || cp == lq || b[cp] != SPACE {
                setext_of(b, cp, lq)
            } else {
                0
            };
            if lvl > 0 {
                (lvl, lq, next_line_of(b, lq))
            } else if indent_from(b, q, q, lq, 4) - q < 4 && starts_block_of(b, cp, lq) {
                (0, last, next_line_of(b, last))
            } else {
                let nq = next_line_of(b, lq);
                if nq <= q || nq > b.len() {
                    (0, lq, next_line_of(b, lq))
                } else {
                    paragraph_from(b, nq, lq)
                }
            }
        }
    }
}

/// End of a block quote whose last line so far ends at `last`, reading on
/// from the line at `q`.
pub open spec fn quote_from(b: Seq<u8>, q: int, last: int) -> int
    decreases b.len() - q,
{
    if q >= b.len() || q < 0 {
        last
    } else {
        let lq = line_end_from(b, q);
        let cp = indent_from(b, q, q, lq, 3);
        if blank_line(b, q, lq) {
            last
        } else if !(cp < lq && b[cp] == 62u8) && starts_block_of(b, cp, lq) {
            last
        } else {
            let nq = next_line_of(b, lq);
            if nq <= q || nq > b.len() {
                lq
            } else {
                quote_from(b, nq, lq)
            }
        }
    }
}

/// The first line at or after `q` that is not blank (or the end of input),
/// and whether blank lines were passed.
pub open spec fn skip_blank_lines(b: Seq<u8>, q: int) -> (int, bool)
    decreases b.len() - q,
{
    if 0 <= q < b.len() && blank_line(b, q, line_end_from(b, q)) {
        let lq = line_end_from(b, q);
        let q2 = if next_line_of(b, lq) == lq {
            b.len() as int
        } else {
            next_line_of(b, lq)
        };
        if q2 <= q || q2 > b.len() {
            (b.len() as int, true)
        } else {
            (skip_blank_lines(b, q2).0, true)
        }
    } else {
        (q, false)
    }
}

/// End of a list of markers of `kind` whose last line so far ends at
/// `last`, reading on from the line at `q`.
pub open spec fn list_from(b: Seq<u8>, q: int, last: int, kind: u8) -> int
    decreases b.len() - q,
{
    if q >= b.len() || q < 0 {
        last
    } else {
        let (q2, gap) = skip_blank_lines(b, q);
        if q2 >= b.len() || q2 < q {
            last
        } else {
            let lq = line_end_from(b, q2);
            let ind = indent_from(b, q2, q2, lq, 4) - q2;
            let cp = indent_from(b, q2, q2, lq, 3);
            if ind <= 3 && rule_of(b, cp, lq) {
                last
            } else if !(ind <= 3 && marker_of(b, cp, lq).0 == kind) && !(ind >= 2) && (gap
                || starts_block_of(b, cp, lq)) {
                last
            } else {
                let nq = next_line_of(b, lq);
                if nq <= q2 || nq > b.len() {
                    lq
                } else {
                    list_from(b, nq, lq, kind)
                }
            }
        }
    }
}

/// The heading level numbered `n`, from 1 to 6.
pub open spec fn level_of(n: int) -> HeadingLevel {
    if n == 1 {
        HeadingLevel::H1
    } else if n == 2 {
        HeadingLevel::H2
    } else if n == 3 {
        HeadingLevel::H3
    } else if n == 4 {
        HeadingLevel::H4
    } else if n == 5 {
        HeadingLevel::H5
    } else {
        HeadingLevel::H6
    }
}

/// The chunk entry of the block that opens on the line `pos..le`, whose
/// text starts at `p`, and the position after it.
pub open spec fn block_at(b: Seq<u8>, pos: int, p: int, le: int) -> (ChunkInfo, int) {
    let nl = next_line_of(b, le);
    if indent_from(b, pos, pos, le, 4) - pos == 4 {
        let last = indented_from(b, nl, le);
        (ChunkInfo { start: pos as usize, end: last as usize, kind: ChunkKind::CodeBlock }, next_line_of(b, last))
    } else if rule_of(b, p, le) {
        (ChunkInfo { start: pos as usize, end: le as usize, kind: ChunkKind::Rule }, nl)
    } else if atx_of(b, p, le) > 0 {
        (
            ChunkInfo { start: pos as usize, end: le as usize, kind: ChunkKind::Heading(level_of(atx_of(b, p, le))) },
            nl,
        )
    } else if fence_of(b, p, le).1 > 0 {
        let (end, next) = fenced_from(b, nl, fence_of(b, p, le).0, fence_of(b, p, le).1);
        (ChunkInfo { start: pos as usize, end: end as usize, kind: ChunkKind::CodeBlock }, next)
    } else if p < le && b[p] == 62u8 {
        let last = quote_from(b, nl, le);
        (ChunkInfo { start: pos as usize, end: last as usize, kind: ChunkKind::BlockQuote }, next_line_of(b, last))
    } else if marker_of(b, p, le).0 != 0 {
        let last = list_from(b, nl, le, marker_of(b, p, le).0);
        (ChunkInfo { start: pos as usize, end: last as usize, kind: ChunkKind::List }, next_line_of(b, last))
    } else {
        let (lvl, end, next) = paragraph_from(b, nl, le);
        let kind = if lvl == 0 {
            ChunkKind::Paragraph
        } else {
            ChunkKind::Heading(level_of(lvl))
        };
        (ChunkInfo { start: pos as usize, end: end as usize, kind }, next)
    }
}

/// Whether `p..le` is three of `c` and nothing else but spaces and tabs.
pub open spec fn delim_line_of(b: Seq<u8>, p: int, le: int, c: u8) -> bool {
    &&& le - p >= 3
    &&& b[p] == c && b[p + 1] == c && b[p + 2] == c
    &&& blank_line(b, p + 3, le)
}

/// End and next position of a metadata block delimited by `c` whose body
/// starts at `body_start`, reading on from the line at `q`; `None` where it
/// is not closed or is empty.
pub open spec fn metadata_from(b: Seq<u8>, q: int, body_start: int, c: u8) -> Option<(int, int)>
    decreases b.len() - q,
{
    if q >= b.len() || q < 0 {
        None
    } else {
        let lq = line_end_from(b, q);
        if delim_line_of(b, q, lq, c) || (c == 45u8 && delim_line_of(b, q, lq, 46u8)) {
            if q == body_start {
                None
            } else {
                Some((lq, next_line_of(b, lq)))
            }
        } else {
            let nq = next_line_of(b, lq);
            if nq <= q || nq > b.len() {
                None
            } else {
                metadata_from(b, nq, body_start, c)
            }
        }
    }
}

/// A footnote reference `[^label]` at `i`: the position after it.
pub open spec fn footnote_ref_end(b: Seq<u8>, i: int, hi: int) -> Option<int> {
    if b[i] != 91u8 || i + 1 >= hi || b[i + 1] != 94u8 {
        None
    } else {
        match close_from(b, i + 2, hi) {
            Some(j) => if j > i + 2 {
                Some(j + 1)
            } else {
                None
            },
            None => None,
        }
    }
}

/// Whether the text `p..le` of a line opens a footnote definition `[^label]:`.
pub open spec fn is_footnote_line(b: Seq<u8>, p: int, le: int) -> bool {
    &&& p < le
    &&& footnote_ref_end(b, p, le) matches Some(end) && end < le && b[end] == 58u8
}

/// End left after dropping the spaces and tabs just before `j`, stopping at `lo`.
pub open spec fn trim_back(b: Seq<u8>, lo: int, j: int) -> int
    decreases j - lo,
{
    if lo < j && 0 < j <= b.len() && sp_tab(b[j - 1]) {
        trim_back(b, lo, j - 1)
    } else {
        j
    }
}

/// End of the table cell that starts at `k`: the next pipe, or `q`.
pub open spec fn cell_end_from(b: Seq<u8>, k: int, q: int) -> int
    decreases q - k,
{
    if 0 <= k < q && k < b.len() && b[k] != 124u8 {
        cell_end_from(b, k + 1, q)
    } else {
        k
    }
}

/// The bounds of the cells of the row `s..e`, without the blanks and the
/// pipes at either end.
pub open spec fn row_bounds_of(b: Seq<u8>, s: int, e: int) -> (int, int) {
    let p0 = blanks_from(b, s, e);
    let p = if p0 < e && b[p0] == 124u8 {
        p0 + 1
    } else {
        p0
    };
    let q0 = trim_back(b, p, e);
    let q = if q0 > p && b[q0 - 1] == 124u8 {
        q0 - 1
    } else {
        q0
    };
    (p, q)
}

/// Number of pipes in `k..q`.
pub open spec fn pipes_from(b: Seq<u8>, k: int, q: int) -> int
    decreases q - k,
{
    if 0 <= k < q && k < b.len() {
        (if b[k] == 124u8 {
            1int
        } else {
            0int
        }) + pipes_from(b, k + 1, q)
    } else {
        0
    }
}

/// Whether `j..d1` holds only dashes.
pub open spec fn dashes_from(b: Seq<u8>, j: int, d1: int) -> bool
    decreases d1 - j,
{
    if 0 <= j < d1 && j < b.len() {
        b[j] == 45u8 && dashes_from(b, j + 1, d1)
    } else {
        true
    }
}

/// Number of delimiter cells from `p` on in a row whose cells end at `q`,
/// or `None` where one is not dashes with optional colons at its ends.
pub open spec fn delim_cells(b: Seq<u8>, p: int, q: int) -> Option<int>
    decreases q + 1 - p,
{
    if p > q || p < 0 {
        Some(0)
    } else {
        let k = cell_end_from(b, p, q);
        let c0 = blanks_from(b, p, k);
        let c1 = trim_back(b, c0, k);
        if c0 == c1 {
            None
        } else {
            let left = b[c0] == 58u8;
            let right = c1 > c0 + 1 && b[c1 - 1] == 58u8;
            let d0 = if left {
                c0 + 1
            } else {
                c0
            };
            let d1 = if right {
                c1 - 1
            } else {
                c1
            };
            if d0 >= d1 || !dashes_from(b, d0, d1) {
                None
            } else if k >= q || k < p {
                Some(1)
            } else {
                match delim_cells(b, k + 1, q) {
                    Some(m) => Some(m + 1),
                    None => None,
                }
            }
        }
    }
}

/// Number of cells of the delimiter row `s..e`, or `None` where it is not one.
pub open spec fn delim_row_of(b: Seq<u8>, s: int, e: int) -> Option<int> {
    let (first, q) = row_bounds_of(b, s, e);
    if first == q {
        None
    } else {
        delim_cells(b, first, q)
    }
}

/// End of the body rows of a table whose last row so far ends at `last`,
/// reading on from the line at `q`.
pub open spec fn table_rows_from(b: Seq<u8>, q: int, last: int) -> int
    decreases b.len() - q,
{
    if q >= b.len() || q < 0 {
        last
    } else {
        let lq = line_end_from(b, q);
        if blank_line(b, q, lq) || starts_block_of(b, indent_from(b, q, q, lq, 3), lq) {
            last
        } else {
            let nq = next_line_of(b, lq);
            if nq <= q || nq > b.len() {
                lq
            } else {
                table_rows_from(b, nq, lq)
            }
        }
    }
}

/// End and next position of a table whose header row is the line
/// `pos..le`, or `None` where the next line is no delimiter row with as many
/// cells.
pub open spec fn table_of(b: Seq<u8>, pos: int, le: int) -> Option<(int, int)> {
    if cell_end_from(b, pos, le) == le {
        None
    } else {
        let d = next_line_of(b, le);
        if d >= b.len() {
            None
        } else {
            let ld = line_end_from(b, d);
            match delim_row_of(b, d, ld) {
                None => None,
                Some(cnt) => {
                    let (f, q) = row_bounds_of(b, pos, le);
                    if cnt == 0 || cnt - 1 != pipes_from(b, f, q) {
                        None
                    } else {
                        let last = table_rows_from(b, next_line_of(b, ld), ld);
                        Some((last, next_line_of(b, last)))
                    }
                }
            }
        }
    }
}

/// The top-level blocks of `b` from the line at `pos` on, under `g`: blank
/// lines and link reference definitions open none; a metadata block may open
/// the document; with their flags, tables and footnote definitions open
/// blocks of their own.
pub open spec fn blocks_from(b: Seq<u8>, g: Grammar, pos: int) -> Seq<ChunkInfo>
    decreases b.len() - pos,
{
    if pos >= b.len() || pos < 0 {
        Seq::empty()
    } else {
        let le = line_end_from(b, pos);
        let nl = next_line_of(b, le);
        let p = indent_from(b, pos, pos, le, 3);
        let small = indent_from(b, pos, pos, le, 4) - pos < 4;
        let c: u8 = if g.yaml_metadata && delim_line_of(b, 0, le, 45u8) {
            45u8
        } else if g.pluses_metadata && delim_line_of(b, 0, le, 43u8) {
            43u8
        } else {
            0u8
        };
        let meta = if pos == 0 && (g.yaml_metadata || g.pluses_metadata) && c != 0 {
            metadata_from(b, nl, nl, c)
        } else {
            None
        };
        if blank_line(b, pos, le) {
            if nl <= pos || nl > b.len() {
                Seq::empty()
            } else {
                blocks_from(b, g, nl)
            }
        } else if meta is Some {
            let (end, next) = meta->0;
            let info = ChunkInfo { start: 0, end: end as usize, kind: ChunkKind::Metadata };
            if next <= pos || next > b.len() {
                seq![info]
            } else {
                seq![info] + blocks_from(b, g, next)
            }
        } else if g.tables && small && table_of(b, pos, le) is Some {
            let (end, next) = table_of(b, pos, le)->0;
            let info = ChunkInfo { start: pos as usize, end: end as usize, kind: ChunkKind::Table };
            if next <= pos || next > b.len() {
                seq![info]
            } else {
                seq![info] + blocks_from(b, g, next)
            }
        } else if g.footnotes && small && is_footnote_line(b, p, le) {
            let (_, end, next) = paragraph_from(b, nl, le);
            let info = ChunkInfo { start: pos as usize, end: end as usize, kind: ChunkKind::Footnote };
            if next <= pos || next > b.len() {
                seq![info]
            } else {
                seq![info] + blocks_from(b, g, next)
            }
        } else if small && is_def_line(b, p, le) {
            if nl <= pos || nl > b.len() {
                Seq::empty()
            } else {
                blocks_from(b, g, nl)
            }
        } else {
            let (info, next) = block_at(b, pos, p, le);
            if next <= pos || next > b.len() {
                seq![info]
            } else {
                seq![info] + blocks_from(b, g, next)
            }
        }
    }
}

} // verus!
