//! Text helpers over source strings: byte-range slicing, whitespace
//! trimming and truncation by character count.
use vstd::prelude::*;
use vstd::string::*;
use vstd::utf8::*;

verus! {

broadcast use {vstd::utf8::encode_utf8_decode_utf8, vstd::utf8::encode_utf8_valid_utf8};

/// The characters that the bytes `start..end` of `bytes` encode.
pub open spec fn decoded_range(bytes: Seq<u8>, start: int, end: int) -> Seq<char> {
    decode_utf8(bytes.subrange(start, end))
}

/// Whether the bytes `start..end` of `bytes` can be taken as a string on their own.
pub open spec fn is_str_range(bytes: Seq<u8>, start: int, end: int) -> bool {
    &&& 0 <= start <= end <= bytes.len()
    &&& is_char_boundary(bytes, start)
    &&& is_char_boundary(bytes.subrange(start, bytes.len() as int), end - start)
}

/// The part of `text` between the byte offsets `start` and `end`, where both
/// fall on character boundaries.
pub fn slice_str(text: &str, start: usize, end: usize) -> (r: Option<&str>)
    ensures
        r is Some <==> is_str_range(text.spec_bytes(), start as int, end as int),
        r matches Some(s) ==> s.spec_bytes() == text.spec_bytes().subrange(start as int, end as int),
        r matches Some(s) ==> s@ == decoded_range(text.spec_bytes(), start as int, end as int),
{
    if start > end || end > text.as_bytes().len() || !text.is_char_boundary(start) {
        return None;
    }
    let (_, rest) = text.split_at(start);
    proof {
        assert(rest.spec_bytes() =~= text.spec_bytes().subrange(start as int, text.spec_bytes().len() as int));
    }
    if !rest.is_char_boundary(end - start) {
        return None;
    }
    let (mid, _) = rest.split_at(end - start);
    proof {
        assert(mid.spec_bytes() =~= text.spec_bytes().subrange(start as int, end as int));
        assert(decode_utf8(encode_utf8(mid@)) == mid@);
    }
    Some(mid)
}

/// Unicode's White_Space property.
pub open spec fn is_white_space(c: char) -> bool {
    let u = c as u32;
    ||| 0x09 <= u <= 0x0d
    ||| u == 0x20
    ||| u == 0x85
    ||| u == 0xa0
    ||| u == 0x1680
    ||| 0x2000 <= u <= 0x200a
    ||| u == 0x2028
    ||| u == 0x2029
    ||| u == 0x202f
    ||| u == 0x205f
    ||| u == 0x3000
}

pub fn white_space(c: char) -> (r: bool)
    ensures
        r == is_white_space(c),
{
    let u = c as u32;
    (0x09 <= u && u <= 0x0d) || u == 0x20 || u == 0x85 || u == 0xa0 || u == 0x1680 || (0x2000
        <= u && u <= 0x200a) || u == 0x2028 || u == 0x2029 || u == 0x202f || u == 0x205f || u
        == 0x3000
}

/// The first index at or after `i` that holds no whitespace, or the length.
pub open spec fn skip_lead(s: Seq<char>, i: int) -> int
    decreases s.len() - i,
{
    if 0 <= i < s.len() && is_white_space(s[i]) {
        skip_lead(s, i + 1)
    } else {
        i
    }
}

/// The end left after dropping the whitespace just before `j`, stopping at `lo`.
pub open spec fn skip_trail(s: Seq<char>, lo: int, j: int) -> int
    decreases j - lo,
{
    if lo < j <= s.len() && is_white_space(s[j - 1]) {
        skip_trail(s, lo, j - 1)
    } else {
        j
    }
}

/// `s` without its leading and trailing whitespace.
pub open spec fn trimmed(s: Seq<char>) -> Seq<char> {
    let a = skip_lead(s, 0);
    s.subrange(a, skip_trail(s, a, s.len() as int))
}

/// `s` without its leading and trailing whitespace.
pub fn trim_str(s: &str) -> (r: &str)
    ensures
        r@ == trimmed(s@),
{
    let n = s.unicode_len();
    let mut i: usize = 0;
    while i < n && white_space(s.get_char(i))
        invariant
            n == s@.len(),
            0 <= i <= n,
            skip_lead(s@, i as int) == skip_lead(s@, 0),
        decreases n - i,
    {
        i = i + 1;
    }
    let mut j: usize = n;
    while j > i && white_space(s.get_char(j - 1))
        invariant
            n == s@.len(),
            0 <= i <= j <= n,
            skip_lead(s@, 0) == i,
            skip_trail(s@, i as int, j as int) == skip_trail(s@, i as int, n as int),
        decreases j,
    {
        j = j - 1;
    }
    s.substring_char(i, j)
}

/// The marker put after text that was cut short.
pub open spec fn ellipsis() -> Seq<char> {
    seq!['.', '.', '.']
}

/// `s` cut to at most `max` characters; when it was longer, the ellipsis follows.
pub open spec fn limited(s: Seq<char>, max: Option<usize>) -> Seq<char> {
    match max {
        Some(n) => if s.len() > n {
            s.subrange(0, n as int) + ellipsis()
        } else {
            s
        },
        None => s,
    }
}

/// `s` cut to at most `max` characters, with the ellipsis after a cut.
pub fn limit_str(s: &str, max: Option<usize>) -> (r: String)
    ensures
        r@ == limited(s@, max),
{
    match max {
        Some(n) => {
            if s.unicode_len() > n {
                let head = s.substring_char(0, n).to_owned();
                let tail = "...";
                proof {
                    reveal_strlit("...");
                    assert(tail@ =~= ellipsis());
                }
                head.concat(tail)
            } else {
                s.to_owned()
            }
        },
        None => s.to_owned(),
    }
}

/// Cutting to `n` characters keeps exactly `min(n, s.len())` characters of
/// `s`, its first ones; the ellipsis follows them exactly when `s` was longer.
pub proof fn lemma_truncation(s: Seq<char>, n: usize)
    ensures
        ({
            let kept = if s.len() > n {
                n as int
            } else {
                s.len() as int
            };
            let r = limited(s, Some(n));
            &&& s.len() > n ==> r == s.subrange(0, kept) + ellipsis()
            &&& s.len() <= n ==> r == s.subrange(0, kept)
            &&& r.len() == kept + if s.len() > n {
                3int
            } else {
                0int
            }
        }),
{
    assert(s.subrange(0, s.len() as int) =~= s);
}

/// In valid UTF-8, the byte after a newline starts a character.
pub proof fn lemma_after_newline_is_boundary(b: Seq<u8>, i: int)
    requires
        valid_utf8(b),
        0 < i <= b.len(),
        b[i - 1] == 10,
    ensures
        is_char_boundary(b, i),
{
    if i == b.len() {
        is_char_boundary_start_end_of_seq(b);
    } else {
        is_char_boundary_iff_not_is_continuation_byte(b, i - 1);
        valid_utf8_split(b, i - 1);
        let t = b.subrange(i - 1, b.len() as int);
        assert(t[0] == 10);
        assert(length_of_first_scalar(t) == 1);
        let u = b.subrange(i, b.len() as int);
        assert(pop_first_scalar(t) =~= u);
        assert(valid_utf8(u));
        is_char_boundary_iff_not_is_continuation_byte(u, 0);
        assert(u[0] == b[i]);
        is_char_boundary_iff_not_is_continuation_byte(b, i);
    }
}

/// In valid UTF-8, a range that starts a line and ends one can be taken as
/// a string on its own.
pub proof fn lemma_line_range_is_str(b: Seq<u8>, start: int, end: int)
    requires
        valid_utf8(b),
        0 <= start <= end <= b.len(),
        start == 0 || b[start - 1] == 10,
        end == b.len() || b[end] == 10,
    ensures
        is_str_range(b, start, end),
{
    if start > 0 {
        lemma_after_newline_is_boundary(b, start);
    }
    valid_utf8_split(b, start);
    let u = b.subrange(start, b.len() as int);
    assert(valid_utf8(u));
    if end == b.len() {
        is_char_boundary_start_end_of_seq(u);
        assert(u.len() == end - start);
    } else {
        assert(u[end - start] == 10);
        is_char_boundary_iff_not_is_continuation_byte(u, end - start);
    }
}

} // verus!
