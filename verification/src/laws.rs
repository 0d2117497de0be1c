use vstd::prelude::*;

use crate::error::PpmError;
use crate::header::Header;
use crate::header::spec_header;
use crate::numeric::all_dec_digits;
use crate::numeric::all_printable_ascii;
use crate::numeric::dec_value;
use crate::numeric::is_dec_digit;
use crate::numeric::is_printable_ascii;
use crate::numeric::spec_parse_u32;
use crate::pixels::SampleData;
use crate::pixels::be16;
use crate::pixels::spec_byte_count;
use crate::pixels::spec_bytewidth;
use crate::pixels::spec_read_image;
use crate::pixels::spec_sample_count;
use crate::tokenizer::is_line_end;
use crate::tokenizer::lemma_scan_bounds;
use crate::tokenizer::is_ppm_whitespace;
use crate::tokenizer::next_token;
use crate::tokenizer::scan;

verus! {

/// A non-empty run of recognized whitespace bytes.
pub open spec fn ws_run(g: Seq<u8>) -> bool {
    g.len() >= 1 && forall|i: int| 0 <= i < g.len() ==> is_ppm_whitespace(g[i])
}

/// A non-empty decimal token denoting `v`.
pub open spec fn dec_token_for(t: Seq<u8>, v: u32) -> bool {
    t.len() >= 1 && all_dec_digits(t) && dec_value(t) == v
}

/// While the accumulator is empty, leading whitespace is consumed silently.
pub proof fn lemma_scan_skip_ws(s: Seq<u8>, pos: int, end: int)
    requires
        0 <= pos <= end <= s.len(),
        forall|i: int| pos <= i < end ==> is_ppm_whitespace(s[i]),
    ensures
        scan(s, pos, false, Seq::<u8>::empty()) == scan(s, end, false, Seq::<u8>::empty()),
    decreases end - pos,
{
    if pos < end {
        assert(is_ppm_whitespace(s[pos]));
        lemma_scan_skip_ws(s, pos + 1, end);
    }
}

/// A run of plain bytes (no whitespace, no `#`) followed by a whitespace
/// byte is accumulated whole, and exactly that one separator is consumed.
pub proof fn lemma_scan_plain_run(s: Seq<u8>, pos: int, end: int, acc: Seq<u8>)
    requires
        0 <= pos <= end < s.len(),
        forall|i: int| pos <= i < end ==> !is_ppm_whitespace(s[i]) && s[i] != 35,
        is_ppm_whitespace(s[end]),
        acc.len() + end - pos > 0,
    ensures
        scan(s, pos, false, acc) == (acc + s.subrange(pos, end), end + 1),
    decreases end - pos,
{
    if pos == end {
        assert(acc + s.subrange(pos, end) =~= acc);
    } else {
        lemma_scan_plain_run(s, pos + 1, end, acc.push(s[pos]));
        assert(acc.push(s[pos]) + s.subrange(pos + 1, end) =~= acc + s.subrange(pos, end));
    }
}

/// Inside a comment every byte up to the line end is discarded, whatever
/// the accumulator holds, and the line end returns the scanner to normal.
pub proof fn lemma_scan_in_comment(s: Seq<u8>, pos: int, end: int, acc: Seq<u8>)
    requires
        0 <= pos <= end < s.len(),
        forall|i: int| pos <= i < end ==> !is_line_end(s[i]),
        is_line_end(s[end]),
    ensures
        scan(s, pos, true, acc) == scan(s, end + 1, false, acc),
    decreases end - pos,
{
    if pos < end {
        lemma_scan_in_comment(s, pos + 1, end, acc);
    }
}

/// A complete comment met in the normal state is discarded whole: the
/// scanner continues right after the terminating line end, with the
/// accumulator untouched.
pub proof fn lemma_scan_comment(s: Seq<u8>, pos: int, end: int, acc: Seq<u8>)
    requires
        0 <= pos < end < s.len(),
        s[pos] == 35,
        forall|i: int| pos < i < end ==> !is_line_end(s[i]),
        is_line_end(s[end]),
    ensures
        scan(s, pos, false, acc) == scan(s, end + 1, false, acc),
{
    lemma_scan_in_comment(s, pos + 1, end, acc);
}

/// One whole token read: leading whitespace, then at least one plain byte,
/// then one separator, which is consumed but not included.
pub proof fn lemma_scan_gap_token(s: Seq<u8>, pos: int, gap_end: int, tok_end: int)
    requires
        0 <= pos <= gap_end < tok_end < s.len(),
        forall|i: int| pos <= i < gap_end ==> is_ppm_whitespace(s[i]),
        forall|i: int| gap_end <= i < tok_end ==> !is_ppm_whitespace(s[i]) && s[i] != 35,
        is_ppm_whitespace(s[tok_end]),
    ensures
        next_token(s, pos) == (s.subrange(gap_end, tok_end), tok_end + 1),
{
    lemma_scan_skip_ws(s, pos, gap_end);
    lemma_scan_plain_run(s, gap_end, tok_end, Seq::<u8>::empty());
    assert(Seq::<u8>::empty() + s.subrange(gap_end, tok_end) =~= s.subrange(gap_end, tok_end));
}

/// Digits are plain bytes to the scanner and are printable ASCII.
pub proof fn lemma_digit_token_facts(t: Seq<u8>)
    requires
        all_dec_digits(t),
    ensures
        all_printable_ascii(t),
        forall|i: int| 0 <= i < t.len() ==> !is_ppm_whitespace(t[i]) && t[i] != 35,
{
    assert forall|i: int| 0 <= i < t.len() implies is_printable_ascii(t[i]) by {
        assert(is_dec_digit(t[i]));
    }
    assert forall|i: int| 0 <= i < t.len() implies !is_ppm_whitespace(t[i]) && t[i] != 35 by {
        assert(is_dec_digit(t[i]));
    }
}

/// The scanner's state (comment flag, accumulator) when it first reaches
/// position `stop`, or None if the token read finishes (by a separator or
/// the stream's end) before getting there.
pub open spec fn scan_state(
    s: Seq<u8>,
    pos: int,
    in_comment: bool,
    acc: Seq<u8>,
    stop: int,
) -> Option<(bool, Seq<u8>)>
    decreases stop - pos,
{
    if pos >= stop {
        Some((in_comment, acc))
    } else if pos < 0 || pos >= s.len() {
        None
    } else if in_comment {
        scan_state(s, pos + 1, !is_line_end(s[pos]), acc, stop)
    } else if s[pos] == 35 {
        scan_state(s, pos + 1, true, acc, stop)
    } else if is_ppm_whitespace(s[pos]) {
        if acc.len() > 0 {
            None
        } else {
            scan_state(s, pos + 1, false, acc, stop)
        }
    } else {
        scan_state(s, pos + 1, false, acc.push(s[pos]), stop)
    }
}

/// A token read can be cut at any position it reaches: the scan from there,
/// in the state reached, finishes the same token.
pub proof fn lemma_scan_split(
    s: Seq<u8>,
    pos: int,
    ic: bool,
    acc: Seq<u8>,
    stop: int,
    st: (bool, Seq<u8>),
)
    requires
        0 <= pos <= stop,
        stop <= s.len(),
        scan_state(s, pos, ic, acc, stop) == Some(st),
    ensures
        scan(s, pos, ic, acc) == scan(s, stop, st.0, st.1),
    decreases stop - pos,
{
    if pos < stop {
        if ic {
            lemma_scan_split(s, pos + 1, !is_line_end(s[pos]), acc, stop, st);
        } else if s[pos] == 35 {
            lemma_scan_split(s, pos + 1, true, acc, stop, st);
        } else if is_ppm_whitespace(s[pos]) {
            lemma_scan_split(s, pos + 1, false, acc, stop, st);
        } else {
            lemma_scan_split(s, pos + 1, false, acc.push(s[pos]), stop, st);
        }
    }
}

/// Streams that agree on the window `[pos, stop)` drive the scanner through
/// it identically.
pub proof fn lemma_scan_state_window(
    s1: Seq<u8>,
    s2: Seq<u8>,
    pos: int,
    ic: bool,
    acc: Seq<u8>,
    stop: int,
)
    requires
        0 <= pos,
        stop <= s1.len(),
        stop <= s2.len(),
        forall|i: int| pos <= i < stop ==> s1[i] == s2[i],
    ensures
        scan_state(s1, pos, ic, acc, stop) == scan_state(s2, pos, ic, acc, stop),
    decreases stop - pos,
{
    if pos < stop {
        assert(s1[pos] == s2[pos]);
        if ic {
            lemma_scan_state_window(s1, s2, pos + 1, !is_line_end(s1[pos]), acc, stop);
        } else if s1[pos] == 35 {
            lemma_scan_state_window(s1, s2, pos + 1, true, acc, stop);
        } else if is_ppm_whitespace(s1[pos]) {
            if acc.len() == 0 {
                lemma_scan_state_window(s1, s2, pos + 1, false, acc, stop);
            }
        } else {
            lemma_scan_state_window(s1, s2, pos + 1, false, acc.push(s1[pos]), stop);
        }
    }
}

/// A token read that finishes inside a window two streams share reads the
/// same token, ending at the same place, on both.
pub proof fn lemma_scan_early(
    s1: Seq<u8>,
    s2: Seq<u8>,
    pos: int,
    ic: bool,
    acc: Seq<u8>,
    stop: int,
)
    requires
        0 <= pos <= stop,
        stop <= s1.len(),
        stop <= s2.len(),
        forall|i: int| pos <= i < stop ==> s1[i] == s2[i],
        scan_state(s1, pos, ic, acc, stop) is None,
    ensures
        scan(s1, pos, ic, acc) == scan(s2, pos, ic, acc),
    decreases stop - pos,
{
    assert(pos < stop);
    assert(s1[pos] == s2[pos]);
    if ic {
        lemma_scan_early(s1, s2, pos + 1, !is_line_end(s1[pos]), acc, stop);
    } else if s1[pos] == 35 {
        lemma_scan_early(s1, s2, pos + 1, true, acc, stop);
    } else if is_ppm_whitespace(s1[pos]) {
        if acc.len() == 0 {
            lemma_scan_early(s1, s2, pos + 1, false, acc, stop);
        }
    } else {
        lemma_scan_early(s1, s2, pos + 1, false, acc.push(s1[pos]), stop);
    }
}

/// A token read that finishes before `stop` consumes nothing at or past it.
pub proof fn lemma_scan_none_end(s: Seq<u8>, pos: int, ic: bool, acc: Seq<u8>, stop: int)
    requires
        0 <= pos <= stop,
        stop <= s.len(),
        scan_state(s, pos, ic, acc, stop) is None,
    ensures
        scan(s, pos, ic, acc).1 <= stop,
    decreases stop - pos,
{
    assert(pos < stop);
    if ic {
        lemma_scan_none_end(s, pos + 1, !is_line_end(s[pos]), acc, stop);
    } else if s[pos] == 35 {
        lemma_scan_none_end(s, pos + 1, true, acc, stop);
    } else if is_ppm_whitespace(s[pos]) {
        if acc.len() == 0 {
            lemma_scan_none_end(s, pos + 1, false, acc, stop);
        }
    } else {
        lemma_scan_none_end(s, pos + 1, false, acc.push(s[pos]), stop);
    }
}

/// Aligned equal suffixes scan alike: the same token comes out and the scan
/// ends at the same distance from where it started.
pub proof fn lemma_scan_shift(s1: Seq<u8>, p1: int, s2: Seq<u8>, p2: int, ic: bool, acc: Seq<u8>)
    requires
        0 <= p1 <= s1.len(),
        0 <= p2 <= s2.len(),
        s1.len() - p1 == s2.len() - p2,
        forall|k: int| 0 <= k < s1.len() - p1 ==> #[trigger] s1[p1 + k] == s2[p2 + k],
    ensures
        scan(s1, p1, ic, acc).0 == scan(s2, p2, ic, acc).0,
        scan(s1, p1, ic, acc).1 - p1 == scan(s2, p2, ic, acc).1 - p2,
    decreases s1.len() - p1,
{
    if p1 < s1.len() {
        assert(s1[p1 + 0] == s2[p2 + 0]);
        assert forall|k: int| 0 <= k < s1.len() - (p1 + 1) implies #[trigger] s1[(p1 + 1) + k]
            == s2[(p2 + 1) + k] by {
            assert(s1[p1 + (k + 1)] == s2[p2 + (k + 1)]);
        }
        if ic {
            lemma_scan_shift(s1, p1 + 1, s2, p2 + 1, !is_line_end(s1[p1]), acc);
        } else if s1[p1] == 35 {
            lemma_scan_shift(s1, p1 + 1, s2, p2 + 1, true, acc);
        } else if is_ppm_whitespace(s1[p1]) {
            if acc.len() == 0 {
                lemma_scan_shift(s1, p1 + 1, s2, p2 + 1, false, acc);
            }
        } else {
            lemma_scan_shift(s1, p1 + 1, s2, p2 + 1, false, acc.push(s1[p1]));
        }
    }
}

/// `s` holds one complete comment spanning `[p, cend]`: the opening `#`, a
/// body free of line ends, and the terminating line end at `cend`.
pub open spec fn comment_at(s: Seq<u8>, p: int, cend: int) -> bool {
    &&& 0 <= p < cend < s.len()
    &&& s[p] == 35
    &&& forall|i: int| p < i < cend ==> !is_line_end(s[i])
    &&& is_line_end(s[cend])
}

/// The stream with the comment at `[p, cend]` cut out.
pub open spec fn comment_removed(s: Seq<u8>, p: int, cend: int) -> Seq<u8> {
    s.subrange(0, p) + s.subrange(cend + 1, s.len() as int)
}

/// A token read that is under way in the normal state when it meets a
/// complete comment reads, on the stream with the comment removed, the very
/// same token; the consumed region is just shorter by the comment.
pub proof fn lemma_token_comment_across(s: Seq<u8>, p: int, cend: int, pos: int, acc0: Seq<u8>)
    requires
        comment_at(s, p, cend),
        0 <= pos <= p,
        scan_state(s, pos, false, Seq::<u8>::empty(), p) == Some((false, acc0)),
    ensures
        next_token(comment_removed(s, p, cend), pos).0 == next_token(s, pos).0,
        next_token(comment_removed(s, p, cend), pos).1 == next_token(s, pos).1 - (cend + 1 - p),
        next_token(s, pos).1 >= cend + 1,
{
    let clen = cend + 1 - p;
    let s0 = comment_removed(s, p, cend);
    let empty = Seq::<u8>::empty();
    assert(s0.len() == s.len() - clen);
    assert forall|j: int| 0 <= j < p implies s0[j] == s[j] by {}
    assert forall|j: int| p <= j < s0.len() implies s0[j] == s[j + clen] by {}
    lemma_scan_split(s, pos, false, empty, p, (false, acc0));
    lemma_scan_comment(s, p, cend, acc0);
    lemma_scan_bounds(s, cend + 1, false, acc0);
    lemma_scan_state_window(s, s0, pos, false, empty, p);
    lemma_scan_split(s0, pos, false, empty, p, (false, acc0));
    assert forall|k: int| 0 <= k < s0.len() - p implies #[trigger] s0[p + k] == s[(cend + 1) + k] by {
        assert(s0[p + k] == s[p + k + clen]);
    }
    lemma_scan_shift(s0, p, s, cend + 1, false, acc0);
}

/// The scanner's state when the three header token reads first reach
/// position `stop`, or None when all three finish before it.
pub open spec fn header_scan_state(s: Seq<u8>, stop: int) -> Option<(bool, Seq<u8>)> {
    let e1 = next_token(s, 2).1;
    let e2 = next_token(s, e1).1;
    if scan_state(s, 2, false, Seq::<u8>::empty(), stop) is Some {
        scan_state(s, 2, false, Seq::<u8>::empty(), stop)
    } else if scan_state(s, e1, false, Seq::<u8>::empty(), stop) is Some {
        scan_state(s, e1, false, Seq::<u8>::empty(), stop)
    } else {
        scan_state(s, e2, false, Seq::<u8>::empty(), stop)
    }
}

/// Reading the whole image from aligned equal suffixes yields the same
/// outcome: the same error, or the same samples with the cursor advanced by
/// the same amount.
pub proof fn lemma_read_image_shift(
    s1: Seq<u8>,
    p1: int,
    s2: Seq<u8>,
    p2: int,
    w: u32,
    h: u32,
    m: u32,
)
    requires
        0 <= p1 <= s1.len(),
        0 <= p2 <= s2.len(),
        s1.len() - p1 == s2.len() - p2,
        forall|k: int| 0 <= k < s1.len() - p1 ==> #[trigger] s1[p1 + k] == s2[p2 + k],
    ensures
        spec_read_image(s1, p1, w, h, m) matches Err(e) ==> spec_read_image(s2, p2, w, h, m)
            == Err::<(SampleData, int), PpmError>(e),
        spec_read_image(s1, p1, w, h, m) matches Ok(q1) ==> (spec_read_image(
            s2,
            p2,
            w,
            h,
            m,
        ) matches Ok(q2) && q1.0 == q2.0 && q1.1 - p1 == q2.1 - p2),
{
    let size = spec_byte_count(w, h, m);
    if size <= u32::MAX && s1.len() - p1 >= size {
        assert(size >= 0) by (nonlinear_arith)
            requires
                size == w * h * 3 * spec_bytewidth(m),
                spec_bytewidth(m) >= 1,
        ;
        if spec_bytewidth(m) == 1 {
            assert forall|k: int| 0 <= k < size implies #[trigger] s1.subrange(p1, p1 + size)[k]
                == s2.subrange(p2, p2 + size)[k] by {
                assert(s1[p1 + k] == s2[p2 + k]);
            }
            assert(s1.subrange(p1, p1 + size) =~= s2.subrange(p2, p2 + size));
        } else {
            assert(size == (w * h * 3) * 2);
            assert forall|i: int| 0 <= i < spec_sample_count(w, h) implies #[trigger] s1[p1 + 2 * i]
                == s2[p2 + 2 * i] && s1[p1 + 2 * i + 1] == s2[p2 + 2 * i + 1] by {
                assert(2 * i + 1 < size);
                assert(s1[p1 + (2 * i)] == s2[p2 + (2 * i)]);
                assert(s1[p1 + (2 * i + 1)] == s2[p2 + (2 * i + 1)]);
            }
            assert(Seq::new(
                spec_sample_count(w, h) as nat,
                |i: int| be16(s1[p1 + 2 * i], s1[p1 + 2 * i + 1]),
            ) =~= Seq::new(
                spec_sample_count(w, h) as nat,
                |i: int| be16(s2[p2 + 2 * i], s2[p2 + 2 * i + 1]),
            ));
        }
    }
}

/// Removing a `#`-to-line-end comment from anywhere in the header leaves
/// the parse unchanged: the same header fields or the same error come out,
/// the pixel data starts earlier by exactly the removed length, and the
/// decoded samples are the same.  The position `p` must open a comment,
/// that is, the header reads must reach it outside any other comment.
pub proof fn lemma_comment_transparent(s: Seq<u8>, p: int, cend: int)
    requires
        comment_at(s, p, cend),
        2 <= p,
        header_scan_state(s, p) matches Some(st) && !st.0,
    ensures
        ({
            let clen = cend + 1 - p;
            let s0 = comment_removed(s, p, cend);
            match spec_header(s) {
                Ok(hh) => spec_header(s0) == Ok::<Header, PpmError>(
                    Header { width: hh.width, height: hh.height, maxval: hh.maxval, end: hh.end - clen },
                ) && (spec_read_image(s, hh.end, hh.width, hh.height, hh.maxval) matches Err(e)
                    ==> spec_read_image(s0, hh.end - clen, hh.width, hh.height, hh.maxval)
                    == Err::<(SampleData, int), PpmError>(e)) && (spec_read_image(
                    s,
                    hh.end,
                    hh.width,
                    hh.height,
                    hh.maxval,
                ) matches Ok(q1) ==> (spec_read_image(
                    s0,
                    hh.end - clen,
                    hh.width,
                    hh.height,
                    hh.maxval,
                ) matches Ok(q2) && q1.0 == q2.0)),
                Err(e) => spec_header(s0) == Err::<Header, PpmError>(e),
            }
        }),
{
    let clen = cend + 1 - p;
    let s0 = comment_removed(s, p, cend);
    let empty = Seq::<u8>::empty();
    assert(s0.len() == s.len() - clen);
    assert forall|j: int| 0 <= j < p implies s0[j] == s[j] by {}
    assert forall|j: int| p <= j < s0.len() implies s0[j] == s[j + clen] by {}
    let e1 = next_token(s, 2).1;
    let e2 = next_token(s, e1).1;
    let e3 = next_token(s, e2).1;
    lemma_scan_bounds(s, 2, false, empty);
    lemma_scan_bounds(s, e1, false, empty);
    lemma_scan_bounds(s, e2, false, empty);
    let e1p = next_token(s0, 2).1;
    let d1 = scan_state(s, 2, false, empty, p);
    match d1 {
        Some(st1) => {
            assert(st1 == (false, st1.1));
            lemma_token_comment_across(s, p, cend, 2, st1.1);
            assert(e1p == e1 - clen);
            lemma_align_after(s, p, cend, e1);
            lemma_scan_shift(s0, e1 - clen, s, e1, false, empty);
            lemma_align_after(s, p, cend, e2);
            lemma_scan_shift(s0, e2 - clen, s, e2, false, empty);
        },
        None => {
            lemma_scan_none_end(s, 2, false, empty, p);
            lemma_scan_early(s, s0, 2, false, empty, p);
            assert(e1p == e1);
            let d2 = scan_state(s, e1, false, empty, p);
            match d2 {
                Some(st2) => {
                    assert(st2 == (false, st2.1));
                    lemma_token_comment_across(s, p, cend, e1, st2.1);
                    lemma_align_after(s, p, cend, e2);
                    lemma_scan_shift(s0, e2 - clen, s, e2, false, empty);
                },
                None => {
                    lemma_scan_none_end(s, e1, false, empty, p);
                    lemma_scan_early(s, s0, e1, false, empty, p);
                    let d3 = scan_state(s, e2, false, empty, p);
                    match d3 {
                        Some(st3) => {
                            assert(st3 == (false, st3.1));
                            lemma_token_comment_across(s, p, cend, e2, st3.1);
                        },
                        None => {
                            assert(false);
                        },
                    }
                },
            }
        },
    }
    let e2p = next_token(s0, e1p).1;
    let e3p = next_token(s0, e2p).1;
    assert(next_token(s0, 2).0 == next_token(s, 2).0);
    assert(next_token(s0, e1p).0 == next_token(s, e1).0);
    assert(next_token(s0, e2p).0 == next_token(s, e2).0);
    assert(e3p == e3 - clen);
    assert(e3 >= cend + 1);
    assert(s0[0] == s[0] && s0[1] == s[1] && s0.len() >= 2);
    match spec_header(s) {
        Ok(hh) => {
            assert(spec_header(s0) == Ok::<Header, PpmError>(
                Header { width: hh.width, height: hh.height, maxval: hh.maxval, end: hh.end - clen },
            ));
            assert(hh.end == e3);
            lemma_align_after(s, p, cend, e3);
            lemma_read_image_shift(s, e3, s0, e3 - clen, hh.width, hh.height, hh.maxval);
        },
        Err(e) => {
            assert(spec_header(s0) == Err::<Header, PpmError>(e));
        },
    }
}

/// Positions at or past a comment's end line up between the stream and the
/// stream with the comment removed.
pub proof fn lemma_align_after(s: Seq<u8>, p: int, cend: int, q: int)
    requires
        comment_at(s, p, cend),
        cend + 1 <= q <= s.len(),
    ensures
        ({
            let clen = cend + 1 - p;
            let s0 = comment_removed(s, p, cend);
            &&& 0 <= q - clen <= s0.len()
            &&& s0.len() - (q - clen) == s.len() - q
            &&& forall|k: int| 0 <= k < s.len() - q ==> #[trigger] s0[(q - clen) + k] == s[q + k]
        }),
{
    let clen = cend + 1 - p;
    let s0 = comment_removed(s, p, cend);
    assert(s0.len() == s.len() - clen);
    assert forall|k: int| 0 <= k < s.len() - q implies #[trigger] s0[(q - clen) + k] == s[q + k] by {
        assert(q - clen + k >= p);
        assert(s0[q - clen + k] == s.subrange(cend + 1, s.len() as int)[q - clen + k - p]);
    }
}

/// Any stream of the well-formed wire shape — the `P6` magic, then width,
/// height and maxval as decimal tokens separated by whitespace runs, then a
/// single separator byte, then a payload holding at least
/// `width * height * 3 * samplewidth(maxval)` bytes — decodes successfully:
/// the header parse yields exactly the three written values and stops right
/// after the single separator, and the sample sequence matches the payload
/// byte for byte (verbatim at sample width 1, as big-endian pairs at sample
/// width 2), ignoring any trailing bytes.
pub proof fn lemma_well_formed_decodes(
    g1: Seq<u8>,
    t1: Seq<u8>,
    g2: Seq<u8>,
    t2: Seq<u8>,
    g3: Seq<u8>,
    t3: Seq<u8>,
    sep: u8,
    payload: Seq<u8>,
    w: u32,
    h: u32,
    m: u32,
)
    requires
        ws_run(g1),
        ws_run(g2),
        ws_run(g3),
        dec_token_for(t1, w),
        dec_token_for(t2, h),
        dec_token_for(t3, m),
        1 <= m <= 65535,
        is_ppm_whitespace(sep),
        spec_byte_count(w, h, m) <= u32::MAX,
        payload.len() >= spec_byte_count(w, h, m),
    ensures
        ({
            let s = seq![80u8, 54u8] + g1 + t1 + g2 + t2 + g3 + t3 + seq![sep] + payload;
            let hend = 2 + g1.len() + t1.len() + g2.len() + t2.len() + g3.len() + t3.len() + 1;
            let size = spec_byte_count(w, h, m);
            &&& spec_header(s) == Ok::<Header, PpmError>(
                Header { width: w, height: h, maxval: m, end: hend as int },
            )
            &&& spec_bytewidth(m) == 1 ==> spec_read_image(s, hend as int, w, h, m) == Ok::<
                (SampleData, int),
                PpmError,
            >((SampleData::U8s(payload.take(size)), hend + size))
            &&& spec_bytewidth(m) == 2 ==> spec_read_image(s, hend as int, w, h, m) == Ok::<
                (SampleData, int),
                PpmError,
            >(
                (
                    SampleData::U16s(
                        Seq::new(
                            spec_sample_count(w, h) as nat,
                            |i: int| be16(payload[2 * i], payload[2 * i + 1]),
                        ),
                    ),
                    hend + size,
                ),
            )
        }),
{
    let s = seq![80u8, 54u8] + g1 + t1 + g2 + t2 + g3 + t3 + seq![sep] + payload;
    let a1 = 2 + g1.len() as int;
    let a2 = a1 + t1.len();
    let a3 = a2 + g2.len();
    let a4 = a3 + t2.len();
    let a5 = a4 + g3.len();
    let a6 = a5 + t3.len();
    let hend = a6 + 1;
    let size = spec_byte_count(w, h, m);
    assert(s.len() == hend + payload.len());
    assert(s[0] == 80 && s[1] == 54);
    assert forall|i: int| 2 <= i < a1 implies s[i] == g1[i - 2] by {}
    assert forall|i: int| a1 <= i < a2 implies s[i] == t1[i - a1] by {}
    assert forall|i: int| a2 <= i < a3 implies s[i] == g2[i - a2] by {}
    assert forall|i: int| a3 <= i < a4 implies s[i] == t2[i - a3] by {}
    assert forall|i: int| a4 <= i < a5 implies s[i] == g3[i - a4] by {}
    assert forall|i: int| a5 <= i < a6 implies s[i] == t3[i - a5] by {}
    assert(s[a6] == sep);
    assert forall|i: int| hend <= i < s.len() implies s[i] == payload[i - hend] by {}
    lemma_digit_token_facts(t1);
    lemma_digit_token_facts(t2);
    lemma_digit_token_facts(t3);
    // the three token reads
    lemma_scan_gap_token(s, 2, a1, a2);
    assert(s.subrange(a1, a2) =~= t1);
    lemma_scan_gap_token(s, a2 + 1, a3, a4);
    assert(s.subrange(a3, a4) =~= t2);
    lemma_scan_gap_token(s, a4 + 1, a5, a6);
    assert(s.subrange(a5, a6) =~= t3);
    assert(spec_parse_u32(t1) == Ok::<u32, PpmError>(w));
    assert(spec_parse_u32(t2) == Ok::<u32, PpmError>(h));
    assert(spec_parse_u32(t3) == Ok::<u32, PpmError>(m));
    assert(spec_header(s) == Ok::<Header, PpmError>(
        Header { width: w, height: h, maxval: m, end: hend },
    ));
    // the pixel read
    assert(s.len() - hend >= size);
    if spec_bytewidth(m) == 1 {
        assert(s.subrange(hend, hend + size) =~= payload.take(size));
    } else {
        assert(spec_bytewidth(m) == 2);
        assert(size == (w * h * 3) * 2);
        assert forall|i: int| 0 <= i < spec_sample_count(w, h) implies #[trigger] s[hend + 2 * i]
            == payload[2 * i] && s[hend + 2 * i + 1] == payload[2 * i + 1] by {
            assert(2 * i + 1 < size);
        }
        assert(Seq::new(
            spec_sample_count(w, h) as nat,
            |i: int| be16(s[hend + 2 * i], s[hend + 2 * i + 1]),
        ) =~= Seq::new(
            spec_sample_count(w, h) as nat,
            |i: int| be16(payload[2 * i], payload[2 * i + 1]),
        ));
    }
}

/// Which whitespace bytes stand in the header's separator runs — and how
/// long those runs are — has no effect on the parse: two well-formed
/// streams holding the same three tokens and the same payload yield the
/// same header fields and the same sample sequence.
pub proof fn lemma_whitespace_choice_irrelevant(
    g1: Seq<u8>,
    g2: Seq<u8>,
    g3: Seq<u8>,
    sep: u8,
    j1: Seq<u8>,
    j2: Seq<u8>,
    j3: Seq<u8>,
    sep2: u8,
    t1: Seq<u8>,
    t2: Seq<u8>,
    t3: Seq<u8>,
    payload: Seq<u8>,
    w: u32,
    h: u32,
    m: u32,
)
    requires
        ws_run(g1),
        ws_run(g2),
        ws_run(g3),
        ws_run(j1),
        ws_run(j2),
        ws_run(j3),
        dec_token_for(t1, w),
        dec_token_for(t2, h),
        dec_token_for(t3, m),
        1 <= m <= 65535,
        is_ppm_whitespace(sep),
        is_ppm_whitespace(sep2),
        spec_byte_count(w, h, m) <= u32::MAX,
        payload.len() >= spec_byte_count(w, h, m),
    ensures
        ({
            let sa = seq![80u8, 54u8] + g1 + t1 + g2 + t2 + g3 + t3 + seq![sep] + payload;
            let sb = seq![80u8, 54u8] + j1 + t1 + j2 + t2 + j3 + t3 + seq![sep2] + payload;
            &&& spec_header(sa) matches Ok(ha) && (spec_header(sb) matches Ok(hb) && (ha.width
                == hb.width && ha.height == hb.height && ha.maxval == hb.maxval && (spec_read_image(
                sa,
                ha.end,
                w,
                h,
                m,
            ) matches Ok(pa) && (spec_read_image(sb, hb.end, w, h, m) matches Ok(pb) && pa.0
                == pb.0))))
        }),
{
    lemma_well_formed_decodes(g1, t1, g2, t2, g3, t3, sep, payload, w, h, m);
    lemma_well_formed_decodes(j1, t1, j2, t2, j3, t3, sep2, payload, w, h, m);
}

} // verus!
