use vstd::prelude::*;

verus! {

/// The six bytes the header recognizes as whitespace:
/// TAB, LF, VT, FF, CR, SPACE.
pub open spec fn is_ppm_whitespace(b: u8) -> bool {
    b == 9 || b == 10 || b == 11 || b == 12 || b == 13 || b == 32
}

/// CR and LF, the bytes that end a `#` comment.
pub open spec fn is_line_end(b: u8) -> bool {
    b == 13 || b == 10
}

/// One run of the header scanner over `s`, byte by byte from `pos`, with the
/// current comment state and the token bytes accumulated so far.  In a
/// comment every byte is discarded, and CR or LF additionally returns to the
/// normal state; in the normal state `#` opens a comment, a whitespace byte
/// is skipped while the accumulator is empty and ends the token once it is
/// not (that one separator is consumed but not included), and any other byte
/// is accumulated.  Returns the token and the position just after the bytes
/// consumed; the end of the stream ends the token as it stands.
pub open spec fn scan(s: Seq<u8>, pos: int, in_comment: bool, acc: Seq<u8>) -> (Seq<u8>, int)
    decreases s.len() - pos,
{
    if pos < 0 || pos >= s.len() {
        (acc, s.len() as int)
    } else if in_comment {
        scan(s, pos + 1, !is_line_end(s[pos]), acc)
    } else if s[pos] == 35 {
        scan(s, pos + 1, true, acc)
    } else if is_ppm_whitespace(s[pos]) {
        if acc.len() > 0 {
            (acc, pos + 1)
        } else {
            scan(s, pos + 1, false, acc)
        }
    } else {
        scan(s, pos + 1, false, acc.push(s[pos]))
    }
}

/// The token the scanner yields starting from `pos`, and the position of the
/// byte right after the consumed separator.
pub open spec fn next_token(s: Seq<u8>, pos: int) -> (Seq<u8>, int) {
    scan(s, pos, false, Seq::<u8>::empty())
}

/// The scanner never moves backwards and never runs past the stream's end.
pub proof fn lemma_scan_bounds(s: Seq<u8>, pos: int, in_comment: bool, acc: Seq<u8>)
    requires
        0 <= pos <= s.len(),
    ensures
        pos <= scan(s, pos, in_comment, acc).1 <= s.len(),
    decreases s.len() - pos,
{
    if pos < s.len() {
        if in_comment {
            lemma_scan_bounds(s, pos + 1, !is_line_end(s[pos]), acc);
        } else if s[pos] == 35 {
            lemma_scan_bounds(s, pos + 1, true, acc);
        } else if is_ppm_whitespace(s[pos]) {
            if acc.len() == 0 {
                lemma_scan_bounds(s, pos + 1, false, acc);
            }
        } else {
            lemma_scan_bounds(s, pos + 1, false, acc.push(s[pos]));
        }
    }
}

/// Reads one whitespace-delimited, comment-stripped token from `data`
/// starting at `start`, returning the token's bytes and the position just
/// after the consumed separator (or the stream's end).
pub fn read_next_token(data: &Vec<u8>, start: usize) -> (r: (Vec<u8>, usize))
    requires
        start <= data@.len(),
    ensures
        r.0@ == next_token(data@, start as int).0,
        r.1 as int == next_token(data@, start as int).1,
        start <= r.1 <= data@.len(),
{
    let mut pos: usize = start;
    let mut in_comment: bool = false;
    let mut tok: Vec<u8> = Vec::new();
    loop
        invariant
            start <= pos <= data@.len(),
            scan(data@, start as int, false, Seq::<u8>::empty()) == scan(
                data@,
                pos as int,
                in_comment,
                tok@,
            ),
        decreases data@.len() - pos,
    {
        if pos == data.len() {
            assert(scan(data@, pos as int, in_comment, tok@) == (tok@, data@.len() as int));
            return (tok, pos);
        }
        let b = data[pos];
        if in_comment {
            in_comment = !(b == 13 || b == 10);
            pos = pos + 1;
        } else if b == 35 {
            in_comment = true;
            pos = pos + 1;
        } else if b == 9 || b == 10 || b == 11 || b == 12 || b == 13 || b == 32 {
            if tok.len() > 0 {
                assert(scan(data@, pos as int, in_comment, tok@) == (tok@, pos + 1 as int));
                return (tok, pos + 1);
            }
            pos = pos + 1;
        } else {
            tok.push(b);
            pos = pos + 1;
        }
    }
}

} // verus!
