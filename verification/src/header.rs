use vstd::prelude::*;

use crate::error::PpmError;
use crate::numeric::parse_token_u32;
use crate::numeric::spec_parse_u32;
use crate::tokenizer::lemma_scan_bounds;
use crate::tokenizer::next_token;
use crate::tokenizer::read_next_token;

verus! {

/// The frozen outcome of a successful header parse: the three parsed fields
/// and the position of the first pixel byte (right after the single
/// separator that ends the maxval token).
pub struct Header {
    pub width: u32,
    pub height: u32,
    pub maxval: u32,
    pub end: int,
}

/// Reading one header number from `pos`: the next token, parsed under the
/// strict decimal rules, together with the position after its separator.
pub open spec fn spec_next_u32(s: Seq<u8>, pos: int) -> Result<(u32, int), PpmError> {
    match spec_parse_u32(next_token(s, pos).0) {
        Ok(v) => Ok((v, next_token(s, pos).1)),
        Err(e) => Err(e),
    }
}

/// The whole header parse.  The stream must hold at least the two magic
/// bytes (else the short read surfaces as an I/O error); the magic must be
/// `P6` (`P3` is recognized but unsupported, anything else is bad magic);
/// then width, height and maxval are read as strict decimal tokens, and a
/// maxval outside the wire contract's `0 < maxval <= 65535` is a
/// well-formed but unsupported extension, distinct from a malformed token.
pub open spec fn spec_header(s: Seq<u8>) -> Result<Header, PpmError> {
    if s.len() < 2 {
        Err(PpmError::Io)
    } else if s[0] != 80 || (s[1] != 51 && s[1] != 54) {
        Err(PpmError::BadMagic)
    } else if s[1] == 51 {
        Err(PpmError::UnsupportedVariant)
    } else {
        match spec_next_u32(s, 2) {
            Err(e) => Err(e),
            Ok((w, p1)) => match spec_next_u32(s, p1) {
                Err(e) => Err(e),
                Ok((h, p2)) => match spec_next_u32(s, p2) {
                    Err(e) => Err(e),
                    Ok((m, p3)) => if m == 0 || m > 65535 {
                        Err(PpmError::MaxvalOutOfRange)
                    } else {
                        Ok(Header { width: w, height: h, maxval: m, end: p3 })
                    },
                },
            },
        }
    }
}

/// Reads the next header token and parses it as a 32-bit decimal.
pub fn read_next_u32(data: &Vec<u8>, start: usize) -> (r: Result<(u32, usize), PpmError>)
    requires
        start <= data@.len(),
    ensures
        match spec_next_u32(data@, start as int) {
            Ok(p) => r matches Ok(q) && q.0 == p.0 && q.1 as int == p.1 && start <= q.1
                <= data@.len(),
            Err(e) => r matches Err(e2) && e2 == e,
        },
{
    proof {
        lemma_scan_bounds(data@, start as int, false, Seq::<u8>::empty());
    }
    let (tok, end) = read_next_token(data, start);
    match parse_token_u32(&tok) {
        Ok(v) => Ok((v, end)),
        Err(e) => Err(e),
    }
}

} // verus!
