use vstd::prelude::*;

use crate::error::PpmError;

verus! {

/// An ASCII decimal digit.
pub open spec fn is_dec_digit(b: u8) -> bool {
    48 <= b && b <= 57
}

pub open spec fn all_dec_digits(s: Seq<u8>) -> bool {
    forall|i: int| 0 <= i < s.len() ==> is_dec_digit(s[i])
}

/// Printable ASCII; a token holding anything else is rejected.
pub open spec fn is_printable_ascii(b: u8) -> bool {
    32 <= b && b <= 126
}

pub open spec fn all_printable_ascii(s: Seq<u8>) -> bool {
    forall|i: int| 0 <= i < s.len() ==> is_printable_ascii(s[i])
}

/// The number a digit string denotes in base ten.
pub open spec fn dec_value(s: Seq<u8>) -> int
    decreases s.len(),
{
    if s.len() == 0 {
        0
    } else {
        dec_value(s.drop_last()) * 10 + s.last() - 48
    }
}

/// What parsing a header token as an unsigned 32-bit decimal yields: the
/// empty token only arises at the end of the stream; a token with a byte
/// outside printable ASCII is a non-ASCII error; anything but plain digits
/// denoting a value within 32 bits (no sign, no hex prefix, no underscores)
/// is an invalid number.
pub open spec fn spec_parse_u32(tok: Seq<u8>) -> Result<u32, PpmError> {
    if tok.len() == 0 {
        Err(PpmError::UnexpectedEof)
    } else if !all_printable_ascii(tok) {
        Err(PpmError::NonAsciiHeader)
    } else if !all_dec_digits(tok) || dec_value(tok) > u32::MAX {
        Err(PpmError::InvalidNumber)
    } else {
        Ok(dec_value(tok) as u32)
    }
}

pub proof fn lemma_dec_value_nonneg(s: Seq<u8>)
    requires
        all_dec_digits(s),
    ensures
        dec_value(s) >= 0,
    decreases s.len(),
{
    if s.len() > 0 {
        assert(all_dec_digits(s.drop_last()));
        lemma_dec_value_nonneg(s.drop_last());
    }
}

/// A digit string's value never shrinks as more digits are appended.
pub proof fn lemma_dec_value_mono(s: Seq<u8>, i: int, j: int)
    requires
        all_dec_digits(s),
        0 <= i <= j <= s.len(),
    ensures
        dec_value(s.take(i)) <= dec_value(s.take(j)),
    decreases j - i,
{
    if i < j {
        lemma_dec_value_mono(s, i, j - 1);
        assert(s.take(j).drop_last() =~= s.take(j - 1));
        assert(all_dec_digits(s.take(j - 1)));
        lemma_dec_value_nonneg(s.take(j - 1));
        assert(s.take(j).last() == s[j - 1]);
    }
}

/// Parses a header token as an unsigned base-ten 32-bit integer under the
/// strict rules of `spec_parse_u32`.
pub fn parse_token_u32(tok: &Vec<u8>) -> (r: Result<u32, PpmError>)
    ensures
        r == spec_parse_u32(tok@),
{
    if tok.len() == 0 {
        return Err(PpmError::UnexpectedEof);
    }
    let mut i: usize = 0;
    while i < tok.len()
        invariant
            i <= tok@.len(),
            forall|j: int| 0 <= j < i ==> is_printable_ascii(tok@[j]),
        decreases tok@.len() - i,
    {
        let b = tok[i];
        if b < 32 || b > 126 {
            assert(!is_printable_ascii(tok@[i as int]));
            return Err(PpmError::NonAsciiHeader);
        }
        i = i + 1;
    }
    assert(all_printable_ascii(tok@));
    let mut val: u64 = 0;
    let mut k: usize = 0;
    while k < tok.len()
        invariant
            k <= tok@.len(),
            all_printable_ascii(tok@),
            forall|j: int| 0 <= j < k ==> is_dec_digit(tok@[j]),
            val == dec_value(tok@.take(k as int)),
            val <= u32::MAX,
        decreases tok@.len() - k,
    {
        let b = tok[k];
        if b < 48 || b > 57 {
            assert(!is_dec_digit(tok@[k as int]));
            return Err(PpmError::InvalidNumber);
        }
        let nv: u64 = val * 10 + ((b - 48) as u64);
        proof {
            assert(tok@.take(k + 1).drop_last() =~= tok@.take(k as int));
            assert(tok@.take(k + 1).last() == tok@[k as int]);
        }
        if nv > 0xFFFF_FFFF {
            proof {
                if all_dec_digits(tok@) {
                    lemma_dec_value_mono(tok@, k + 1, tok@.len() as int);
                    assert(tok@.take(tok@.len() as int) =~= tok@);
                }
            }
            return Err(PpmError::InvalidNumber);
        }
        val = nv;
        k = k + 1;
    }
    assert(tok@.take(tok@.len() as int) =~= tok@);
    Ok(val as u32)
}

} // verus!
