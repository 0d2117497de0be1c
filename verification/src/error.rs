use vstd::prelude::*;

verus! {

/// Every way a decode can fail.  The first six variants are format errors
/// carrying a distinct reason; the decode aborts at the first error met and
/// no error is ever downgraded.
#[derive(Clone, Copy, Debug, PartialEq, Eq, Structural)]
pub enum PpmError {
    /// The stream does not begin with a recognized `P3`/`P6` signature.
    BadMagic,
    /// The stream is the plain/ASCII `P3` variant: recognized, not implemented.
    UnsupportedVariant,
    /// The stream ended where a header token was required.
    UnexpectedEof,
    /// A header token holds a byte outside printable ASCII.
    NonAsciiHeader,
    /// A header token is not an unsigned base-ten number fitting 32 bits.
    InvalidNumber,
    /// The header's maxval lies outside the supported `0 < maxval <= 65535`
    /// range: a well-formed but unsupported file.
    MaxvalOutOfRange,
    /// `width * height * 3 * samplewidth` exceeds the supported range.
    DimensionOverflow,
    /// The stream ended before the required bytes could be read.
    Io,
    /// A capability the decoder contract advertises but this format cannot
    /// fulfil, reported as a recoverable result rather than an abort.
    UnsupportedOperation,
}

/// The human-readable reason each error carries.
pub open spec fn spec_message(e: PpmError) -> Seq<char> {
    match e {
        PpmError::BadMagic => "expected magic constant for ppm, P3 or P6"@,
        PpmError::UnsupportedVariant => "plain format is not yet supported"@,
        PpmError::UnexpectedEof => "unexpected end of stream in header"@,
        PpmError::NonAsciiHeader => "non ascii character in header"@,
        PpmError::InvalidNumber => "invalid number in header"@,
        PpmError::MaxvalOutOfRange => "image maxval is not between 1 and 65535"@,
        PpmError::DimensionOverflow => "image dimensions overflow the pixel buffer size"@,
        PpmError::Io => "underlying stream too short"@,
        PpmError::UnsupportedOperation => "operation is not supported by this decoder"@,
    }
}

impl PpmError {
    /// A human-readable reason for diagnostics, exactly `spec_message`.
    pub fn message(&self) -> (r: &'static str)
        ensures
            r@ == spec_message(*self),
    {
        match self {
            PpmError::BadMagic => "expected magic constant for ppm, P3 or P6",
            PpmError::UnsupportedVariant => "plain format is not yet supported",
            PpmError::UnexpectedEof => "unexpected end of stream in header",
            PpmError::NonAsciiHeader => "non ascii character in header",
            PpmError::InvalidNumber => "invalid number in header",
            PpmError::MaxvalOutOfRange => "image maxval is not between 1 and 65535",
            PpmError::DimensionOverflow => "image dimensions overflow the pixel buffer size",
            PpmError::Io => "underlying stream too short",
            PpmError::UnsupportedOperation => "operation is not supported by this decoder",
        }
    }
}

/// Every error's reason is a non-empty string, and no two errors share one:
/// a caller that logs the reason can always tell the failures apart.
pub proof fn lemma_messages_distinct(e1: PpmError, e2: PpmError)
    ensures
        spec_message(e1).len() > 0,
        e1 != e2 ==> spec_message(e1) != spec_message(e2),
{
    reveal_strlit("expected magic constant for ppm, P3 or P6");
    reveal_strlit("plain format is not yet supported");
    reveal_strlit("unexpected end of stream in header");
    reveal_strlit("non ascii character in header");
    reveal_strlit("invalid number in header");
    reveal_strlit("image maxval is not between 1 and 65535");
    reveal_strlit("image dimensions overflow the pixel buffer size");
    reveal_strlit("underlying stream too short");
    reveal_strlit("operation is not supported by this decoder");
    assert(spec_message(PpmError::BadMagic).len() == 41);
    assert(spec_message(PpmError::UnsupportedVariant).len() == 33);
    assert(spec_message(PpmError::UnexpectedEof).len() == 34);
    assert(spec_message(PpmError::NonAsciiHeader).len() == 29);
    assert(spec_message(PpmError::InvalidNumber).len() == 24);
    assert(spec_message(PpmError::MaxvalOutOfRange).len() == 39);
    assert(spec_message(PpmError::DimensionOverflow).len() == 47);
    assert(spec_message(PpmError::Io).len() == 27);
    assert(spec_message(PpmError::UnsupportedOperation).len() == 42);
}

} // verus!
