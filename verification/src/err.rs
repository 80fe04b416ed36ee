use vstd::prelude::*;

verus! {

/// Which required byte the input ran out on when a decode hit the end of the
/// buffer too early.
#[derive(Clone, Copy, PartialEq, Eq, Structural, Debug)]
pub enum EofField {
    /// The format marker `'6'` right after the leading `'P'`.
    FormatMarker,
    /// The newline that must follow the `"P6"` magic bytes.
    MagicNewline,
    /// A digit or terminator of the width, height or max-value token.
    HeaderNumber,
    /// The red channel byte of a pixel.
    Red,
    /// The green channel byte of a pixel.
    Green,
    /// The blue channel byte of a pixel.
    Blue,
}

/// Everything that can go wrong while decoding a P6 buffer. Any failure
/// aborts the whole decode: there is no recovery or partial result.
#[derive(Clone, Copy, PartialEq, Eq, Structural, Debug)]
pub enum PpmError {
    /// Zero bytes were available where the magic byte `'P'` was expected.
    EmptyInput,
    /// The first byte is not the format marker `'P'`.
    MagicMismatch,
    /// The second byte is not the sub-format marker `'6'`.
    UnsupportedFormat,
    /// A structurally required separator or digit-or-whitespace byte was
    /// something else, or a header number does not fit the machine word.
    MalformedHeader,
    /// The max-value token parsed to something other than 255.
    UnsupportedMaxValue,
    /// The input ended while the named byte was still expected.
    UnexpectedEof(EofField),
}

impl PpmError {
    /// A human-readable description of the failure, naming what was expected
    /// and what ended the read.
    pub fn message(&self) -> (r: &'static str)
        ensures
            (self is EmptyInput) ==> r@ == "empty input, expected the magic byte 'P'"@,
            (self is MagicMismatch) ==> r@ == "wrong magic value, the input does not start with 'P'"@,
            (self is UnsupportedFormat) ==> r@ == "not a P6 (binary PPM) input, expected '6' after 'P'"@,
            (self is MalformedHeader) ==> r@ == "malformed header, expected a digit, a separator or a newline"@,
            (self is UnsupportedMaxValue) ==> r@ == "expected a maximum channel value of 255"@,
            self matches PpmError::UnexpectedEof(f) ==> r@ == Self::spec_eof_message(*f),
    {
        match self {
            PpmError::EmptyInput => "empty input, expected the magic byte 'P'",
            PpmError::MagicMismatch => "wrong magic value, the input does not start with 'P'",
            PpmError::UnsupportedFormat => "not a P6 (binary PPM) input, expected '6' after 'P'",
            PpmError::MalformedHeader => "malformed header, expected a digit, a separator or a newline",
            PpmError::UnsupportedMaxValue => "expected a maximum channel value of 255",
            PpmError::UnexpectedEof(EofField::FormatMarker) => "input ended before the format marker '6'",
            PpmError::UnexpectedEof(EofField::MagicNewline) => "input ended before the newline after the magic bytes",
            PpmError::UnexpectedEof(EofField::HeaderNumber) => "input ended in the middle of the header numbers",
            PpmError::UnexpectedEof(EofField::Red) => "input ended before the next red value",
            PpmError::UnexpectedEof(EofField::Green) => "input ended before the next green value",
            PpmError::UnexpectedEof(EofField::Blue) => "input ended before the next blue value",
        }
    }

    /// The description used for each early-end-of-input case.
    pub open spec fn spec_eof_message(f: EofField) -> Seq<char> {
        match f {
            EofField::FormatMarker => "input ended before the format marker '6'"@,
            EofField::MagicNewline => "input ended before the newline after the magic bytes"@,
            EofField::HeaderNumber => "input ended in the middle of the header numbers"@,
            EofField::Red => "input ended before the next red value"@,
            EofField::Green => "input ended before the next green value"@,
            EofField::Blue => "input ended before the next blue value"@,
        }
    }
}

} // verus!
