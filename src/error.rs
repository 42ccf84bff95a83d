use vstd::prelude::*;

verus! {

/// The fatal conditions of text extraction.
#[derive(Clone, Copy, Debug, PartialEq, Eq, Structural)]
pub enum ExtractError {
    /// An embedded code-to-Unicode table has an odd operand count or an
    /// operand that is not a two-byte string.
    MalformedFont,
    /// A declared code-to-Unicode table does not resolve to a stream.
    UnresolvableReference,
    /// Text is shown with no font selected, or with a font that was never resolved.
    MissingFont,
    /// A text matrix operand that should be a number is not one.
    MalformedMatrix,
    /// Text bytes cannot be decoded: an odd byte count under a code table,
    /// or a code that maps to no Unicode scalar value.
    MalformedText,
    /// No upward offset between consecutive rows was found.
    NoSuperscriptOffset,
}

} // verus!
