use vstd::prelude::*;

verus! {

/// Verdict of a call: one language clearly dominates, the top
/// candidates are close, several languages are first-class content,
/// nothing supported was found, or only unsupported scripts were found.
#[derive(Debug, Clone, Copy, PartialEq, Eq, Hash, Structural)]
pub enum Status {
    Resolved,
    Ambiguous,
    Mixed,
    Unknown,
    Unsupported,
}

/// A run of the normalized text attributed to one language.
#[derive(Debug, Clone)]
pub struct Segment {
    pub language: String,
    /// Byte offset into the normalized text, inclusive.
    pub start: usize,
    /// Byte offset into the normalized text, exclusive.
    pub end: usize,
    /// The normalized text between `start` and `end`.
    pub text: String,
    /// The words of the segment, when it has been tokenized.
    pub tokens: Vec<Token>,
}

/// A word of a segment. `start` and `end` are byte offsets into the
/// normalized text, like those of the segment.
#[derive(Debug, Clone)]
pub struct Token {
    pub text: String,
    pub start: usize,
    pub end: usize,
}

} // verus!
