//! Japanese tokenization from the byte spans of a morphological
//! tokenizer.

use vstd::prelude::*;
use crate::tokenize::{pair_views, pairs_from_spans, span_tokens, spans_on_boundaries, usize_pairs};

verus! {

/// The Japanese words of `text` from the spans the tokenizer reported:
/// empty, out-of-range and whitespace-only spans are dropped.
pub fn tokenize(text: &str, spans: &Vec<(usize, usize)>) -> (r: Vec<(String, usize, usize)>)
    requires
        spans_on_boundaries(text@, usize_pairs(spans@)),
    ensures
        pair_views(r@) == span_tokens(text@, usize_pairs(spans@)),
{
    pairs_from_spans(text, spans)
}

} // verus!
