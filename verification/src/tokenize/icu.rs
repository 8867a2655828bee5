//! Word tokenization with ICU4X word segmentation, for every language
//! without a dedicated tokenizer.

use vstd::prelude::*;
use crate::layers::normalize::{byte_offset, byte_offsets};
use crate::tokenize::{
    is_boundary, lemma_span_tokens_ordered, pair_views, pairs_from_spans, span_tokens, spans_on_boundaries, usize_pairs,
};
use crate::text::{byte_len, str_chars};

verus! {

/// The word break offsets (bytes) ICU4X's automatic word segmenter
/// reports for `text`, with the invariant locale and compiled data.
pub uninterp spec fn icu_word_breaks(text: Seq<char>) -> Seq<usize>;

/// `icu_segmenter::WordSegmenter::new_auto` with default options, then
/// `segment_str`: the break offsets, collected. As the crate documents,
/// the first break is 0 and the last the text's length in bytes (the
/// same, 0, for the empty text), and successive breaks delimit the
/// segments in order: the iterator only moves forward through the text,
/// so no break comes before an earlier one. Nothing more is stated of
/// them; callers check that the spans between them fit the text.
#[verifier::external_body]
fn word_breaks(text: &str) -> (r: Vec<usize>)
    ensures
        r@ == icu_word_breaks(text@),
        r@.len() >= 1,
        r@[0] == 0,
        r@[r@.len() - 1] == byte_len(text@),
        forall|i: int, j: int| 0 <= i <= j < r@.len() ==> #[trigger] r@[i] <= #[trigger] r@[j],
{
    let segmenter = ::icu_segmenter::WordSegmenter::new_auto(
        ::icu_segmenter::options::WordBreakInvariantOptions::default(),
    );
    segmenter.segment_str(text).collect()
}

/// The spans between consecutive breaks.
pub open spec fn break_spans(b: Seq<usize>) -> Seq<(int, int)> {
    Seq::new(
        if b.len() == 0 {
            0
        } else {
            (b.len() - 1) as nat
        },
        |k: int| (b[k] as int, b[k + 1] as int),
    )
}

/// The words of `text` between ICU's word breaks, with their byte spans;
/// none when a span that would be taken does not cut the text at
/// character boundaries.
pub open spec fn icu_pairs(text: Seq<char>) -> Seq<(Seq<char>, int, int)> {
    let spans = break_spans(icu_word_breaks(text));
    if spans_on_boundaries(text, spans) {
        span_tokens(text, spans)
    } else {
        Seq::empty()
    }
}

/// Cut a text into words at ICU word breaks, dropping empty,
/// out-of-range and whitespace-only spans. The words come in text order.
pub fn tokenize(text: &str) -> (r: Vec<(String, usize, usize)>)
    ensures
        pair_views(r@) == icu_pairs(text@),
        forall|i: int, j: int| 0 <= i < j < r@.len() ==> #[trigger] r@[i].2 <= #[trigger] r@[j].1,
{
    let breaks = word_breaks(text);
    let ghost s = text@;
    let ghost bs = break_spans(breaks@);
    if breaks.len() == 0 {
        assert(bs =~= Seq::<(int, int)>::empty());
        assert(span_tokens(s, bs) =~= Seq::<(Seq<char>, int, int)>::empty());
        let empty: Vec<(String, usize, usize)> = Vec::new();
        assert(pair_views(empty@) =~= Seq::<(Seq<char>, int, int)>::empty());
        return empty;
    }
    let chars = str_chars(text);
    let n = chars.len();
    assert(4 * chars@.len() <= isize::MAX);
    let offs = byte_offsets(&chars);
    proof {
        assert(s.take(s.len() as int) =~= s);
    }
    let total = offs[n];
    let mut spans: Vec<(usize, usize)> = Vec::new();
    let mut k: usize = 0;
    while k + 1 < breaks.len()
        invariant
            k + 1 <= breaks.len(),
            breaks@ == icu_word_breaks(s),
            bs == break_spans(breaks@),
            s == text@,
            chars@ == s,
            n == chars.len(),
            offs@.len() == n + 1,
            forall|i: int| 0 <= i <= n ==> #[trigger] offs@[i] == byte_offset(s, i),
            total == byte_len(s),
            usize_pairs(spans@) == bs.take(k as int),
            spans_on_boundaries(s, bs.take(k as int)),
        decreases breaks.len() - k,
    {
        let a = breaks[k];
        let b = breaks[k + 1];
        assert(bs[k as int] == (a as int, b as int));
        if a < b && b <= total {
            let fits = index_is_boundary(&offs, a) && index_is_boundary(&offs, b);
            if !fits {
                proof {
                    assert(!spans_on_boundaries(s, bs)) by {
                        if spans_on_boundaries(s, bs) {
                            assert(0 <= k < bs.len());
                            assert(bs[k as int].0 < bs[k as int].1 <= byte_len(s));
                            assert(is_boundary(s, bs[k as int].0) && is_boundary(s, bs[k as int].1));
                            let i0 = choose|i: int| 0 <= i <= s.len() && byte_offset(s, i) == a;
                            let j0 = choose|i: int| 0 <= i <= s.len() && byte_offset(s, i) == b;
                            assert(offs@[i0] == a);
                            assert(offs@[j0] == b);
                        }
                    }
                }
                let empty: Vec<(String, usize, usize)> = Vec::new();
        assert(pair_views(empty@) =~= Seq::<(Seq<char>, int, int)>::empty());
                return empty;
            }
        }
        let ghost before = usize_pairs(spans@);
        spans.push((a, b));
        assert(bs.take(k + 1) =~= bs.take(k as int).push(bs[k as int]));
        assert(usize_pairs(spans@) =~= bs.take(k + 1));
        k += 1;
    }
    assert(bs.take(k as int) =~= bs);
    proof {
        assert forall|i: int, j: int| 0 <= i < j < bs.len() implies #[trigger] bs[i].1
            <= #[trigger] bs[j].0 by {
            assert(breaks@[i + 1] <= breaks@[j]);
        }
        lemma_span_tokens_ordered(s, bs);
    }
    let r = pairs_from_spans(text, &spans);
    proof {
        let pv = pair_views(r@);
        assert forall|i: int, j: int| 0 <= i < j < r@.len() implies #[trigger] r@[i].2
            <= #[trigger] r@[j].1 by {
            assert(pv[i].2 == r@[i].2 && pv[j].1 == r@[j].1);
            assert(span_tokens(s, bs)[i].2 <= span_tokens(s, bs)[j].1);
        }
    }
    r
}

/// Whether `b` is one of the offsets.
fn index_is_boundary(offs: &Vec<usize>, b: usize) -> (r: bool)
    ensures
        r == exists|i: int| 0 <= i < offs.len() && offs@[i] == b,
{
    let mut i: usize = 0;
    while i < offs.len()
        invariant
            i <= offs.len(),
            forall|j: int| 0 <= j < i ==> offs@[j] != b,
        decreases offs.len() - i,
    {
        if offs[i] == b {
            return true;
        }
        i += 1;
    }
    false
}

} // verus!
