//! Chinese-family tokenization with jieba.

use vstd::prelude::*;
use crate::layers::normalize::{byte_offset, byte_offsets};
use crate::tokenize::{
    lemma_char_index_at, lemma_span_tokens_ordered, pair_views, pairs_from_spans, span_tokens,
    spans_on_boundaries, usize_pairs,
};
use crate::text::{lemma_byte_len_mono, str_chars};

verus! {

/// The character spans `(start, end)` of the words jieba's default
/// tokenizer (with its HMM for unknown words) cuts `text` into.
pub uninterp spec fn jieba_spans(text: Seq<char>) -> Seq<(usize, usize)>;

/// `jieba_rs::Jieba::tokenize` in default mode with the HMM, with the
/// bundled dictionary: the character span of each word. In that mode
/// the source numbers the words as it goes: the first starts at 0, each
/// ends its own character count after its start, and the next starts
/// where it ends. That the spans stay within the text is not stated;
/// callers check it.
#[verifier::external_body]
fn jieba_tokenize(text: &str) -> (r: Vec<(usize, usize)>)
    ensures
        r@ == jieba_spans(text@),
        r@.len() > 0 ==> r@[0].0 == 0,
        forall|k: int| 0 <= k < r@.len() ==> #[trigger] r@[k].0 <= r@[k].1,
        forall|k: int| 0 <= k < r@.len() - 1 ==> #[trigger] r@[k].1 == r@[k + 1].0,
{
    let jieba = ::jieba_rs::Jieba::new();
    let tokens = jieba.tokenize(text, ::jieba_rs::TokenizeMode::Default, true);
    let mut r = Vec::with_capacity(tokens.len());
    for t in tokens {
        r.push((t.start, t.end));
    }
    r
}

/// Character spans that are ordered pairs within a text of `n` characters.
pub open spec fn char_spans_fit(spans: Seq<(usize, usize)>, n: int) -> bool {
    forall|k: int| 0 <= k < spans.len() ==> #[trigger] spans[k].0 <= spans[k].1 <= n
}

/// Character spans of `s` as byte spans.
pub open spec fn to_byte_spans(s: Seq<char>, spans: Seq<(usize, usize)>) -> Seq<(int, int)> {
    spans.map_values(|p: (usize, usize)| (byte_offset(s, p.0 as int) as int, byte_offset(s, p.1 as int) as int))
}

/// The words of a Chinese-family text with their byte spans; none when
/// jieba's spans do not fit the text.
pub open spec fn zh_pairs(text: Seq<char>) -> Seq<(Seq<char>, int, int)> {
    if char_spans_fit(jieba_spans(text), text.len() as int) {
        span_tokens(text, to_byte_spans(text, jieba_spans(text)))
    } else {
        Seq::empty()
    }
}

/// Spans that follow one another: each ends where the next starts.
proof fn lemma_chain_ordered(r: Seq<(usize, usize)>)
    requires
        forall|k: int| 0 <= k < r.len() ==> #[trigger] r[k].0 <= r[k].1,
        forall|k: int| 0 <= k < r.len() - 1 ==> #[trigger] r[k].1 == r[k + 1].0,
    ensures
        forall|i: int, j: int| 0 <= i < j < r.len() ==> #[trigger] r[i].1 <= #[trigger] r[j].0,
{
    assert forall|i: int, j: int| 0 <= i < j < r.len() implies #[trigger] r[i].1
        <= #[trigger] r[j].0 by {
        lemma_chain_step(r, i, j);
    }
}

proof fn lemma_chain_step(r: Seq<(usize, usize)>, i: int, j: int)
    requires
        0 <= i < j < r.len(),
        forall|k: int| 0 <= k < r.len() ==> #[trigger] r[k].0 <= r[k].1,
        forall|k: int| 0 <= k < r.len() - 1 ==> #[trigger] r[k].1 == r[k + 1].0,
    ensures
        r[i].1 <= r[j].0,
    decreases j - i,
{
    if j > i + 1 {
        lemma_chain_step(r, i, j - 1);
        assert(r[j - 1].0 <= r[j - 1].1);
        assert(r[j - 1].1 == r[j].0);
    } else {
        assert(r[i].1 == r[i + 1].0);
    }
}

/// Cut a Chinese-family text into words: jieba's spans as byte spans,
/// whitespace-only words dropped. The words come in text order.
pub fn tokenize(text: &str) -> (r: Vec<(String, usize, usize)>)
    ensures
        pair_views(r@) == zh_pairs(text@),
        forall|i: int, j: int| 0 <= i < j < r@.len() ==> #[trigger] r@[i].2 <= #[trigger] r@[j].1,
{
    let raw = jieba_tokenize(text);
    let chars = str_chars(text);
    let n = chars.len();
    assert(4 * chars@.len() <= isize::MAX);
    let offs = byte_offsets(&chars);
    let ghost s = text@;
    let mut spans: Vec<(usize, usize)> = Vec::new();
    let mut k: usize = 0;
    while k < raw.len()
        invariant
            k <= raw.len(),
            raw@ == jieba_spans(s),
            s == text@,
            chars@ == s,
            n == chars.len(),
            offs@.len() == n + 1,
            forall|i: int| 0 <= i <= n ==> #[trigger] offs@[i] == byte_offset(s, i),
            forall|j: int| 0 <= j < k ==> #[trigger] raw@[j].0 <= raw@[j].1 <= n,
            usize_pairs(spans@) == to_byte_spans(s, raw@.take(k as int)),
        decreases raw.len() - k,
    {
        let (a, b) = raw[k];
        if a > b || b > n {
            proof {
                assert(!char_spans_fit(jieba_spans(s), n as int)) by {
                    assert(!(raw@[k as int].0 <= raw@[k as int].1 <= n));
                }
            }
            let empty: Vec<(String, usize, usize)> = Vec::new();
            assert(pair_views(empty@) =~= Seq::<(Seq<char>, int, int)>::empty());
            return empty;
        }
        let ghost before = usize_pairs(spans@);
        assert(offs@[a as int] == byte_offset(s, a as int));
        assert(offs@[b as int] == byte_offset(s, b as int));
        spans.push((offs[a], offs[b]));
        assert(raw@.take(k + 1) =~= raw@.take(k as int).push(raw@[k as int]));
        assert(usize_pairs(spans@) == before.push((byte_offset(s, a as int) as int, byte_offset(s, b as int) as int)));
        assert(to_byte_spans(s, raw@.take(k + 1)) =~= to_byte_spans(s, raw@.take(k as int)).push((byte_offset(s, a as int) as int, byte_offset(s, b as int) as int)));
        assert(usize_pairs(spans@) =~= to_byte_spans(s, raw@.take(k + 1)));
        k += 1;
    }
    assert(raw@.take(raw.len() as int) =~= raw@);
    proof {
        let sp = usize_pairs(spans@);
        assert forall|k: int|
            0 <= k < sp.len() && sp[k].0 < sp[k].1 <= crate::text::byte_len(s) implies crate::tokenize::is_boundary(
            s,
            #[trigger] sp[k].0,
        ) && crate::tokenize::is_boundary(s, sp[k].1) by {
            lemma_char_index_at(s, raw@[k].0 as int);
            lemma_char_index_at(s, raw@[k].1 as int);
        }
        lemma_chain_ordered(raw@);
        assert forall|i: int, j: int| 0 <= i < j < sp.len() implies #[trigger] sp[i].1
            <= #[trigger] sp[j].0 by {
            assert(raw@[i].1 <= raw@[j].0);
            assert(raw@[j].0 <= raw@[j].1 <= n);
            lemma_byte_len_mono(s, raw@[i].1 as int, raw@[j].0 as int);
        }
        lemma_span_tokens_ordered(s, sp);
    }
    let r = pairs_from_spans(text, &spans);
    proof {
        let pv = pair_views(r@);
        let sp = usize_pairs(spans@);
        assert forall|i: int, j: int| 0 <= i < j < r@.len() implies #[trigger] r@[i].2
            <= #[trigger] r@[j].1 by {
            assert(pv[i].2 == r@[i].2 && pv[j].1 == r@[j].1);
            assert(span_tokens(s, sp)[i].2 <= span_tokens(s, sp)[j].1);
        }
    }
    r
}

} // verus!
