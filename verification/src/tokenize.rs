//! Per-segment tokenization: each segment is cut into words by the
//! tokenizer suited to its language (jieba for the Chinese family, a
//! Japanese morphological tokenizer for `ja`, ICU word breaks for the
//! rest), with token offsets lifted into the normalized text.

pub mod icu;
pub mod ja;
pub mod zh;

use vstd::prelude::*;
use crate::bcp47::{is_sinitic, is_sinitic_tag};
use crate::layers::ngram::all_whitespace;
use crate::layers::normalize::{byte_offset, byte_offsets};
use crate::text::{
    byte_len, copy_range, is_whitespace, lemma_byte_len_mono, spec_is_whitespace, str_chars,
    str_eq, string_from_chars,
};
use crate::types::{Segment, Token};

verus! {

/// `b` is the byte offset of a character boundary of `s`.
pub open spec fn is_boundary(s: Seq<char>, b: int) -> bool {
    exists|i: int| 0 <= i <= s.len() && byte_offset(s, i) == b
}

/// The index of the character starting at byte `b` of `s` (the length
/// of `s` for its end).
pub open spec fn char_index_at(s: Seq<char>, b: int) -> int {
    choose|i: int| 0 <= i <= s.len() && byte_offset(s, i) == b
}

/// The spans that are kept (non-empty, within `s`) cut `s` at character
/// boundaries.
pub open spec fn spans_on_boundaries(s: Seq<char>, spans: Seq<(int, int)>) -> bool {
    forall|k: int|
        0 <= k < spans.len() && spans[k].0 < spans[k].1 <= byte_len(s) ==> is_boundary(
            s,
            #[trigger] spans[k].0,
        ) && is_boundary(s, spans[k].1)
}

/// The tokens a list of byte spans of `s` gives: each non-empty span
/// within `s` whose text is not all whitespace, with that text.
pub open spec fn span_tokens(s: Seq<char>, spans: Seq<(int, int)>) -> Seq<(Seq<char>, int, int)>
    decreases spans.len(),
{
    if spans.len() == 0 {
        Seq::empty()
    } else {
        let prev = span_tokens(s, spans.drop_last());
        let (bs, be) = spans.last();
        if bs < be <= byte_len(s) {
            let w = s.subrange(char_index_at(s, bs), char_index_at(s, be));
            if all_whitespace(w) {
                prev
            } else {
                prev.push((w, bs, be))
            }
        } else {
            prev
        }
    }
}

pub open spec fn usize_pairs(v: Seq<(usize, usize)>) -> Seq<(int, int)> {
    v.map_values(|p: (usize, usize)| (p.0 as int, p.1 as int))
}

pub open spec fn pair_views(v: Seq<(String, usize, usize)>) -> Seq<(Seq<char>, int, int)> {
    v.map_values(|p: (String, usize, usize)| (p.0@, p.1 as int, p.2 as int))
}

/// The character at index `i` of `s` starts at a boundary, and that
/// boundary names it.
pub proof fn lemma_char_index_at(s: Seq<char>, i: int)
    requires
        0 <= i <= s.len(),
    ensures
        is_boundary(s, byte_offset(s, i) as int),
        char_index_at(s, byte_offset(s, i) as int) == i,
{
    let b = byte_offset(s, i) as int;
    assert(0 <= i <= s.len() && byte_offset(s, i) == b);
    let j = char_index_at(s, b);
    if j < i {
        lemma_byte_len_mono(s, j, i);
    } else if j > i {
        lemma_byte_len_mono(s, i, j);
    }
}

fn index_of_offset(offs: &Vec<usize>, b: usize) -> (r: Option<usize>)
    ensures
        match r {
            Some(i) => i < offs.len() && offs@[i as int] == b,
            None => forall|i: int| 0 <= i < offs.len() ==> offs@[i] != b,
        },
{
    let mut i: usize = 0;
    while i < offs.len()
        invariant
            i <= offs.len(),
            forall|j: int| 0 <= j < i ==> offs@[j] != b,
        decreases offs.len() - i,
    {
        if offs[i] == b {
            return Some(i);
        }
        i += 1;
    }
    None
}

fn all_whitespace_exec(w: &Vec<char>) -> (b: bool)
    ensures
        b == all_whitespace(w@),
{
    let mut i: usize = 0;
    while i < w.len()
        invariant
            i <= w.len(),
            forall|j: int| 0 <= j < i ==> spec_is_whitespace(#[trigger] w@[j]),
        decreases w.len() - i,
    {
        if !is_whitespace(w[i]) {
            return false;
        }
        i += 1;
    }
    true
}

/// The tokens the byte spans `spans` give over `text`.
pub fn pairs_from_spans(text: &str, spans: &Vec<(usize, usize)>) -> (r: Vec<(String, usize, usize)>)
    requires
        spans_on_boundaries(text@, usize_pairs(spans@)),
    ensures
        pair_views(r@) == span_tokens(text@, usize_pairs(spans@)),
{
    let chars = str_chars(text);
    assert(4 * chars@.len() <= isize::MAX);
    let offs = byte_offsets(&chars);
    let ghost s = text@;
    let ghost sp = usize_pairs(spans@);
    let n = chars.len();
    let total = offs[n];
    proof {
        assert(s.take(s.len() as int) =~= s);
    }
    let mut out: Vec<(String, usize, usize)> = Vec::new();
    let mut k: usize = 0;
    assert(sp.take(0) =~= Seq::<(int, int)>::empty());
    while k < spans.len()
        invariant
            k <= spans.len(),
            chars@ == s,
            s == text@,
            sp == usize_pairs(spans@),
            spans_on_boundaries(s, sp),
            n == chars.len(),
            offs@.len() == n + 1,
            forall|i: int| 0 <= i <= n ==> #[trigger] offs@[i] == byte_offset(s, i),
            total == byte_len(s),
            pair_views(out@) == span_tokens(s, sp.take(k as int)),
        decreases spans.len() - k,
    {
        let (bs, be) = spans[k];
        assert(sp[k as int] == (bs as int, be as int));
        assert(sp.take(k + 1).drop_last() =~= sp.take(k as int));
        assert(sp.take(k + 1).last() == sp[k as int]);
        if bs < be && be <= total {
            let ghost before = pair_views(out@);
            let oi = index_of_offset(&offs, bs);
            let oj = index_of_offset(&offs, be);
            proof {
                assert(is_boundary(s, sp[k as int].0));
                assert(is_boundary(s, sp[k as int].1));
            }
            match (oi, oj) {
                (Some(i), Some(j)) => {
                    proof {
                        lemma_char_index_at(s, i as int);
                        lemma_char_index_at(s, j as int);
                        if j <= i {
                            lemma_byte_len_mono(s, j as int, i as int);
                        }
                    }
                    let w = copy_range(&chars, i, j);
                    if !all_whitespace_exec(&w) {
                        out.push((string_from_chars(w.as_slice()), bs, be));
                        assert(pair_views(out@) =~= before.push((w@, bs as int, be as int)));
                    }
                },
                _ => {
                    proof {
                        let i0 = choose|i: int| 0 <= i <= s.len() && byte_offset(s, i) == bs;
                        let j0 = choose|i: int| 0 <= i <= s.len() && byte_offset(s, i) == be;
                        assert(offs@[i0] == bs);
                        assert(offs@[j0] == be);
                    }
                },
            }
        }
        k += 1;
    }
    assert(sp.take(spans.len() as int) =~= sp);
    out
}

/// The tokens a segment gets: jieba's words for the Chinese family, the
/// given Japanese spans for `ja`, ICU words otherwise.
pub open spec fn segment_pairs(language: Seq<char>, text: Seq<char>, japanese: Seq<(int, int)>) -> Seq<
    (Seq<char>, int, int),
> {
    if is_sinitic(language) {
        zh::zh_pairs(text)
    } else if language == "ja"@ {
        span_tokens(text, japanese)
    } else {
        icu::icu_pairs(text)
    }
}

/// Every token lies within the text.
pub proof fn lemma_span_tokens_bounded(s: Seq<char>, spans: Seq<(int, int)>)
    ensures
        forall|j: int|
            0 <= j < span_tokens(s, spans).len() ==> #[trigger] span_tokens(s, spans)[j].1
                < span_tokens(s, spans)[j].2 <= byte_len(s),
    decreases spans.len(),
{
    if spans.len() > 0 {
        lemma_span_tokens_bounded(s, spans.drop_last());
        let prev = span_tokens(s, spans.drop_last());
        let (bs, be) = spans.last();
        let cur = span_tokens(s, spans);
        if bs < be <= byte_len(s) {
            let w = s.subrange(char_index_at(s, bs), char_index_at(s, be));
            if !all_whitespace(w) {
                assert(cur == prev.push((w, bs, be)));
                assert forall|j: int| 0 <= j < cur.len() implies #[trigger] cur[j].1 < cur[j].2
                    <= byte_len(s) by {
                    if j < prev.len() {
                        assert(cur[j] == prev[j]);
                    }
                }
            }
        }
    }
}

/// Spans that come in order give tokens in order: each token ends at or
/// before the next one starts.
pub proof fn lemma_span_tokens_ordered(s: Seq<char>, spans: Seq<(int, int)>)
    requires
        forall|i: int, j: int| 0 <= i < j < spans.len() ==> #[trigger] spans[i].1 <= #[trigger] spans[j].0,
    ensures
        forall|i: int, j: int|
            0 <= i < j < span_tokens(s, spans).len() ==> #[trigger] span_tokens(s, spans)[i].2
                <= #[trigger] span_tokens(s, spans)[j].1,
        forall|k: int|
            0 <= k < span_tokens(s, spans).len() ==> exists|j: int|
                0 <= j < spans.len() && #[trigger] span_tokens(s, spans)[k].2 == spans[j].1,
    decreases spans.len(),
{
    if spans.len() > 0 {
        let init = spans.drop_last();
        assert forall|i: int, j: int| 0 <= i < j < init.len() implies #[trigger] init[i].1
            <= #[trigger] init[j].0 by {
            assert(init[i] == spans[i]);
            assert(init[j] == spans[j]);
        }
        lemma_span_tokens_ordered(s, init);
        let prev = span_tokens(s, init);
        let cur = span_tokens(s, spans);
        let last = spans.len() - 1;
        assert(spans.last() == spans[last]);
        let (bs, be) = spans.last();
        if bs < be <= byte_len(s) {
            let w = s.subrange(char_index_at(s, bs), char_index_at(s, be));
            if !all_whitespace(w) {
                assert(cur == prev.push((w, bs, be)));
                assert forall|i: int, j: int| 0 <= i < j < cur.len() implies #[trigger] cur[i].2
                    <= #[trigger] cur[j].1 by {
                    assert(cur[i] == prev[i]);
                    if j < prev.len() {
                        assert(cur[j] == prev[j]);
                    } else {
                        let q = choose|q: int| 0 <= q < init.len() && #[trigger] prev[i].2 == init[q].1;
                        assert(init[q] == spans[q]);
                    }
                }
                assert forall|k: int| 0 <= k < cur.len() implies exists|j: int|
                    0 <= j < spans.len() && #[trigger] cur[k].2 == spans[j].1 by {
                    if k < prev.len() {
                        assert(cur[k] == prev[k]);
                        let q = choose|q: int| 0 <= q < init.len() && #[trigger] prev[k].2 == init[q].1;
                        assert(init[q] == spans[q]);
                    } else {
                        assert(cur[k].2 == spans[last].1);
                    }
                }
            } else {
                assert forall|k: int| 0 <= k < cur.len() implies exists|j: int|
                    0 <= j < spans.len() && #[trigger] cur[k].2 == spans[j].1 by {
                    let q = choose|q: int| 0 <= q < init.len() && #[trigger] prev[k].2 == init[q].1;
                    assert(init[q] == spans[q]);
                }
            }
        } else {
            assert forall|k: int| 0 <= k < cur.len() implies exists|j: int|
                0 <= j < spans.len() && #[trigger] cur[k].2 == spans[j].1 by {
                let q = choose|q: int| 0 <= q < init.len() && #[trigger] prev[k].2 == init[q].1;
                assert(init[q] == spans[q]);
            }
        }
    }
}

/// Every token a segment gets lies within its text.
pub proof fn lemma_segment_pairs_bounded(language: Seq<char>, text: Seq<char>, japanese: Seq<(int, int)>)
    ensures
        forall|j: int|
            0 <= j < segment_pairs(language, text, japanese).len() ==> #[trigger] segment_pairs(
                language,
                text,
                japanese,
            )[j].1 < segment_pairs(language, text, japanese)[j].2 <= byte_len(text),
{
    lemma_span_tokens_bounded(text, japanese);
    lemma_span_tokens_bounded(text, zh::to_byte_spans(text, zh::jieba_spans(text)));
    lemma_span_tokens_bounded(text, icu::break_spans(icu::icu_word_breaks(text)));
}

/// Token spans moved by `base` bytes.
pub open spec fn lift(p: Seq<(Seq<char>, int, int)>, base: int) -> Seq<(Seq<char>, int, int)> {
    p.map_values(|x: (Seq<char>, int, int)| (x.0, base + x.1, base + x.2))
}

pub open spec fn token_views(v: Seq<Token>) -> Seq<(Seq<char>, int, int)> {
    v.map_values(|t: Token| (t.text@, t.start as int, t.end as int))
}

/// Each span ends at or before every later one starts.
pub open spec fn spans_in_order(sp: Seq<(int, int)>) -> bool {
    forall|i: int, j: int| 0 <= i < j < sp.len() ==> #[trigger] sp[i].1 <= #[trigger] sp[j].0
}

/// Tokenize a segment with the tokenizer its language calls for.
/// `japanese` holds the byte spans of `segment.text` that the Japanese
/// tokenizer reported; it is read for `ja` segments only. An empty
/// segment is left as it is. The tokens come in text order, for a `ja`
/// segment when the given spans do.
pub fn tokenize(segment: &mut Segment, japanese: &Vec<(usize, usize)>)
    requires
        old(segment).language@ == "ja"@ ==> spans_on_boundaries(
            old(segment).text@,
            usize_pairs(japanese@),
        ),
        old(segment).start + byte_len(old(segment).text@) <= usize::MAX,
    ensures
        final(segment).language == old(segment).language,
        final(segment).text == old(segment).text,
        final(segment).start == old(segment).start,
        final(segment).end == old(segment).end,
        old(segment).text@.len() == 0 ==> final(segment).tokens == old(segment).tokens,
        old(segment).text@.len() > 0 ==> token_views(final(segment).tokens@) == lift(
            segment_pairs(old(segment).language@, old(segment).text@, usize_pairs(japanese@)),
            old(segment).start as int,
        ),
        old(segment).text@.len() > 0 ==> forall|k: int|
            0 <= k < final(segment).tokens@.len() ==> old(segment).start
                <= #[trigger] final(segment).tokens@[k].start < final(segment).tokens@[k].end
                <= old(segment).start + byte_len(old(segment).text@),
        old(segment).text@.len() > 0 && (old(segment).language@ != "ja"@ || spans_in_order(
            usize_pairs(japanese@),
        )) ==> forall|i: int, j: int|
            0 <= i < j < final(segment).tokens@.len() ==> #[trigger] final(segment).tokens@[i].end
                <= #[trigger] final(segment).tokens@[j].start,
{
    let chars = str_chars(segment.text.as_str());
    if chars.len() == 0 {
        return;
    }
    let pairs = if is_sinitic_tag(segment.language.as_str()) {
        zh::tokenize(segment.text.as_str())
    } else if str_eq(segment.language.as_str(), "ja") {
        ja::tokenize(segment.text.as_str(), japanese)
    } else {
        icu::tokenize(segment.text.as_str())
    };
    let ghost pv = pair_views(pairs@);
    assert(pv == segment_pairs(segment.language@, segment.text@, usize_pairs(japanese@)));
    let ghost ordered = segment.language@ != "ja"@ || spans_in_order(usize_pairs(japanese@));
    proof {
        if ordered {
            if !is_sinitic(segment.language@) && segment.language@ == "ja"@ {
                lemma_span_tokens_ordered(segment.text@, usize_pairs(japanese@));
            }
            assert forall|i: int, j: int| 0 <= i < j < pv.len() implies #[trigger] pv[i].2
                <= #[trigger] pv[j].1 by {
                assert(pv[i].2 == pairs@[i].2 && pv[j].1 == pairs@[j].1);
                if !is_sinitic(segment.language@) && segment.language@ == "ja"@ {
                    assert(span_tokens(segment.text@, usize_pairs(japanese@))[i].2 <= span_tokens(
                        segment.text@,
                        usize_pairs(japanese@),
                    )[j].1);
                } else {
                    assert(pairs@[i].2 <= pairs@[j].1);
                }
            }
        }
    }
    proof {
        lemma_segment_pairs_bounded(segment.language@, segment.text@, usize_pairs(japanese@));
        assert forall|j: int| 0 <= j < pv.len() implies #[trigger] pv[j].2 <= byte_len(segment.text@) && pv[j].1 <= pv[j].2 by {
            let sp = segment_pairs(segment.language@, segment.text@, usize_pairs(japanese@));
            assert(pv[j] == sp[j]);
            assert(sp[j].1 < sp[j].2 <= byte_len(segment.text@));
        }
    }
    let base = segment.start;
    let mut tokens: Vec<Token> = Vec::new();
    let mut k: usize = 0;
    while k < pairs.len()
        invariant
            k <= pairs.len(),
            pv == pair_views(pairs@),
            base == segment.start,
            base + byte_len(segment.text@) <= usize::MAX,
            forall|j: int| 0 <= j < pv.len() ==> #[trigger] pv[j].2 <= byte_len(segment.text@),
            forall|j: int| 0 <= j < pv.len() ==> #[trigger] pv[j].1 <= pv[j].2,
            token_views(tokens@) == lift(pv.take(k as int), base as int),
        decreases pairs.len() - k,
    {
        let rs = pairs[k].1;
        let re = pairs[k].2;
        let t = string_from_chars(str_chars(pairs[k].0.as_str()).as_slice());
        assert(pv[k as int] == (pairs@[k as int].0@, rs as int, re as int));
        assert(pv[k as int].2 <= byte_len(segment.text@));
        assert(pv[k as int].1 <= pv[k as int].2);
        let ghost before = token_views(tokens@);
        let tok = Token { text: t, start: base + rs, end: base + re };
        let ghost tv = (tok.text@, tok.start as int, tok.end as int);
        tokens.push(tok);
        assert(token_views(tokens@) =~= before.push(tv));
        assert(pv.take(k + 1) =~= pv.take(k as int).push(pv[k as int]));
        assert(lift(pv.take(k + 1), base as int) =~= lift(pv.take(k as int), base as int).push(tv));
        assert(token_views(tokens@) =~= lift(pv.take(k + 1), base as int));
        k += 1;
    }
    assert(pv.take(pairs.len() as int) =~= pv);
    proof {
        let tv = token_views(tokens@);
        assert forall|k: int| 0 <= k < tokens@.len() implies base <= #[trigger] tokens@[k].start
            < tokens@[k].end <= base + byte_len(segment.text@) by {
            assert(tv[k] == (tokens@[k].text@, tokens@[k].start as int, tokens@[k].end as int));
            assert(tv[k] == (pv[k].0, base + pv[k].1, base + pv[k].2));
            let sp = segment_pairs(segment.language@, segment.text@, usize_pairs(japanese@));
            assert(pv[k] == sp[k]);
            assert(sp[k].1 < sp[k].2 <= byte_len(segment.text@));
            assert(pv[k].1 >= 0);
        }
        if ordered {
            assert forall|i: int, j: int| 0 <= i < j < tokens@.len() implies #[trigger] tokens@[i].end
                <= #[trigger] tokens@[j].start by {
                assert(tv[i] == (tokens@[i].text@, tokens@[i].start as int, tokens@[i].end as int));
                assert(tv[i] == (pv[i].0, base + pv[i].1, base + pv[i].2));
                assert(tv[j] == (tokens@[j].text@, tokens@[j].start as int, tokens@[j].end as int));
                assert(tv[j] == (pv[j].0, base + pv[j].1, base + pv[j].2));
                assert(pv[i].2 <= pv[j].1);
            }
        }
    }
    segment.tokens = tokens;
}

} // verus!
