//! Layer 7 — context window: the input split into sentences, each
//! classified on its own, to tell a mixed-language text from a
//! single-language one.

use vstd::prelude::*;
use crate::layers::morphology::{count_language, lemma_count_language_bound};
use crate::layers::normalize::{byte_offset, Normalized};
use crate::layers::orthography::{is_hans_only, spec_is_hans_only, spec_is_vi_marker, is_vi_marker_char};
use crate::layers::script::{classify, is_han, is_latin, script_of, Script};
use crate::tally::{lemma_tally_add, tally_is, Tally};
use crate::text::{
    byte_len, copy_range, lemma_byte_len_mono, count_where, is_whitespace, lemma_count_where_bound, lemma_count_where_step,
    spec_is_whitespace, str_chars, str_eq, string_from_chars,
};

verus! {

/// At most this many sentences are classified.
pub const SENTENCE_CAP: usize = 50;

/// A classified sentence. `start` and `end` are byte offsets into
/// `Normalized::text`, `end` exclusive.
#[derive(Debug, Clone)]
pub struct SentenceClassification {
    pub start: usize,
    pub end: usize,
    pub language: String,
}

#[derive(Debug, Clone, Default)]
pub struct ContextWindowSignal {
    /// The classified sentences, left to right.
    pub sentences: Vec<SentenceClassification>,
    /// Language → number of sentences won.
    pub per_language: Tally,
    /// Two macro languages each win sentences and the runner-up wins at
    /// least a fifth as many as the leader, or embedded Han runs were
    /// found in at least two places.
    pub multi_language: bool,
    /// Runs of at least five Han characters inside sentences whose
    /// carrier is not Chinese.
    pub embedded_han_runs: usize,
}

/// `.` `!` `?` and the CJK full stop, fullwidth `！` and `？`.
pub open spec fn spec_is_sentence_terminator(c: char) -> bool {
    c == '.' || c == '!' || c == '?' || c == '。' || c == '！' || c == '？'
}

pub fn is_sentence_terminator(c: char) -> (b: bool)
    ensures
        b == spec_is_sentence_terminator(c),
{
    c == '.' || c == '!' || c == '?' || c == '。' || c == '！' || c == '？'
}

/// The first index in `a..b` of `s` that is not whitespace, or `b`.
pub open spec fn skip_ws(s: Seq<char>, a: int, b: int) -> int
    decreases b - a,
{
    if a < b && spec_is_whitespace(s[a]) {
        skip_ws(s, a + 1, b)
    } else {
        a
    }
}

/// The sentences of `s` from index `i` on, the current one having begun
/// at `start`: each ends just after a terminator (the last one at the
/// end of the text) and begins at its first non-whitespace character;
/// blank ones are left out.
pub open spec fn spans_from(s: Seq<char>, start: int, i: int) -> Seq<(int, int)>
    decreases s.len() - i,
{
    if i >= s.len() {
        if start < s.len() && skip_ws(s, start, s.len() as int) < s.len() {
            seq![(skip_ws(s, start, s.len() as int), s.len() as int)]
        } else {
            Seq::empty()
        }
    } else if spec_is_sentence_terminator(s[i]) {
        let a = skip_ws(s, start, i + 1);
        (if a < i + 1 {
            seq![(a, i + 1)]
        } else {
            Seq::empty()
        }) + spans_from(s, i + 1, i + 1)
    } else {
        spans_from(s, start, i + 1)
    }
}

/// The sentences of `s` as character ranges `(start, end)`.
pub open spec fn sentence_spans(s: Seq<char>) -> Seq<(int, int)> {
    spans_from(s, 0, 0)
}

pub open spec fn span_views(v: Seq<(usize, usize)>) -> Seq<(int, int)> {
    v.map_values(|p: (usize, usize)| (p.0 as int, p.1 as int))
}

proof fn lemma_skip_ws_bounds(s: Seq<char>, a: int, b: int)
    requires
        a <= b,
    ensures
        a <= skip_ws(s, a, b) <= b,
    decreases b - a,
{
    if a < b && spec_is_whitespace(s[a]) {
        lemma_skip_ws_bounds(s, a + 1, b);
    }
}

/// Sentences are non-empty, in bounds, in order and do not overlap.
pub open spec fn spans_ordered(sp: Seq<(int, int)>, lo: int, hi: int) -> bool {
    &&& forall|k: int| 0 <= k < sp.len() ==> lo <= #[trigger] sp[k].0 < sp[k].1 <= hi
    &&& forall|a: int, b: int| 0 <= a < b < sp.len() ==> #[trigger] sp[a].1 <= #[trigger] sp[b].0
}

proof fn lemma_spans_from_ordered(s: Seq<char>, start: int, i: int)
    requires
        0 <= start <= i <= s.len(),
    ensures
        spans_ordered(spans_from(s, start, i), start, s.len() as int),
    decreases s.len() - i,
{
    if i >= s.len() {
        lemma_skip_ws_bounds(s, start, s.len() as int);
    } else if spec_is_sentence_terminator(s[i]) {
        lemma_skip_ws_bounds(s, start, i + 1);
        lemma_spans_from_ordered(s, i + 1, i + 1);
        let a = skip_ws(s, start, i + 1);
        let head: Seq<(int, int)> = if a < i + 1 {
            seq![(a, i + 1)]
        } else {
            Seq::empty()
        };
        let rest = spans_from(s, i + 1, i + 1);
        let all = head + rest;
        assert forall|k: int| 0 <= k < all.len() implies start <= #[trigger] all[k].0 < all[k].1
            <= s.len() by {
            if k >= head.len() {
                assert(all[k] == rest[k - head.len()]);
            }
        }
        assert forall|x: int, y: int| 0 <= x < y < all.len() implies #[trigger] all[x].1
            <= #[trigger] all[y].0 by {
            assert(all[y] == rest[y - head.len()]);
            if x >= head.len() {
                assert(all[x] == rest[x - head.len()]);
            }
        }
    } else {
        lemma_spans_from_ordered(s, start, i + 1);
    }
}

/// The sentences of `s`, as character ranges, are non-empty, in bounds,
/// in order and disjoint.
pub proof fn lemma_sentences_ordered(s: Seq<char>)
    ensures
        spans_ordered(sentence_spans(s), 0, s.len() as int),
{
    lemma_spans_from_ordered(s, 0, 0);
}

/// Split the characters of the input into sentences.
pub fn split_sentences(s: &Vec<char>) -> (out: Vec<(usize, usize)>)
    ensures
        span_views(out@) == sentence_spans(s@),
{
    let mut out: Vec<(usize, usize)> = Vec::new();
    let mut start: usize = 0;
    let mut i: usize = 0;
    while i < s.len()
        invariant
            start <= i <= s.len(),
            span_views(out@) + spans_from(s@, start as int, i as int) == sentence_spans(s@),
        decreases s.len() - i,
    {
        if is_sentence_terminator(s[i]) {
            let end = i + 1;
            let mut a = start;
            while a < end && is_whitespace(s[a])
                invariant
                    start <= a <= end <= s.len(),
                    skip_ws(s@, start as int, end as int) == skip_ws(s@, a as int, end as int),
                decreases end - a,
            {
                a += 1;
            }
            let ghost before = span_views(out@);
            if a < end {
                out.push((a, end));
                assert(span_views(out@) =~= before.push((a as int, end as int)));
                assert(before + (seq![(a as int, end as int)] + spans_from(s@, end as int, end as int))
                    =~= before.push((a as int, end as int)) + spans_from(s@, end as int, end as int));
            } else {
                assert(before + (Seq::<(int, int)>::empty() + spans_from(s@, end as int, end as int))
                    =~= before + spans_from(s@, end as int, end as int));
            }
            start = end;
        }
        i += 1;
    }
    let ghost before = span_views(out@);
    if start < s.len() {
        let mut a = start;
        while a < s.len() && is_whitespace(s[a])
            invariant
                start <= a <= s.len(),
                skip_ws(s@, start as int, s.len() as int) == skip_ws(s@, a as int, s.len() as int),
            decreases s.len() - a,
        {
            a += 1;
        }
        if a < s.len() {
            out.push((a, s.len()));
            assert(span_views(out@) =~= before + seq![(a as int, s.len() as int)]);
        } else {
            assert(before + Seq::<(int, int)>::empty() =~= before);
        }
    } else {
        assert(before + Seq::<(int, int)>::empty() =~= before);
    }
    out
}

/// Traditional-only Han characters consulted per sentence.
pub open spec fn spec_is_hant_sentence_marker(c: char) -> bool {
    c == '學' || c == '國' || c == '來' || c == '們' || c == '經' || c == '這' || c == '實'
        || c == '會' || c == '說' || c == '應' || c == '讓' || c == '與' || c == '沒' || c == '聽'
        || c == '寫' || c == '認' || c == '識' || c == '觀' || c == '議' || c == '態' || c == '資'
        || c == '產' || c == '風' || c == '調' || c == '請' || c == '記'
}

fn is_hant_sentence_marker(c: char) -> (b: bool)
    ensures
        b == spec_is_hant_sentence_marker(c),
{
    c == '學' || c == '國' || c == '來' || c == '們' || c == '經' || c == '這' || c == '實'
        || c == '會' || c == '說' || c == '應' || c == '讓' || c == '與' || c == '沒' || c == '聽'
        || c == '寫' || c == '認' || c == '識' || c == '觀' || c == '議' || c == '態' || c == '資'
        || c == '產' || c == '風' || c == '調' || c == '請' || c == '記'
}

pub open spec fn latin_char() -> spec_fn(char) -> bool {
    |c: char| is_latin(c)
}

pub open spec fn kana_char() -> spec_fn(char) -> bool {
    |c: char| script_of(c) == Script::Hiragana || script_of(c) == Script::Katakana
}

pub open spec fn han_char() -> spec_fn(char) -> bool {
    |c: char| is_han(c)
}

pub open spec fn hangul_char() -> spec_fn(char) -> bool {
    |c: char| script_of(c) == Script::Hangul
}

pub open spec fn vi_latin_char() -> spec_fn(char) -> bool {
    |c: char| is_latin(c) && spec_is_vi_marker(c)
}

pub open spec fn hans_han_char() -> spec_fn(char) -> bool {
    |c: char| is_han(c) && spec_is_hans_only(c)
}

pub open spec fn hant_han_char() -> spec_fn(char) -> bool {
    |c: char| is_han(c) && spec_is_hant_sentence_marker(c)
}

/// The language of one sentence from its scripts and markers: Japanese
/// with any kana, Korean with any Hangul, Chinese for Han without Latin
/// (Simplified or Traditional when only that side's markers occur),
/// Vietnamese for Latin with Vietnamese letters making at least 5% of
/// the Latin letters, English for other Latin; none otherwise.
pub open spec fn sentence_language(t: Seq<char>) -> Option<Seq<char>> {
    let latin = count_where(t, latin_char());
    let hans = count_where(t, hans_han_char());
    let hant = count_where(t, hant_han_char());
    let vi = count_where(t, vi_latin_char());
    if count_where(t, kana_char()) > 0 {
        Some("ja"@)
    } else if count_where(t, hangul_char()) > 0 {
        Some("ko"@)
    } else if count_where(t, han_char()) > 0 && latin == 0 {
        if hans > 0 && hant == 0 {
            Some("zh-Hans"@)
        } else if hant > 0 && hans == 0 {
            Some("zh-Hant"@)
        } else {
            Some("zh"@)
        }
    } else if latin > 0 {
        if vi > 0 && 20 * vi >= latin {
            Some("vi"@)
        } else {
            Some("en"@)
        }
    } else {
        None
    }
}

/// Classify one sentence by its scripts and orthographic markers.
pub fn classify_sentence(t: &Vec<char>) -> (r: Option<&'static str>)
    ensures
        match r {
            Some(l) => sentence_language(t@) == Some(l@),
            None => sentence_language(t@) is None,
        },
{
    let mut latin: usize = 0;
    let mut kana: usize = 0;
    let mut han: usize = 0;
    let mut hangul: usize = 0;
    let mut vi: usize = 0;
    let mut hans: usize = 0;
    let mut hant: usize = 0;
    let mut i: usize = 0;
    assert(t@.take(0) =~= Seq::<char>::empty());
    while i < t.len()
        invariant
            i <= t.len(),
            latin == count_where(t@.take(i as int), latin_char()),
            kana == count_where(t@.take(i as int), kana_char()),
            han == count_where(t@.take(i as int), han_char()),
            hangul == count_where(t@.take(i as int), hangul_char()),
            vi == count_where(t@.take(i as int), vi_latin_char()),
            hans == count_where(t@.take(i as int), hans_han_char()),
            hant == count_where(t@.take(i as int), hant_han_char()),
            latin <= i && kana <= i && han <= i && hangul <= i,
            vi <= i && hans <= i && hant <= i,
        decreases t.len() - i,
    {
        let c = t[i];
        proof {
            lemma_count_where_step(t@, latin_char(), i as int);
            lemma_count_where_step(t@, kana_char(), i as int);
            lemma_count_where_step(t@, han_char(), i as int);
            lemma_count_where_step(t@, hangul_char(), i as int);
            lemma_count_where_step(t@, vi_latin_char(), i as int);
            lemma_count_where_step(t@, hans_han_char(), i as int);
            lemma_count_where_step(t@, hant_han_char(), i as int);
        }
        match classify(c) {
            Script::Latin => {
                latin = latin + 1;
                if is_vi_marker_char(c) {
                    vi = vi + 1;
                }
            },
            Script::Hiragana | Script::Katakana => {
                kana = kana + 1;
            },
            Script::Han => {
                han = han + 1;
                if is_hans_only(c) {
                    hans = hans + 1;
                }
                if is_hant_sentence_marker(c) {
                    hant = hant + 1;
                }
            },
            Script::Hangul => {
                hangul = hangul + 1;
            },
            Script::Other => {},
        }
        i += 1;
    }
    assert(t@.take(t.len() as int) =~= t@);
    if kana > 0 {
        return Some("ja");
    }
    if hangul > 0 {
        return Some("ko");
    }
    if han > 0 && latin == 0 {
        if hans > 0 && hant == 0 {
            return Some("zh-Hans");
        }
        if hant > 0 && hans == 0 {
            return Some("zh-Hant");
        }
        return Some("zh");
    }
    if latin > 0 {
        if vi > 0 && (vi as u128) * 20 >= latin as u128 {
            return Some("vi");
        }
        return Some("en");
    }
    None
}

/// Runs of at least five Han characters in `t` from index `i` on, the
/// run in progress having `cur` characters.
pub open spec fn han_runs_from(t: Seq<char>, i: int, cur: int) -> nat
    decreases t.len() - i,
{
    if i >= t.len() {
        if cur >= 5 {
            1
        } else {
            0
        }
    } else if is_han(t[i]) {
        han_runs_from(t, i + 1, cur + 1)
    } else {
        (if cur >= 5 {
            1nat
        } else {
            0nat
        }) + han_runs_from(t, i + 1, 0)
    }
}

/// Runs of at least five consecutive Han characters in `t`.
pub open spec fn han_runs(t: Seq<char>) -> nat {
    han_runs_from(t, 0, 0)
}

proof fn lemma_han_runs_bound(t: Seq<char>, i: int, cur: int)
    requires
        0 <= i <= t.len(),
        cur >= 0,
    ensures
        han_runs_from(t, i, cur) * 5 <= t.len() - i + cur,
    decreases t.len() - i,
{
    if i < t.len() {
        if is_han(t[i]) {
            lemma_han_runs_bound(t, i + 1, cur + 1);
        } else {
            lemma_han_runs_bound(t, i + 1, 0);
        }
    }
}

/// Count the runs of at least five consecutive Han characters: Chinese
/// phrases embedded in a sentence of another language.
pub fn count_embedded_han_runs(t: &Vec<char>) -> (n: usize)
    ensures
        n == han_runs(t@),
        n * 5 <= t@.len(),
{
    let mut runs: usize = 0;
    let mut current: usize = 0;
    let mut i: usize = 0;
    proof {
        lemma_han_runs_bound(t@, 0, 0);
    }
    while i < t.len()
        invariant
            i <= t.len(),
            current <= i,
            runs * 5 + current <= i,
            runs + han_runs_from(t@, i as int, current as int) == han_runs(t@),
        decreases t.len() - i,
    {
        if classify(t[i]) == Script::Han {
            current += 1;
        } else {
            if current >= 5 {
                runs += 1;
            }
            current = 0;
        }
        i += 1;
    }
    if current >= 5 {
        runs += 1;
    }
    runs
}

/// The tags of Chinese carriers, whose sentences are not searched for
/// embedded Han runs.
pub open spec fn is_zh_carrier(l: Seq<char>) -> bool {
    l == "zh-Hans"@ || l == "zh-Hant"@ || l == "zh"@
}

/// The sentences among `spans` that get a language: byte range and tag.
pub open spec fn classified(s: Seq<char>, spans: Seq<(int, int)>) -> Seq<(int, int, Seq<char>)>
    decreases spans.len(),
{
    if spans.len() == 0 {
        Seq::empty()
    } else {
        let prev = classified(s, spans.drop_last());
        let (a, b) = spans.last();
        match sentence_language(s.subrange(a, b)) {
            Some(l) => prev.push((byte_offset(s, a) as int, byte_offset(s, b) as int, l)),
            None => prev,
        }
    }
}

/// Embedded Han runs over the sentences among `spans` whose carrier is
/// not Chinese.
pub open spec fn embedded_total(s: Seq<char>, spans: Seq<(int, int)>) -> nat
    decreases spans.len(),
{
    if spans.len() == 0 {
        0
    } else {
        let prev = embedded_total(s, spans.drop_last());
        let (a, b) = spans.last();
        match sentence_language(s.subrange(a, b)) {
            Some(l) => if is_zh_carrier(l) {
                prev
            } else {
                prev + han_runs(s.subrange(a, b))
            },
            None => prev,
        }
    }
}

/// The sentences that are classified: the first `SENTENCE_CAP`.
pub open spec fn capped_spans(s: Seq<char>) -> Seq<(int, int)> {
    if sentence_spans(s).len() > SENTENCE_CAP {
        sentence_spans(s).take(SENTENCE_CAP as int)
    } else {
        sentence_spans(s)
    }
}

/// Sentences won per macro language: `en`, `vi`, `ja`, `ko`, and `zh`
/// for `zh`, `zh-Hans` and `zh-Hant` together.
pub open spec fn macro_totals(a: Seq<(int, int, Seq<char>)>) -> Seq<int> {
    seq![
        count_language(a, "en"@) as int,
        count_language(a, "vi"@) as int,
        count_language(a, "ja"@) as int,
        count_language(a, "ko"@) as int,
        (count_language(a, "zh"@) + count_language(a, "zh-Hans"@) + count_language(a, "zh-Hant"@)) as int,
    ]
}

/// A leader `t[i]` and another `t[j] >= 1` with `5 * t[j] >= t[i]`.
pub open spec fn spread_is_multi(t: Seq<int>) -> bool {
    exists|i: int, j: int|
        0 <= i < t.len() && 0 <= j < t.len() && i != j && (forall|k: int|
            0 <= k < t.len() ==> #[trigger] t[k] <= t[i]) && t[j] >= 1 && 5 * t[j] >= t[i]
}

pub open spec fn sentence_views(v: Seq<SentenceClassification>) -> Seq<(int, int, Seq<char>)> {
    v.map_values(|c: SentenceClassification| (c.start as int, c.end as int, c.language@))
}

pub open spec fn usize_views(v: Seq<usize>) -> Seq<int> {
    v.map_values(|x: usize| x as int)
}

/// Whether the runner-up among the totals wins at least one sentence
/// and at least a fifth as many as the leader.
fn runner_up_close(t: &Vec<usize>) -> (b: bool)
    requires
        t.len() >= 1,
        forall|k: int| 0 <= k < t.len() ==> #[trigger] t@[k] <= 1000,
    ensures
        b == spread_is_multi(usize_views(t@)),
{
    let ghost tv = usize_views(t@);
    let n = t.len();
    let mut im: usize = 0;
    let mut k: usize = 1;
    while k < n
        invariant
            n == t.len(),
            1 <= k <= n,
            im < k,
            forall|j: int| 0 <= j < k ==> #[trigger] t@[j] <= t@[im as int],
        decreases n - k,
    {
        if t[k] > t[im] {
            im = k;
        }
        k += 1;
    }
    let mut second: usize = 0;
    let mut js: usize = n;
    let mut k: usize = 0;
    while k < n
        invariant
            n == t.len(),
            k <= n,
            im < n,
            forall|j: int| 0 <= j < k && j != im ==> #[trigger] t@[j] <= second,
            js < n ==> js != im && t@[js as int] == second,
            js == n ==> second == 0,
            js <= n,
        decreases n - k,
    {
        if k != im && t[k] >= second {
            second = t[k];
            js = k;
        }
        k += 1;
    }
    let b = second >= 1 && 5 * second >= t[im];
    proof {
        assert(tv.len() == n);
        assert forall|j: int| 0 <= j < n implies #[trigger] tv[j] == t@[j] as int by {}
        if b {
            assert forall|q: int| 0 <= q < tv.len() implies #[trigger] tv[q] <= tv[im as int] by {
                assert(tv[q] == t@[q] as int);
            }
            assert(tv[js as int] == second as int);
        }
        if spread_is_multi(tv) {
            let (i, j) = choose|i: int, j: int|
                0 <= i < tv.len() && 0 <= j < tv.len() && i != j && (forall|q: int|
                    0 <= q < tv.len() ==> #[trigger] tv[q] <= tv[i]) && tv[j] >= 1 && 5 * tv[j]
                    >= tv[i];
            assert(tv[im as int] <= tv[i]);
            assert(tv[i] <= tv[im as int]);
            if j != im {
                assert(t@[j] <= second);
            } else {
                assert(t@[i] <= second);
            }
        }
    }
    b
}

/// Classify the first `cap` sentences of `spans`.
fn classify_spans(input: &Normalized, spans: &Vec<(usize, usize)>, cap: usize) -> (r: (
    Vec<SentenceClassification>,
    Tally,
    usize,
))
    requires
        input.wf(),
        span_views(spans@) == sentence_spans(input.chars@),
        cap <= spans.len(),
        cap <= SENTENCE_CAP,
    ensures
        sentence_views(r.0@) == classified(input.chars@, span_views(spans@).take(cap as int)),
        classified(input.chars@, span_views(spans@).take(cap as int)).len() <= SENTENCE_CAP,
        r.1.wf(),
        tally_is(
            r.1@,
            |l: Seq<char>| count_language(classified(input.chars@, span_views(spans@).take(cap as int)), l),
        ),
        r.2 == embedded_total(input.chars@, span_views(spans@).take(cap as int)),
{
    let s = &input.chars;
    let ghost sv = s@;
    let ghost sp = span_views(spans@);
    proof {
        lemma_sentences_ordered(sv);
    }
    let mut sentences: Vec<SentenceClassification> = Vec::new();
    let mut per_language = Tally::new();
    let mut embedded: usize = 0;
    let mut k: usize = 0;
    assert(sp.take(0) =~= Seq::<(int, int)>::empty());
    while k < cap
        invariant
            s == &input.chars,
            sv == s@,
            input.wf(),
            sp == span_views(spans@),
            sp == sentence_spans(sv),
            spans_ordered(sp, 0, sv.len() as int),
            cap <= spans.len(),
            cap <= SENTENCE_CAP,
            k <= cap,
            sentence_views(sentences@) == classified(sv, sp.take(k as int)),
            classified(sv, sp.take(k as int)).len() <= k,
            per_language.wf(),
            tally_is(per_language@, |l: Seq<char>| count_language(classified(sv, sp.take(k as int)), l)),
            embedded == embedded_total(sv, sp.take(k as int)),
            embedded <= if k == 0 { 0 } else { sp[k - 1].1 },
        decreases cap - k,
    {
        let (a, b) = spans[k];
        assert(sp[k as int] == (a as int, b as int));
        assert(sp.take(k + 1).drop_last() =~= sp.take(k as int));
        assert(sp.take(k + 1).last() == sp[k as int]);
        if k > 0 {
            assert(sp[k - 1].1 <= sp[k as int].0);
        }
        let slice = copy_range(s, a, b);
        let ghost prev = classified(sv, sp.take(k as int));
        match classify_sentence(&slice) {
            Some(lang) => {
                let start = input.char_byte_offsets[a];
                let end = input.char_byte_offsets[b];
                let lc = str_chars(lang);
                let language = string_from_chars(lc.as_slice());
                let ghost entry = (byte_offset(sv, a as int) as int, byte_offset(sv, b as int) as int, lang@);
                assert(classified(sv, sp.take(k + 1)) == prev.push(entry));
                sentences.push(SentenceClassification { start, end, language });
                assert(sentence_views(sentences@) =~= prev.push(entry));
                proof {
                    lemma_count_language_bound(prev, lang@);
                }
                let ghost m0 = per_language@;
                per_language.add(lang, 1);
                proof {
                    let np = prev.push(entry);
                    assert(np.drop_last() =~= prev);
                    assert forall|l: Seq<char>| #[trigger] count_language(np, l) == count_language(prev, l) + if l == lang@ { 1nat } else { 0nat } by {}
                    lemma_tally_add(
                        m0,
                        |l: Seq<char>| count_language(prev, l),
                        |l: Seq<char>| count_language(classified(sv, sp.take(k + 1)), l),
                        lang@,
                        1,
                    );
                }
                if !(str_eq(lang, "zh-Hans") || str_eq(lang, "zh-Hant") || str_eq(lang, "zh")) {
                    let runs = count_embedded_han_runs(&slice);
                    embedded = embedded + runs;
                }
            },
            None => {
                assert(classified(sv, sp.take(k + 1)) == prev);
            },
        }
        k += 1;
    }
    (sentences, per_language, embedded)
}

proof fn lemma_classified_ordered(s: Seq<char>, spans: Seq<(int, int)>)
    requires
        spans_ordered(spans, 0, s.len() as int),
    ensures
        classified(s, spans).len() <= spans.len(),
        forall|k: int|
            0 <= k < classified(s, spans).len() ==> #[trigger] classified(s, spans)[k].0 < classified(
                s,
                spans,
            )[k].1 <= byte_len(s),
        forall|a: int, b: int|
            0 <= a < b < classified(s, spans).len() ==> #[trigger] classified(s, spans)[a].1
                <= #[trigger] classified(s, spans)[b].0,
        forall|k: int|
            0 <= k < classified(s, spans).len() ==> exists|j: int|
                0 <= j < spans.len() && #[trigger] classified(s, spans)[k].1 == byte_offset(
                    s,
                    spans[j].1,
                ),
    decreases spans.len(),
{
    if spans.len() > 0 {
        let init = spans.drop_last();
        assert(spans_ordered(init, 0, s.len() as int)) by {
            assert forall|k: int| 0 <= k < init.len() implies 0 <= #[trigger] init[k].0 < init[k].1
                <= s.len() by {
                assert(init[k] == spans[k]);
            }
            assert forall|x: int, y: int| 0 <= x < y < init.len() implies #[trigger] init[x].1
                <= #[trigger] init[y].0 by {
                assert(init[x] == spans[x]);
                assert(init[y] == spans[y]);
            }
        }
        lemma_classified_ordered(s, init);
        let prev = classified(s, init);
        let r = classified(s, spans);
        let last = spans.len() - 1;
        let (a, b) = spans.last();
        assert(spans.last() == spans[last]);
        assert(s.take(s.len() as int) =~= s);
        match sentence_language(s.subrange(a, b)) {
            Some(l) => {
                assert(r == prev.push((byte_offset(s, a) as int, byte_offset(s, b) as int, l)));
                lemma_byte_len_mono(s, a, b);
                lemma_byte_len_mono(s, b, s.len() as int);
                assert forall|k: int| 0 <= k < r.len() implies #[trigger] r[k].0 < r[k].1 <= byte_len(s) by {
                    if k < prev.len() {
                        assert(r[k] == prev[k]);
                    }
                }
                assert forall|x: int, y: int| 0 <= x < y < r.len() implies #[trigger] r[x].1
                    <= #[trigger] r[y].0 by {
                    assert(r[x] == prev[x]);
                    if y < prev.len() {
                        assert(r[y] == prev[y]);
                    } else {
                        let j = choose|j: int| 0 <= j < init.len() && #[trigger] prev[x].1 == byte_offset(s, init[j].1);
                        assert(init[j] == spans[j]);
                        assert(0 <= spans[j].0 < spans[j].1 <= s.len());
                        assert(spans[j].1 <= spans[last].0);
                        lemma_byte_len_mono(s, spans[j].1, a);
                    }
                }
                assert forall|k: int| 0 <= k < r.len() implies exists|j: int|
                    0 <= j < spans.len() && #[trigger] r[k].1 == byte_offset(s, spans[j].1) by {
                    if k < prev.len() {
                        assert(r[k] == prev[k]);
                        let j = choose|j: int| 0 <= j < init.len() && #[trigger] prev[k].1 == byte_offset(s, init[j].1);
                        assert(init[j] == spans[j]);
                    } else {
                        assert(r[k].1 == byte_offset(s, spans[last].1));
                    }
                }
            },
            None => {
                assert(r == prev);
                assert forall|k: int| 0 <= k < r.len() implies exists|j: int|
                    0 <= j < spans.len() && #[trigger] r[k].1 == byte_offset(s, spans[j].1) by {
                    let j = choose|j: int| 0 <= j < init.len() && #[trigger] prev[k].1 == byte_offset(s, init[j].1);
                    assert(init[j] == spans[j]);
                }
            },
        }
    }
}

/// The classified sentences are at most `SENTENCE_CAP`, each a
/// non-empty byte range of the text, in order and disjoint.
pub proof fn lemma_classified_sentences(s: Seq<char>)
    ensures
        classified(s, capped_spans(s)).len() <= SENTENCE_CAP,
        forall|k: int|
            0 <= k < classified(s, capped_spans(s)).len() ==> #[trigger] classified(
                s,
                capped_spans(s),
            )[k].0 < classified(s, capped_spans(s))[k].1 <= byte_len(s),
        forall|a: int, b: int|
            0 <= a < b < classified(s, capped_spans(s)).len() ==> #[trigger] classified(
                s,
                capped_spans(s),
            )[a].1 <= #[trigger] classified(s, capped_spans(s))[b].0,
{
    let cs = capped_spans(s);
    let sp = sentence_spans(s);
    lemma_sentences_ordered(s);
    assert(spans_ordered(cs, 0, s.len() as int)) by {
        assert forall|k: int| 0 <= k < cs.len() implies 0 <= #[trigger] cs[k].0 < cs[k].1 <= s.len() by {
            assert(cs[k] == sp[k]);
        }
        assert forall|x: int, y: int| 0 <= x < y < cs.len() implies #[trigger] cs[x].1
            <= #[trigger] cs[y].0 by {
            assert(cs[x] == sp[x]);
            assert(cs[y] == sp[y]);
        }
    }
    lemma_classified_ordered(s, cs);
}

proof fn lemma_sentence_fields(v: Seq<SentenceClassification>, s: Seq<char>)
    requires
        sentence_views(v) == classified(s, capped_spans(s)),
    ensures
        v.len() <= SENTENCE_CAP,
        forall|k: int| 0 <= k < v.len() ==> #[trigger] v[k].start < v[k].end <= byte_len(s),
        forall|a: int, b: int| 0 <= a < b < v.len() ==> #[trigger] v[a].end <= #[trigger] v[b].start,
{
    let fin = classified(s, capped_spans(s));
    lemma_classified_sentences(s);
    let sv = sentence_views(v);
    assert forall|k: int| 0 <= k < v.len() implies #[trigger] v[k].start < v[k].end <= byte_len(s) by {
        assert(sv[k] == fin[k]);
        assert(fin[k].0 < fin[k].1 <= byte_len(s));
    }
    assert forall|a: int, b: int| 0 <= a < b < v.len() implies #[trigger] v[a].end
        <= #[trigger] v[b].start by {
        assert(sv[a] == fin[a]);
        assert(sv[b] == fin[b]);
        assert(fin[a].1 <= fin[b].0);
    }
}

/// Split the input into sentences, classify the first `SENTENCE_CAP` of
/// them, count the sentences each language wins and the Han runs
/// embedded in non-Chinese sentences, and decide whether the text mixes
/// languages.
pub fn score(input: &Normalized) -> (sig: ContextWindowSignal)
    requires
        input.wf(),
    ensures
        sentence_views(sig.sentences@) == classified(input.chars@, capped_spans(input.chars@)),
        sig.per_language.wf(),
        tally_is(
            sig.per_language@,
            |l: Seq<char>| count_language(classified(input.chars@, capped_spans(input.chars@)), l),
        ),
        sig.embedded_han_runs == embedded_total(input.chars@, capped_spans(input.chars@)),
        sig.multi_language == (spread_is_multi(
            macro_totals(classified(input.chars@, capped_spans(input.chars@))),
        ) || sig.embedded_han_runs >= 2),
        sig.multi_language == (macros_mixed(classified(input.chars@, capped_spans(input.chars@)))
            || sig.embedded_han_runs >= 2),
        sig.sentences.len() <= SENTENCE_CAP,
        forall|k: int|
            0 <= k < sig.sentences.len() ==> #[trigger] sig.sentences@[k].start
                < sig.sentences@[k].end <= byte_len(input.chars@),
        forall|a: int, b: int|
            0 <= a < b < sig.sentences.len() ==> #[trigger] sig.sentences@[a].end
                <= #[trigger] sig.sentences@[b].start,
{
    let spans = split_sentences(&input.chars);
    let cap = if spans.len() > SENTENCE_CAP {
        SENTENCE_CAP
    } else {
        spans.len()
    };
    assert(span_views(spans@).take(cap as int) =~= capped_spans(input.chars@));
    let (sentences, per_language, embedded) = classify_spans(input, &spans, cap);
    let en = per_language.count("en");
    let vi = per_language.count("vi");
    let ja = per_language.count("ja");
    let ko = per_language.count("ko");
    let zh = per_language.count("zh");
    let zh_hans = per_language.count("zh-Hans");
    let zh_hant = per_language.count("zh-Hant");
    let ghost fin = classified(input.chars@, capped_spans(input.chars@));
    proof {
        lemma_count_language_bound(fin, "en"@);
        lemma_count_language_bound(fin, "vi"@);
        lemma_count_language_bound(fin, "ja"@);
        lemma_count_language_bound(fin, "ko"@);
        lemma_count_language_bound(fin, "zh"@);
        lemma_count_language_bound(fin, "zh-Hans"@);
        lemma_count_language_bound(fin, "zh-Hant"@);
    }
    let totals = vec![en, vi, ja, ko, zh + zh_hans + zh_hant];
    assert(usize_views(totals@) =~= macro_totals(fin));
    let multi = runner_up_close(&totals) || embedded >= 2;
    proof {
        lemma_sentence_fields(sentences@, input.chars@);
        lemma_multi_language_by_macros(input.chars@, capped_spans(input.chars@));
    }
    ContextWindowSignal {
        sentences,
        per_language,
        multi_language: multi,
        embedded_han_runs: embedded,
    }
}

/// The macro language of a tag: its part before the first `-`.
pub open spec fn macro_prefix(tag: Seq<char>) -> Seq<char>
    decreases tag.len(),
{
    if tag.len() == 0 || tag[0] == '-' {
        Seq::empty()
    } else {
        seq![tag[0]] + macro_prefix(tag.drop_first())
    }
}

/// How many of the classified sentences `a` have a tag of macro
/// language `m`.
pub open spec fn sentences_in_macro(a: Seq<(int, int, Seq<char>)>, m: Seq<char>) -> nat
    decreases a.len(),
{
    if a.len() == 0 {
        0
    } else {
        sentences_in_macro(a.drop_last(), m) + if macro_prefix(a.last().2) == m {
            1nat
        } else {
            0nat
        }
    }
}

/// Some macro language leads (no other wins more sentences) and a
/// different macro language wins at least one sentence and at least a
/// fifth as many as the leader.
pub open spec fn macros_mixed(a: Seq<(int, int, Seq<char>)>) -> bool {
    exists|m1: Seq<char>, m2: Seq<char>|
        #![trigger sentences_in_macro(a, m1), sentences_in_macro(a, m2)]
        m1 != m2 && sentences_in_macro(a, m2) >= 1 && (forall|m: Seq<char>|
            #[trigger] sentences_in_macro(a, m) <= sentences_in_macro(a, m1)) && 5
            * sentences_in_macro(a, m2) >= sentences_in_macro(a, m1)
}

/// The tags a sentence can get.
pub open spec fn is_sentence_tag(t: Seq<char>) -> bool {
    t == "en"@ || t == "vi"@ || t == "ja"@ || t == "ko"@ || t == "zh"@ || t == "zh-Hans"@ || t
        == "zh-Hant"@
}

proof fn lemma_sentence_language_tag(t: Seq<char>)
    ensures
        sentence_language(t) matches Some(l) ==> is_sentence_tag(l),
{
}

proof fn lemma_classified_tags(s: Seq<char>, spans: Seq<(int, int)>)
    ensures
        forall|k: int|
            0 <= k < classified(s, spans).len() ==> is_sentence_tag(
                (#[trigger] classified(s, spans)[k]).2,
            ),
    decreases spans.len(),
{
    if spans.len() > 0 {
        lemma_classified_tags(s, spans.drop_last());
        let prev = classified(s, spans.drop_last());
        let (a, b) = spans.last();
        lemma_sentence_language_tag(s.subrange(a, b));
        let cur = classified(s, spans);
        assert forall|k: int| 0 <= k < cur.len() implies is_sentence_tag((#[trigger] cur[k]).2) by {
            if k < prev.len() {
                assert(cur[k] == prev[k]);
            }
        }
    }
}

proof fn lemma_macro_prefix_split(a: Seq<char>, b: Seq<char>)
    requires
        forall|i: int| 0 <= i < a.len() ==> a[i] != '-',
        b.len() > 0 ==> b[0] == '-',
    ensures
        macro_prefix(a + b) == a,
    decreases a.len(),
{
    if a.len() == 0 {
        assert(a + b =~= b);
    } else {
        assert((a + b).drop_first() =~= a.drop_first() + b);
        lemma_macro_prefix_split(a.drop_first(), b);
        assert(seq![a[0]] + a.drop_first() =~= a);
    }
}

/// The macro languages of the sentence tags.
proof fn lemma_sentence_tag_macros()
    ensures
        macro_prefix("en"@) == "en"@,
        macro_prefix("vi"@) == "vi"@,
        macro_prefix("ja"@) == "ja"@,
        macro_prefix("ko"@) == "ko"@,
        macro_prefix("zh"@) == "zh"@,
        macro_prefix("zh-Hans"@) == "zh"@,
        macro_prefix("zh-Hant"@) == "zh"@,
{
    reveal_strlit("en");
    reveal_strlit("vi");
    reveal_strlit("ja");
    reveal_strlit("ko");
    reveal_strlit("zh");
    reveal_strlit("zh-Hans");
    reveal_strlit("zh-Hant");
    reveal_strlit("-Hans");
    reveal_strlit("-Hant");
    let e = Seq::<char>::empty();
    lemma_macro_prefix_split("en"@, e);
    lemma_macro_prefix_split("vi"@, e);
    lemma_macro_prefix_split("ja"@, e);
    lemma_macro_prefix_split("ko"@, e);
    lemma_macro_prefix_split("zh"@, e);
    lemma_macro_prefix_split("zh"@, "-Hans"@);
    lemma_macro_prefix_split("zh"@, "-Hant"@);
    assert("en"@ + e =~= "en"@);
    assert("vi"@ + e =~= "vi"@);
    assert("ja"@ + e =~= "ja"@);
    assert("ko"@ + e =~= "ko"@);
    assert("zh"@ + e =~= "zh"@);
    assert("zh"@ + "-Hans"@ =~= "zh-Hans"@);
    assert("zh"@ + "-Hant"@ =~= "zh-Hant"@);
}

/// The macro languages of the totals, in their order.
spec fn total_macros() -> Seq<Seq<char>> {
    seq!["en"@, "vi"@, "ja"@, "ko"@, "zh"@]
}

proof fn lemma_total_macros_distinct()
    ensures
        forall|i: int, j: int| 0 <= i < j < 5 ==> total_macros()[i] != total_macros()[j],
{
    reveal_strlit("en");
    reveal_strlit("vi");
    reveal_strlit("ja");
    reveal_strlit("ko");
    reveal_strlit("zh");
    assert forall|i: int, j: int| 0 <= i < j < 5 implies total_macros()[i] != total_macros()[j] by {
        assert(total_macros()[i][0] != total_macros()[j][0]);
    }
}

/// Over sentence tags, the sentences of a macro language are those of
/// its total; a macro language without a total has none.
proof fn lemma_sentences_in_macro(a: Seq<(int, int, Seq<char>)>, m: Seq<char>)
    requires
        forall|k: int| 0 <= k < a.len() ==> is_sentence_tag(#[trigger] a[k].2),
    ensures
        forall|k: int| 0 <= k < 5 && total_macros()[k] == m ==> sentences_in_macro(a, m)
            == macro_totals(a)[k],
        (forall|k: int| 0 <= k < 5 ==> total_macros()[k] != m) ==> sentences_in_macro(a, m) == 0,
    decreases a.len(),
{
    if a.len() > 0 {
        let init = a.drop_last();
        assert forall|k: int| 0 <= k < init.len() implies is_sentence_tag(#[trigger] init[k].2) by {
            assert(init[k] == a[k]);
        }
        lemma_sentences_in_macro(init, m);
        lemma_sentence_tag_macros();
        lemma_total_macros_distinct();
        assert(a.last() == a[a.len() - 1]);
        let t = a.last().2;
        reveal_strlit("en");
        reveal_strlit("vi");
        reveal_strlit("ja");
        reveal_strlit("ko");
        reveal_strlit("zh");
        reveal_strlit("zh-Hans");
        reveal_strlit("zh-Hant");
        assert("zh-Hans"@.len() != "zh"@.len() && "zh-Hant"@.len() != "zh"@.len());
        assert("zh-Hans"@[6] != "zh-Hant"@[6]);
        assert(total_macros()[0] == "en"@ && total_macros()[1] == "vi"@ && total_macros()[2]
            == "ja"@ && total_macros()[3] == "ko"@ && total_macros()[4] == "zh"@);
    }
}

/// A paragraph counts as mixing languages exactly when its classified
/// sentences show two different macro languages (the tag before any
/// `-`), the leader's count no more than five times the runner-up's.
/// Different macro languages are never counted together, and the
/// variants of one (`zh`, `zh-Hans`, `zh-Hant`) always are.
pub proof fn lemma_multi_language_by_macros(s: Seq<char>, spans: Seq<(int, int)>)
    ensures
        spread_is_multi(macro_totals(classified(s, spans))) <==> macros_mixed(classified(s, spans)),
{
    let a = classified(s, spans);
    lemma_classified_tags(s, spans);
    let t = macro_totals(a);
    let ms = total_macros();
    lemma_total_macros_distinct();
    assert forall|m: Seq<char>| true implies (forall|k: int| 0 <= k < 5 && ms[k] == m ==> sentences_in_macro(a, m)
        == t[k]) && ((forall|k: int| 0 <= k < 5 ==> ms[k] != m) ==> sentences_in_macro(a, m) == 0) by {
        lemma_sentences_in_macro(a, m);
    }
    if spread_is_multi(t) {
        let (i, j) = choose|i: int, j: int|
            0 <= i < t.len() && 0 <= j < t.len() && i != j && (forall|k: int|
                0 <= k < t.len() ==> #[trigger] t[k] <= t[i]) && t[j] >= 1 && 5 * t[j] >= t[i];
        let m1 = ms[i];
        let m2 = ms[j];
        assert(sentences_in_macro(a, m1) == t[i]);
        assert(sentences_in_macro(a, m2) == t[j]);
        assert forall|m: Seq<char>| #[trigger] sentences_in_macro(a, m) <= sentences_in_macro(a, m1) by {
            if exists|k: int| 0 <= k < 5 && ms[k] == m {
                let k = choose|k: int| 0 <= k < 5 && ms[k] == m;
                assert(t[k] <= t[i]);
            }
        }
        assert(macros_mixed(a));
    }
    if macros_mixed(a) {
        let (m1, m2) = choose|m1: Seq<char>, m2: Seq<char>|
            #![trigger sentences_in_macro(a, m1), sentences_in_macro(a, m2)]
            m1 != m2 && sentences_in_macro(a, m2) >= 1 && (forall|m: Seq<char>|
                #[trigger] sentences_in_macro(a, m) <= sentences_in_macro(a, m1)) && 5
                * sentences_in_macro(a, m2) >= sentences_in_macro(a, m1);
        assert(exists|k: int| 0 <= k < 5 && ms[k] == m2);
        assert(sentences_in_macro(a, m1) >= 1);
        assert(exists|k: int| 0 <= k < 5 && ms[k] == m1);
        let j = choose|k: int| 0 <= k < 5 && ms[k] == m2;
        let i = choose|k: int| 0 <= k < 5 && ms[k] == m1;
        assert forall|k: int| 0 <= k < t.len() implies #[trigger] t[k] <= t[i] by {
            assert(sentences_in_macro(a, ms[k]) == t[k]);
            assert(sentences_in_macro(a, ms[k]) <= sentences_in_macro(a, m1));
        }
        assert(spread_is_multi(t));
    }
}

} // verus!
