//! Layer 6 — morphology: which language each Latin word belongs to, and
//! the verb endings and grammatical patterns of the CJK languages.

use vstd::prelude::*;
use crate::layers::normalize::Normalized;
use crate::layers::orthography::{is_vi_marker_char, vi_pred};
use crate::layers::script::{classify, is_latin, Script};
use crate::lexicon::Lexicons;
use crate::tally::{lemma_tally_add, lemma_tally_ext, tally_is, Tally};
use crate::text::{any_where, copy_range, count_all, lowercase_of, str_chars, sum_matches, to_lowercase, views};

verus! {

/// A Latin word attributed to a language. `start` and `end` are
/// character indices into `Normalized::chars`.
#[derive(Debug, Clone, Copy, PartialEq, Eq)]
pub struct LatinAttribution {
    pub start: usize,
    pub end: usize,
    pub language: &'static str,
}

#[derive(Debug, Clone, Default)]
pub struct MorphologySignal {
    /// language → number of words or endings that point to it.
    pub per_language: Tally,
    /// The attributed Latin words, left to right.
    pub latin_attribution: Vec<LatinAttribution>,
}

/// Whether `t` begins with the two letters `a`, `b`.
pub open spec fn begins2(t: Seq<char>, a: char, b: char) -> bool {
    t.len() >= 2 && t[0] == a && t[1] == b
}

/// Whether `t` ends with the two letters `a`, `b`.
pub open spec fn ends2(t: Seq<char>, a: char, b: char) -> bool {
    t.len() >= 2 && t[t.len() - 2] == a && t[t.len() - 1] == b
}

/// A Vietnamese initial cluster: ng nh tr ph kh th ch gi qu.
pub open spec fn has_vi_initial(t: Seq<char>) -> bool {
    begins2(t, 'n', 'g') || begins2(t, 'n', 'h') || begins2(t, 't', 'r') || begins2(t, 'p', 'h')
        || begins2(t, 'k', 'h') || begins2(t, 't', 'h') || begins2(t, 'c', 'h') || begins2(
        t,
        'g',
        'i',
    ) || begins2(t, 'q', 'u')
}

/// A Vietnamese final cluster: ng nh ch.
pub open spec fn has_vi_final(t: Seq<char>) -> bool {
    ends2(t, 'n', 'g') || ends2(t, 'n', 'h') || ends2(t, 'c', 'h')
}

/// The language a word in both lists is given: Vietnamese when it has
/// both a Vietnamese initial and a Vietnamese final, English otherwise.
pub open spec fn shape_language(t: Seq<char>) -> Seq<char> {
    if has_vi_initial(t) && has_vi_final(t) {
        "vi"@
    } else {
        "en"@
    }
}

/// The language of one Latin word: Vietnamese when it carries a
/// Vietnamese-only diacritic; otherwise by which of the English and
/// Vietnamese lists hold its lower-cased form, by shape when both do.
pub open spec fn attribute_word(lex: Lexicons, t: Seq<char>) -> Option<Seq<char>> {
    if t.len() == 0 {
        None
    } else if any_where(t, vi_pred()) {
        Some("vi"@)
    } else {
        let lower = lowercase_of(t);
        let in_en = lex.words_of("en"@).contains(lower);
        let in_vi = lex.words_of("vi"@).contains(lower);
        if in_en && !in_vi {
            Some("en"@)
        } else if !in_en && in_vi {
            Some("vi"@)
        } else if in_en && in_vi {
            Some(shape_language(lower))
        } else {
            None
        }
    }
}

/// The spans `(start, end)` of the maximal Latin runs of `s` from index
/// `i` on, given the start of the run in progress (`-1` for none).
pub open spec fn run_spans(s: Seq<char>, i: int, start: int) -> Seq<(int, int)>
    decreases s.len() - i,
{
    if i >= s.len() {
        if start >= 0 {
            seq![(start, s.len() as int)]
        } else {
            Seq::empty()
        }
    } else if is_latin(s[i]) {
        run_spans(s, i + 1, if start >= 0 { start } else { i })
    } else {
        (if start >= 0 {
            seq![(start, i)]
        } else {
            Seq::empty()
        }) + run_spans(s, i + 1, -1)
    }
}

/// The spans of the maximal Latin runs of `s`, left to right.
pub open spec fn latin_spans(s: Seq<char>) -> Seq<(int, int)> {
    run_spans(s, 0, -1)
}

/// The spans among `spans` whose word gets a language, with it.
pub open spec fn attributed(lex: Lexicons, s: Seq<char>, spans: Seq<(int, int)>) -> Seq<
    (int, int, Seq<char>),
>
    decreases spans.len(),
{
    if spans.len() == 0 {
        Seq::empty()
    } else {
        let prev = attributed(lex, s, spans.drop_last());
        let (a, b) = spans.last();
        match attribute_word(lex, s.subrange(a, b)) {
            Some(l) => prev.push((a, b, l)),
            None => prev,
        }
    }
}

/// The attributions of the Latin words of `s`.
pub open spec fn attributions(lex: Lexicons, s: Seq<char>) -> Seq<(int, int, Seq<char>)> {
    attributed(lex, s, latin_spans(s))
}

pub open spec fn attribution_views(v: Seq<LatinAttribution>) -> Seq<(int, int, Seq<char>)> {
    v.map_values(|a: LatinAttribution| (a.start as int, a.end as int, a.language@))
}

/// How many of `a` name `lang`.
pub open spec fn count_language(a: Seq<(int, int, Seq<char>)>, lang: Seq<char>) -> nat
    decreases a.len(),
{
    if a.len() == 0 {
        0
    } else {
        count_language(a.drop_last(), lang) + if a.last().2 == lang {
            1nat
        } else {
            0nat
        }
    }
}

/// Japanese verb and copula endings.
pub open spec fn ja_endings() -> Seq<Seq<char>> {
    seq!["です"@, "ます"@, "ました"@, "ません"@, "ている"@, "ない"@, "だった"@, "でした"@]
}

/// Korean predicate endings.
pub open spec fn ko_endings() -> Seq<Seq<char>> {
    seq!["입니다"@, "합니다"@, "했다"@, "이다"@, "하다"@]
}

/// Chinese grammatical patterns.
pub open spec fn zh_patterns() -> Seq<Seq<char>> {
    seq!["是"@, "不是"@, "没有"@, "这是"@, "也是"@]
}

/// Occurrences of `lang`'s endings in `s`.
pub open spec fn ending_count(s: Seq<char>, lang: Seq<char>) -> nat {
    if lang == "ja"@ {
        sum_matches(s, ja_endings())
    } else if lang == "ko"@ {
        sum_matches(s, ko_endings())
    } else if lang == "zh"@ {
        sum_matches(s, zh_patterns())
    } else {
        0
    }
}

/// The morphology count of `lang` over `s`.
pub open spec fn morphology_count(lex: Lexicons, s: Seq<char>, lang: Seq<char>) -> nat {
    count_language(attributions(lex, s), lang) + ending_count(s, lang)
}

fn starts_with2(t: &Vec<char>, a: char, b: char) -> (r: bool)
    ensures
        r == begins2(t@, a, b),
{
    t.len() >= 2 && t[0] == a && t[1] == b
}

fn ends_with2(t: &Vec<char>, a: char, b: char) -> (r: bool)
    ensures
        r == ends2(t@, a, b),
{
    t.len() >= 2 && t[t.len() - 2] == a && t[t.len() - 1] == b
}

/// Vietnamese-only initial and final clusters are rare in English: a
/// word with both is taken for Vietnamese, any other for English.
fn disambiguate_by_shape(token: &Vec<char>) -> (l: &'static str)
    ensures
        l@ == shape_language(token@),
{
    let has_initial = starts_with2(token, 'n', 'g') || starts_with2(token, 'n', 'h')
        || starts_with2(token, 't', 'r') || starts_with2(token, 'p', 'h') || starts_with2(
        token,
        'k',
        'h',
    ) || starts_with2(token, 't', 'h') || starts_with2(token, 'c', 'h') || starts_with2(
        token,
        'g',
        'i',
    ) || starts_with2(token, 'q', 'u');
    let has_final = ends_with2(token, 'n', 'g') || ends_with2(token, 'n', 'h') || ends_with2(
        token,
        'c',
        'h',
    );
    if has_initial && has_final {
        "vi"
    } else {
        "en"
    }
}

fn has_vi_marker(token: &Vec<char>) -> (b: bool)
    ensures
        b == any_where(token@, vi_pred()),
{
    let mut i: usize = 0;
    while i < token.len()
        invariant
            i <= token.len(),
            forall|j: int| 0 <= j < i ==> !vi_pred()(#[trigger] token@[j]),
        decreases token.len() - i,
    {
        if is_vi_marker_char(token[i]) {
            assert(vi_pred()(token@[i as int]));
            return true;
        }
        i += 1;
    }
    false
}

/// The language of one Latin word, if any.
fn attribute_one(lex: &Lexicons, token: &Vec<char>) -> (r: Option<&'static str>)
    requires
        lex.wf(),
    ensures
        match r {
            Some(l) => attribute_word(*lex, token@) == Some(l@),
            None => attribute_word(*lex, token@) is None,
        },
{
    if token.len() == 0 {
        return None;
    }
    if has_vi_marker(token) {
        return Some("vi");
    }
    let lower = to_lowercase(token.as_slice());
    let in_en = lex.contains("en", lower.as_slice());
    let in_vi = lex.contains("vi", lower.as_slice());
    if in_en && !in_vi {
        Some("en")
    } else if !in_en && in_vi {
        Some("vi")
    } else if in_en && in_vi {
        Some(disambiguate_by_shape(&lower))
    } else {
        None
    }
}

pub proof fn lemma_count_language_bound(a: Seq<(int, int, Seq<char>)>, lang: Seq<char>)
    ensures
        count_language(a, lang) <= a.len(),
    decreases a.len(),
{
    if a.len() > 0 {
        lemma_count_language_bound(a.drop_last(), lang);
    }
}

pub proof fn lemma_attributed_len(lex: Lexicons, s: Seq<char>, spans: Seq<(int, int)>)
    ensures
        attributed(lex, s, spans).len() <= spans.len(),
    decreases spans.len(),
{
    if spans.len() > 0 {
        lemma_attributed_len(lex, s, spans.drop_last());
    }
}

/// Every attribution names English or Vietnamese.
proof fn lemma_attributed_languages(lex: Lexicons, s: Seq<char>, spans: Seq<(int, int)>, lang: Seq<char>)
    requires
        lang != "en"@,
        lang != "vi"@,
    ensures
        count_language(attributed(lex, s, spans), lang) == 0,
    decreases spans.len(),
{
    if spans.len() > 0 {
        lemma_attributed_languages(lex, s, spans.drop_last(), lang);
        let prev = attributed(lex, s, spans.drop_last());
        let (a, b) = spans.last();
        match attribute_word(lex, s.subrange(a, b)) {
            Some(l) => {
                assert(prev.push((a, b, l)).drop_last() =~= prev);
            },
            None => {},
        }
    }
}

/// Attribute each maximal Latin run of the input to a language.
fn attribute_latin_tokens(input: &Normalized, lex: &Lexicons, sig: &mut MorphologySignal)
    requires
        input.wf(),
        lex.wf(),
        old(sig).per_language.wf(),
        old(sig).per_language@ == Map::<Seq<char>, nat>::empty(),
        old(sig).latin_attribution@.len() == 0,
    ensures
        final(sig).per_language.wf(),
        attribution_views(final(sig).latin_attribution@) == attributions(*lex, input.chars@),
        tally_is(
            final(sig).per_language@,
            |l: Seq<char>| count_language(attributions(*lex, input.chars@), l),
        ),
{
    let s = &input.chars;
    let ghost sv = s@;
    let ghost mut done: Seq<(int, int)> = Seq::empty();
    let mut start: usize = 0;
    let mut in_run = false;
    let mut i: usize = 0;
    assert(attribution_views(sig.latin_attribution@) =~= Seq::<(int, int, Seq<char>)>::empty());
    assert(done + run_spans(sv, 0, -1) =~= latin_spans(sv));
    while i < s.len()
        invariant
            i <= s.len(),
            s == &input.chars,
            sv == s@,
            input.wf(),
            lex.wf(),
            in_run ==> start < i,
            done.len() <= if in_run { start as int } else { i as int },
            done + run_spans(sv, i as int, if in_run { start as int } else { -1 }) == latin_spans(sv),
            attribution_views(sig.latin_attribution@) == attributed(*lex, sv, done),
            sig.per_language.wf(),
            tally_is(sig.per_language@, |l: Seq<char>| count_language(attributed(*lex, sv, done), l)),
        decreases s.len() - i,
    {
        let latin = classify(s[i]) == Script::Latin;
        let ghost st: int = if in_run { start as int } else { -1 };
        if latin {
            if !in_run {
                start = i;
                in_run = true;
            }
        } else {
            if in_run {
                let token = copy_range(s, start, i);
                let ghost span = (start as int, i as int);
                let ghost nd = done.push(span);
                assert(nd.drop_last() =~= done);
                assert(nd.last() == span);
                assert(done + (seq![span] + run_spans(sv, i + 1, -1)) =~= nd + run_spans(sv, i + 1, -1));
                let ghost before = sig.latin_attribution@;
                let ghost prev = attributed(*lex, sv, done);
                match attribute_one(lex, &token) {
                    Some(lang) => {
                        proof {
                            lemma_attributed_len(*lex, sv, done);
                            lemma_count_language_bound(prev, lang@);
                            assert(attributed(*lex, sv, nd) == prev.push((start as int, i as int, lang@)));
                        }
                        sig.latin_attribution.push(LatinAttribution { start, end: i, language: lang });
                        assert(attribution_views(sig.latin_attribution@) =~= prev.push((start as int, i as int, lang@)));
                        let ghost m0 = sig.per_language@;
                        sig.per_language.add(lang, 1);
                        proof {
                            let np = prev.push((start as int, i as int, lang@));
                            assert(np.drop_last() =~= prev);
                            assert forall|l: Seq<char>| #[trigger] count_language(np, l) == count_language(prev, l) + if l == lang@ { 1nat } else { 0nat } by {}
                            lemma_tally_add(
                                m0,
                                |l: Seq<char>| count_language(prev, l),
                                |l: Seq<char>| count_language(attributed(*lex, sv, nd), l),
                                lang@,
                                1,
                            );
                        }
                    },
                    None => {
                        assert(attributed(*lex, sv, nd) == prev);
                    },
                }
                proof {
                    done = nd;
                }
                in_run = false;
            } else {
                assert(done + (Seq::<(int, int)>::empty() + run_spans(sv, i + 1, -1)) =~= done + run_spans(sv, i + 1, -1));
            }
        }
        i += 1;
    }
    if in_run {
        let token = copy_range(s, start, s.len());
        let ghost span = (start as int, s.len() as int);
        let ghost nd = done.push(span);
        assert(nd.drop_last() =~= done);
        assert(done + seq![span] =~= nd);
        let ghost prev = attributed(*lex, sv, done);
        match attribute_one(lex, &token) {
            Some(lang) => {
                proof {
                    lemma_attributed_len(*lex, sv, done);
                    lemma_count_language_bound(prev, lang@);
                }
                sig.latin_attribution.push(LatinAttribution { start, end: s.len(), language: lang });
                assert(attribution_views(sig.latin_attribution@) =~= prev.push((start as int, s.len() as int, lang@)));
                let ghost m0 = sig.per_language@;
                sig.per_language.add(lang, 1);
                proof {
                    let np = prev.push((start as int, s.len() as int, lang@));
                    assert(np.drop_last() =~= prev);
                    assert forall|l: Seq<char>| #[trigger] count_language(np, l) == count_language(prev, l) + if l == lang@ { 1nat } else { 0nat } by {}
                    lemma_tally_add(
                        m0,
                        |l: Seq<char>| count_language(prev, l),
                        |l: Seq<char>| count_language(attributed(*lex, sv, nd), l),
                        lang@,
                        1,
                    );
                }
            },
            None => {},
        }
        proof {
            done = nd;
        }
    } else {
        assert(done + Seq::<(int, int)>::empty() =~= done);
    }
}

fn ja_ending_vec() -> (v: Vec<Vec<char>>)
    ensures
        views(v@) == ja_endings(),
        forall|k: int| 0 <= k < v@.len() ==> #[trigger] v@[k]@.len() >= 1,
{
    let v = vec![
        str_chars("です"),
        str_chars("ます"),
        str_chars("ました"),
        str_chars("ません"),
        str_chars("ている"),
        str_chars("ない"),
        str_chars("だった"),
        str_chars("でした"),
    ];
    proof {
        reveal_strlit("です");
        reveal_strlit("ます");
        reveal_strlit("ました");
        reveal_strlit("ません");
        reveal_strlit("ている");
        reveal_strlit("ない");
        reveal_strlit("だった");
        reveal_strlit("でした");
        assert(views(v@) =~= ja_endings());
    }
    v
}

fn ko_ending_vec() -> (v: Vec<Vec<char>>)
    ensures
        views(v@) == ko_endings(),
        v@.len() == 5,
        forall|k: int| 0 <= k < v@.len() ==> #[trigger] v@[k]@.len() >= 1,
{
    let v = vec![
        str_chars("입니다"),
        str_chars("합니다"),
        str_chars("했다"),
        str_chars("이다"),
        str_chars("하다"),
    ];
    proof {
        reveal_strlit("입니다");
        reveal_strlit("합니다");
        reveal_strlit("했다");
        reveal_strlit("이다");
        reveal_strlit("하다");
        assert(views(v@) =~= ko_endings());
    }
    v
}

fn zh_pattern_vec() -> (v: Vec<Vec<char>>)
    ensures
        views(v@) == zh_patterns(),
        v@.len() == 5,
        forall|k: int| 0 <= k < v@.len() ==> #[trigger] v@[k]@.len() >= 1,
{
    let v = vec![
        str_chars("是"),
        str_chars("不是"),
        str_chars("没有"),
        str_chars("这是"),
        str_chars("也是"),
    ];
    proof {
        reveal_strlit("是");
        reveal_strlit("不是");
        reveal_strlit("没有");
        reveal_strlit("这是");
        reveal_strlit("也是");
        assert(views(v@) =~= zh_patterns());
    }
    v
}

/// The Latin part of the tally, then `ja`, `ko` and `zh` endings as far
/// as stage `k`.
spec fn staged_count(lex: Lexicons, s: Seq<char>, k: int) -> spec_fn(Seq<char>) -> nat {
    |l: Seq<char>|
        count_language(attributions(lex, s), l) + (if k >= 1 && l == "ja"@ {
            sum_matches(s, ja_endings())
        } else {
            0nat
        }) + (if k >= 2 && l == "ko"@ {
            sum_matches(s, ko_endings())
        } else {
            0nat
        }) + (if k >= 3 && l == "zh"@ {
            sum_matches(s, zh_patterns())
        } else {
            0nat
        })
}

/// Add the occurrence counts of the CJK endings to the tally.
fn score_cjk_endings(input: &Normalized, lex: &Lexicons, sig: &mut MorphologySignal)
    requires
        input.wf(),
        old(sig).per_language.wf(),
        tally_is(old(sig).per_language@, staged_count(*lex, input.chars@, 0)),
    ensures
        final(sig).per_language.wf(),
        final(sig).latin_attribution == old(sig).latin_attribution,
        tally_is(final(sig).per_language@, staged_count(*lex, input.chars@, 3)),
{
    let text = &input.chars;
    let ghost s = text@;
    let ghost a = attributions(*lex, s);
    proof {
        reveal_strlit("ja");
        reveal_strlit("ko");
        reveal_strlit("zh");
        reveal_strlit("en");
        reveal_strlit("vi");
        assert("ja"@[0] != "en"@[0] && "ja"@[0] != "vi"@[0]);
        assert("ko"@[0] != "en"@[0] && "ko"@[0] != "vi"@[0]);
        assert("zh"@[0] != "en"@[0] && "zh"@[0] != "vi"@[0]);
        assert("ja"@[0] != "ko"@[0] && "ja"@[0] != "zh"@[0] && "ko"@[0] != "zh"@[0]);
        lemma_attributed_languages(*lex, s, latin_spans(s), "ja"@);
        lemma_attributed_languages(*lex, s, latin_spans(s), "ko"@);
        lemma_attributed_languages(*lex, s, latin_spans(s), "zh"@);
        assert(8 * s.len() <= usize::MAX);
    }
    let ja = ja_ending_vec();
    let n = count_all(text, &ja, Ghost(1));
    if n > 0 {
        let ghost m0 = sig.per_language@;
        sig.per_language.add("ja", n);
        proof {
            lemma_tally_add(m0, staged_count(*lex, s, 0), staged_count(*lex, s, 1), "ja"@, n as nat);
        }
    } else {
        proof {
            lemma_tally_ext(sig.per_language@, staged_count(*lex, s, 0), staged_count(*lex, s, 1));
        }
    }
    let ko = ko_ending_vec();
    let n = count_all(text, &ko, Ghost(1));
    if n > 0 {
        let ghost m0 = sig.per_language@;
        sig.per_language.add("ko", n);
        proof {
            lemma_tally_add(m0, staged_count(*lex, s, 1), staged_count(*lex, s, 2), "ko"@, n as nat);
        }
    } else {
        proof {
            lemma_tally_ext(sig.per_language@, staged_count(*lex, s, 1), staged_count(*lex, s, 2));
        }
    }
    let zh = zh_pattern_vec();
    let n = count_all(text, &zh, Ghost(1));
    if n > 0 {
        let ghost m0 = sig.per_language@;
        sig.per_language.add("zh", n);
        proof {
            lemma_tally_add(m0, staged_count(*lex, s, 2), staged_count(*lex, s, 3), "zh"@, n as nat);
        }
    } else {
        proof {
            lemma_tally_ext(sig.per_language@, staged_count(*lex, s, 2), staged_count(*lex, s, 3));
        }
    }
}

/// Attribute the Latin words of the input to English or Vietnamese and
/// count the CJK endings: `per_language` gives, for each language, the
/// words attributed to it plus the occurrences of its endings.
pub fn score(input: &Normalized, lex: &Lexicons) -> (sig: MorphologySignal)
    requires
        input.wf(),
        lex.wf(),
    ensures
        sig.per_language.wf(),
        attribution_views(sig.latin_attribution@) == attributions(*lex, input.chars@),
        tally_is(sig.per_language@, |l: Seq<char>| morphology_count(*lex, input.chars@, l)),
{
    let mut sig = MorphologySignal { per_language: Tally::new(), latin_attribution: Vec::new() };
    attribute_latin_tokens(input, lex, &mut sig);
    proof {
        lemma_tally_ext(
            sig.per_language@,
            |l: Seq<char>| count_language(attributions(*lex, input.chars@), l),
            staged_count(*lex, input.chars@, 0),
        );
    }
    score_cjk_endings(input, lex, &mut sig);
    proof {
        reveal_strlit("ja");
        reveal_strlit("ko");
        reveal_strlit("zh");
        assert("ja"@[0] != "ko"@[0] && "ja"@[0] != "zh"@[0] && "ko"@[0] != "zh"@[0]);
        lemma_tally_ext(
            sig.per_language@,
            staged_count(*lex, input.chars@, 3),
            |l: Seq<char>| morphology_count(*lex, input.chars@, l),
        );
    }
    sig
}

/// Spans within `lo..s.len()` covering Latin letters only, in order and
/// disjoint.
pub open spec fn latin_spans_ok(s: Seq<char>, sp: Seq<(int, int)>, lo: int) -> bool {
    &&& forall|k: int| 0 <= k < sp.len() ==> lo <= #[trigger] sp[k].0 < sp[k].1 <= s.len()
    &&& forall|k: int, j: int|
        #![trigger sp[k], s[j]]
        0 <= k < sp.len() && sp[k].0 <= j < sp[k].1 ==> is_latin(s[j])
    &&& forall|a: int, b: int| 0 <= a < b < sp.len() ==> #[trigger] sp[a].1 <= #[trigger] sp[b].0
}

proof fn lemma_run_spans_ok(s: Seq<char>, i: int, start: int)
    requires
        0 <= i <= s.len(),
        -1 <= start < i,
        start >= 0 ==> forall|j: int| start <= j < i ==> is_latin(#[trigger] s[j]),
    ensures
        latin_spans_ok(s, run_spans(s, i, start), if start >= 0 { start } else { i }),
    decreases s.len() - i,
{
    let sp = run_spans(s, i, start);
    let lo = if start >= 0 { start } else { i };
    if i >= s.len() {
    } else if is_latin(s[i]) {
        let st = if start >= 0 { start } else { i };
        assert forall|j: int| st <= j < i + 1 implies is_latin(#[trigger] s[j]) by {}
        lemma_run_spans_ok(s, i + 1, st);
    } else {
        lemma_run_spans_ok(s, i + 1, -1);
        let head: Seq<(int, int)> = if start >= 0 {
            seq![(start, i)]
        } else {
            Seq::empty()
        };
        let rest = run_spans(s, i + 1, -1);
        assert(sp == head + rest);
        assert forall|k: int| 0 <= k < sp.len() implies lo <= #[trigger] sp[k].0 < sp[k].1 <= s.len() by {
            if k >= head.len() {
                assert(sp[k] == rest[k - head.len()]);
            }
        }
        assert forall|k: int, j: int| #![trigger sp[k], s[j]] 0 <= k < sp.len() && sp[k].0 <= j < sp[k].1 implies is_latin(s[j]) by {
            if k >= head.len() {
                assert(sp[k] == rest[k - head.len()]);
            }
        }
        assert forall|a: int, b: int| 0 <= a < b < sp.len() implies #[trigger] sp[a].1
            <= #[trigger] sp[b].0 by {
            assert(sp[b] == rest[b - head.len()]);
            if a >= head.len() {
                assert(sp[a] == rest[a - head.len()]);
            }
        }
    }
}

proof fn lemma_attributed_ok(lex: Lexicons, s: Seq<char>, spans: Seq<(int, int)>)
    requires
        latin_spans_ok(s, spans, 0),
    ensures
        latin_spans_ok(
            s,
            attributed(lex, s, spans).map_values(|e: (int, int, Seq<char>)| (e.0, e.1)),
            0,
        ),
        forall|k: int|
            0 <= k < attributed(lex, s, spans).len() ==> exists|j: int|
                0 <= j < spans.len() && #[trigger] attributed(lex, s, spans)[k].1 == spans[j].1,
        forall|k: int|
            0 <= k < attributed(lex, s, spans).len() ==> (#[trigger] attributed(lex, s, spans)[k]).2
                == "en"@ || attributed(lex, s, spans)[k].2 == "vi"@,
    decreases spans.len(),
{
    let r = attributed(lex, s, spans);
    let rv = r.map_values(|e: (int, int, Seq<char>)| (e.0, e.1));
    if spans.len() > 0 {
        let init = spans.drop_last();
        assert(latin_spans_ok(s, init, 0)) by {
            assert forall|k: int| 0 <= k < init.len() implies 0 <= #[trigger] init[k].0 < init[k].1
                <= s.len() by {
                assert(init[k] == spans[k]);
            }
            assert forall|k: int, j: int| #![trigger init[k], s[j]] 0 <= k < init.len() && init[k].0 <= j < init[k].1 implies is_latin(s[j]) by {
                assert(init[k] == spans[k]);
            }
            assert forall|a: int, b: int| 0 <= a < b < init.len() implies #[trigger] init[a].1
                <= #[trigger] init[b].0 by {
                assert(init[a] == spans[a]);
                assert(init[b] == spans[b]);
            }
        }
        lemma_attributed_ok(lex, s, init);
        let prev = attributed(lex, s, init);
        let pv = prev.map_values(|e: (int, int, Seq<char>)| (e.0, e.1));
        let (a, b) = spans.last();
        assert(spans.last() == spans[spans.len() - 1]);
        match attribute_word(lex, s.subrange(a, b)) {
            Some(l) => {
                assert(r == prev.push((a, b, l)));
                reveal_strlit("en");
                reveal_strlit("vi");
                assert(l == "en"@ || l == "vi"@);
                assert forall|k: int| 0 <= k < rv.len() implies 0 <= #[trigger] rv[k].0 < rv[k].1
                    <= s.len() by {
                    if k < prev.len() {
                        assert(rv[k] == pv[k]);
                    }
                }
                assert forall|k: int, j: int| #![trigger rv[k], s[j]] 0 <= k < rv.len() && rv[k].0 <= j < rv[k].1 implies is_latin(s[j]) by {
                    if k < prev.len() {
                        assert(rv[k] == pv[k]);
                    } else {
                        assert(0 <= spans.len() - 1 < spans.len());
                        assert(spans[spans.len() - 1].0 <= j < spans[spans.len() - 1].1);
                    }
                }
                assert forall|x: int, y: int| 0 <= x < y < rv.len() implies #[trigger] rv[x].1
                    <= #[trigger] rv[y].0 by {
                    assert(rv[x] == pv[x]);
                    if y < prev.len() {
                        assert(rv[y] == pv[y]);
                    } else {
                        assert(pv[x].1 == prev[x].1);
                        let j = choose|j: int| 0 <= j < init.len() && #[trigger] prev[x].1 == init[j].1;
                        assert(init[j] == spans[j]);
                        assert(spans[j].1 <= spans[spans.len() - 1].0);
                    }
                }
                assert forall|k: int| 0 <= k < r.len() implies exists|j: int|
                    0 <= j < spans.len() && #[trigger] r[k].1 == spans[j].1 by {
                    if k < prev.len() {
                        let j = choose|j: int| 0 <= j < init.len() && #[trigger] prev[k].1 == init[j].1;
                        assert(init[j] == spans[j]);
                    } else {
                        assert(r[k].1 == spans[spans.len() - 1].1);
                    }
                }
            },
            None => {
                assert(r == prev);
                assert forall|k: int| 0 <= k < r.len() implies exists|j: int|
                    0 <= j < spans.len() && #[trigger] r[k].1 == spans[j].1 by {
                    let j = choose|j: int| 0 <= j < init.len() && #[trigger] prev[k].1 == init[j].1;
                    assert(init[j] == spans[j]);
                }
            },
        }
    }
}

/// The attributed Latin words are maximal runs of Latin letters, in
/// left-to-right order, each given English or Vietnamese.
pub proof fn lemma_attributions_ordered(lex: Lexicons, s: Seq<char>)
    ensures
        latin_spans_ok(
            s,
            attributions(lex, s).map_values(|e: (int, int, Seq<char>)| (e.0, e.1)),
            0,
        ),
        forall|k: int|
            0 <= k < attributions(lex, s).len() ==> (#[trigger] attributions(lex, s)[k]).2 == "en"@
                || attributions(lex, s)[k].2 == "vi"@,
{
    lemma_run_spans_ok(s, 0, -1);
    lemma_attributed_ok(lex, s, latin_spans(s));
}

} // verus!
