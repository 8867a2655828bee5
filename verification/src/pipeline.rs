//! The deterministic part of identification: every layer's signal over
//! the normalized input, the Han strategy and the segments, with the
//! gates that end identification early.

use vstd::prelude::*;
use crate::layers::context_window::{
    self, capped_spans, classified, embedded_total, macro_totals, sentence_views, spread_is_multi,
    ContextWindowSignal,
};
use crate::layers::dictionary::{self, dedupe, dictionary_tokens, DictionarySignal};
use crate::layers::function_words::{self, function_word_count, FunctionWordSignal};
use crate::layers::morphology::{
    self, attribution_views, attributions, count_language, morphology_count, MorphologySignal,
};
use crate::layers::ngram::{self, all_whitespace, en_patterns, latin_lower, vi_patterns, NgramSignal};
use crate::layers::normalize::{self, normalized_chars, Normalized};
use crate::layers::orthography::{self, OrthoSignals};
use crate::layers::script::{self, ScriptCounts};
use crate::lexicon::Lexicons;
use crate::segments::{self, segment_runs, segment_view, run_segment, HanStrategy};
use crate::tally::{
    key_lt, lemma_key_lt_asymmetric, lemma_key_lt_total, lemma_key_lt_transitive, tally_is, Tally,
};
use crate::text::sum_matches;
use crate::types::{Segment, Status};
use crate::text::{str_chars, string_from_chars, views};
use crate::wordset::chars_eq;

verus! {

/// The Han strategy for the whole input. Chinese-only markers of one
/// kind that outnumber the kana claim Han for that kind of Chinese;
/// otherwise kana gives Han to Japanese; otherwise markers of one kind
/// pick the variant; otherwise Han stays ambiguous.
pub open spec fn han_strategy_for(kana: int, hans: int, hant: int) -> HanStrategy {
    if hans > kana && hant == 0 {
        HanStrategy::HansPreferred
    } else if hant > kana && hans == 0 {
        HanStrategy::HantPreferred
    } else if kana > 0 {
        HanStrategy::JapaneseClaimsHan
    } else if hans > 0 && hant == 0 {
        HanStrategy::HansPreferred
    } else if hant > 0 && hans == 0 {
        HanStrategy::HantPreferred
    } else {
        HanStrategy::HanAmbiguous
    }
}

/// Pick how Han characters are attributed over the whole input.
pub fn pick_han_strategy(counts: &ScriptCounts, ortho: &OrthoSignals) -> (h: HanStrategy)
    requires
        counts.spec_kana() <= usize::MAX,
    ensures
        h == han_strategy_for(
            counts.spec_kana(),
            ortho.hans_markers as int,
            ortho.hant_markers as int,
        ),
{
    let kana = counts.kana();
    let hans_m = ortho.hans_markers;
    let hant_m = ortho.hant_markers;
    if hans_m > kana && hant_m == 0 {
        return HanStrategy::HansPreferred;
    }
    if hant_m > kana && hans_m == 0 {
        return HanStrategy::HantPreferred;
    }
    if kana > 0 {
        return HanStrategy::JapaneseClaimsHan;
    }
    if hans_m > 0 && hant_m == 0 {
        return HanStrategy::HansPreferred;
    }
    if hant_m > 0 && hans_m == 0 {
        return HanStrategy::HantPreferred;
    }
    HanStrategy::HanAmbiguous
}

/// Only scripts outside the supported set occur.
pub fn is_unsupported_only(counts: &ScriptCounts) -> (b: bool)
    requires
        counts.spec_supported_total() <= usize::MAX,
    ensures
        b == (counts.spec_supported_total() == 0 && counts.other > 0),
{
    counts.supported_total() == 0 && counts.other > 0
}

/// The note on kana, when there is any: whether Chinese-only markers
/// outweigh it, accompany it, or are absent.
pub open spec fn spec_kana_note(kana: int, hans: int, hant: int) -> Option<Seq<char>> {
    if kana <= 0 {
        None
    } else if hans > kana || hant > kana {
        Some(
            "Japanese kana present, but Chinese-only markers outweigh kana — Han attributed proportionally"@,
        )
    } else if hans > 0 || hant > 0 {
        Some("Japanese kana present alongside Chinese-only markers — Han split proportionally"@)
    } else {
        Some("Japanese kana present — Han characters interpreted as kanji"@)
    }
}

pub fn kana_note(counts: &ScriptCounts, ortho: &OrthoSignals) -> (n: Option<&'static str>)
    requires
        counts.spec_kana() <= usize::MAX,
    ensures
        match n {
            Some(t) => spec_kana_note(
                counts.spec_kana(),
                ortho.hans_markers as int,
                ortho.hant_markers as int,
            ) == Some(t@),
            None => spec_kana_note(
                counts.spec_kana(),
                ortho.hans_markers as int,
                ortho.hant_markers as int,
            ) is None,
        },
{
    let kana = counts.kana();
    if kana == 0 {
        return None;
    }
    if ortho.hans_markers > kana || ortho.hant_markers > kana {
        Some(
            "Japanese kana present, but Chinese-only markers outweigh kana — Han attributed proportionally",
        )
    } else if ortho.hans_markers > 0 || ortho.hant_markers > 0 {
        Some("Japanese kana present alongside Chinese-only markers — Han split proportionally")
    } else {
        Some("Japanese kana present — Han characters interpreted as kanji")
    }
}

/// Every deterministic signal of one input.
#[derive(Debug, Clone)]
pub struct Analysis {
    pub normalized: Normalized,
    pub counts: ScriptCounts,
    pub ortho: OrthoSignals,
    pub ngram: NgramSignal,
    pub function_words: FunctionWordSignal,
    pub dictionary: DictionarySignal,
    pub morphology: MorphologySignal,
    pub context: ContextWindowSignal,
    pub han_strategy: HanStrategy,
    pub segments: Vec<Segment>,
}

/// Normalize the input and run every deterministic layer over it; pick
/// the Han strategy and cut the input into segments.
pub fn analyze(input: &str, lex: &Lexicons) -> (a: Analysis)
    requires
        lex.wf(),
    ensures
        a.normalized.wf(),
        a.normalized.chars@ == normalized_chars(input@),
        a.counts.counts_of(a.normalized.chars@),
        a.ortho.counts_of(a.normalized.chars@),
        a.function_words.per_language.wf(),
        tally_is(
            a.function_words.per_language@,
            |l: Seq<char>| function_word_count(*lex, a.normalized.chars@, l),
        ),
        ({
            let l = latin_lower(a.normalized.chars@);
            if all_whitespace(l) {
                a.ngram.en_hits == 0 && a.ngram.vi_hits == 0
            } else {
                &&& a.ngram.en_hits == sum_matches(l, en_patterns())
                &&& a.ngram.vi_hits == sum_matches(l, vi_patterns())
            }
        }),
        a.dictionary.describes(*lex, dedupe(dictionary_tokens(a.normalized.chars@))),
        a.morphology.per_language.wf(),
        attribution_views(a.morphology.latin_attribution@) == attributions(
            *lex,
            a.normalized.chars@,
        ),
        tally_is(
            a.morphology.per_language@,
            |l: Seq<char>| morphology_count(*lex, a.normalized.chars@, l),
        ),
        sentence_views(a.context.sentences@) == classified(
            a.normalized.chars@,
            capped_spans(a.normalized.chars@),
        ),
        a.context.per_language.wf(),
        tally_is(
            a.context.per_language@,
            |l: Seq<char>|
                count_language(classified(a.normalized.chars@, capped_spans(a.normalized.chars@)), l),
        ),
        a.context.embedded_han_runs == embedded_total(
            a.normalized.chars@,
            capped_spans(a.normalized.chars@),
        ),
        a.context.multi_language == (spread_is_multi(
            macro_totals(classified(a.normalized.chars@, capped_spans(a.normalized.chars@))),
        ) || a.context.embedded_han_runs >= 2),
        a.han_strategy == han_strategy_for(
            a.counts.spec_kana(),
            a.ortho.hans_markers as int,
            a.ortho.hant_markers as int,
        ),
        a.segments.len() == segment_runs(
            a.normalized.chars@,
            a.ortho.vi_markers as nat,
            a.ortho.fr_markers as nat,
            a.han_strategy,
            a.morphology.latin_attribution@,
        ).len(),
        forall|k: int|
            0 <= k < a.segments.len() ==> segment_view(#[trigger] a.segments@[k]) == run_segment(
                a.normalized.chars@,
                segment_runs(
                    a.normalized.chars@,
                    a.ortho.vi_markers as nat,
                    a.ortho.fr_markers as nat,
                    a.han_strategy,
                    a.morphology.latin_attribution@,
                )[k],
            ),
{
    let normalized = normalize::normalize(input);
    let counts = script::count_scripts(&normalized);
    let ortho = orthography::detect(&normalized);
    let ngram = ngram::score(&normalized);
    let function_words = function_words::score(&normalized, lex);
    let dictionary = dictionary::score(&normalized, lex);
    let morphology = morphology::score(&normalized, lex);
    let context = context_window::score(&normalized);
    let han_strategy = pick_han_strategy(&counts, &ortho);
    let segments = segments::extract(&normalized, &ortho, han_strategy, &morphology.latin_attribution);
    Analysis {
        normalized,
        counts,
        ortho,
        ngram,
        function_words,
        dictionary,
        morphology,
        context,
        han_strategy,
        segments,
    }
}

/// The decimal digit `d`.
pub open spec fn digit_char(d: nat) -> char {
    seq!['0', '1', '2', '3', '4', '5', '6', '7', '8', '9'][d as int]
}

/// The decimal numeral of `n`, without leading zeros.
pub open spec fn decimal_of(n: nat) -> Seq<char>
    decreases n,
{
    if n < 10 {
        seq![digit_char(n)]
    } else {
        decimal_of(n / 10).push(digit_char(n % 10))
    }
}

fn push_decimal(out: &mut Vec<char>, n: usize)
    ensures
        final(out)@ == old(out)@ + decimal_of(n as nat),
    decreases n,
{
    if n >= 10 {
        push_decimal(out, n / 10);
    }
    let d = n % 10;
    let c = if d == 0 {
        '0'
    } else if d == 1 {
        '1'
    } else if d == 2 {
        '2'
    } else if d == 3 {
        '3'
    } else if d == 4 {
        '4'
    } else if d == 5 {
        '5'
    } else if d == 6 {
        '6'
    } else if d == 7 {
        '7'
    } else if d == 8 {
        '8'
    } else {
        '9'
    };
    let ghost before = out@;
    out.push(c);
    proof {
        if n >= 10 {
            assert(out@ =~= old(out)@ + decimal_of((n / 10) as nat).push(c));
        } else {
            assert(out@ =~= old(out)@ + seq![c]);
        }
    }
}

fn push_str(out: &mut Vec<char>, t: &str)
    ensures
        final(out)@ == old(out)@ + t@,
{
    let cs = str_chars(t);
    let mut i: usize = 0;
    while i < cs.len()
        invariant
            i <= cs.len(),
            cs@ == t@,
            out@ == old(out)@ + cs@.take(i as int),
        decreases cs.len() - i,
    {
        out.push(cs[i]);
        assert(cs@.take(i + 1) =~= cs@.take(i as int).push(cs@[i as int]));
        i += 1;
    }
    assert(cs@.take(cs.len() as int) =~= cs@);
}

/// `n` written in decimal.
pub fn decimal(n: usize) -> (r: String)
    ensures
        r@ == decimal_of(n as nat),
{
    let mut out: Vec<char> = Vec::new();
    push_decimal(&mut out, n);
    assert(out@ =~= decimal_of(n as nat));
    string_from_chars(out.as_slice())
}

/// A label followed by a number.
pub open spec fn labelled(label: Seq<char>, n: nat) -> Seq<char> {
    label + decimal_of(n)
}

fn labelled_string(label: &str, n: usize) -> (r: String)
    ensures
        r@ == labelled(label@, n as nat),
{
    let mut out: Vec<char> = Vec::new();
    push_str(&mut out, label);
    push_decimal(&mut out, n);
    assert(out@ =~= labelled(label@, n as nat));
    string_from_chars(out.as_slice())
}

/// The explanations about scripts and markers: the script counts, then
/// the Vietnamese, Simplified-only and Traditional-only marker counts
/// where there are any, then the remark on kana.
pub open spec fn spec_script_notes(c: ScriptCounts, o: OrthoSignals) -> Seq<Seq<char>> {
    let counts = "Script counts — latin:"@ + decimal_of(c.latin as nat) + ", hiragana:"@
        + decimal_of(c.hiragana as nat) + ", katakana:"@ + decimal_of(c.katakana as nat)
        + ", han:"@ + decimal_of(c.han as nat) + ", hangul:"@ + decimal_of(c.hangul as nat);
    let vi = if o.vi_markers > 0 {
        seq![labelled("Vietnamese diacritic markers detected: "@, o.vi_markers as nat)]
    } else {
        Seq::empty()
    };
    let hans = if o.hans_markers > 0 {
        seq![labelled("Simplified-Chinese-only markers detected: "@, o.hans_markers as nat)]
    } else {
        Seq::empty()
    };
    let hant = if o.hant_markers > 0 {
        seq![labelled("Traditional-Chinese-only markers detected: "@, o.hant_markers as nat)]
    } else {
        Seq::empty()
    };
    let kana = match spec_kana_note(c.spec_kana(), o.hans_markers as int, o.hant_markers as int) {
        Some(t) => seq![t],
        None => Seq::empty(),
    };
    seq![counts] + vi + hans + hant + kana
}

pub open spec fn string_views(v: Seq<String>) -> Seq<Seq<char>> {
    v.map_values(|x: String| x@)
}

/// Write the notes on scripts and markers.
pub fn script_notes(counts: &ScriptCounts, ortho: &OrthoSignals) -> (notes: Vec<String>)
    requires
        counts.spec_kana() <= usize::MAX,
    ensures
        string_views(notes@) == spec_script_notes(*counts, *ortho),
{
    let mut first: Vec<char> = Vec::new();
    push_str(&mut first, "Script counts — latin:");
    push_decimal(&mut first, counts.latin);
    push_str(&mut first, ", hiragana:");
    push_decimal(&mut first, counts.hiragana);
    push_str(&mut first, ", katakana:");
    push_decimal(&mut first, counts.katakana);
    push_str(&mut first, ", han:");
    push_decimal(&mut first, counts.han);
    push_str(&mut first, ", hangul:");
    push_decimal(&mut first, counts.hangul);
    let mut notes: Vec<String> = Vec::new();
    notes.push(string_from_chars(first.as_slice()));
    let ghost g0 = string_views(notes@);
    assert(g0 =~= seq![first@]);
    if ortho.vi_markers > 0 {
        notes.push(labelled_string("Vietnamese diacritic markers detected: ", ortho.vi_markers));
    }
    let ghost g1 = string_views(notes@);
    if ortho.hans_markers > 0 {
        notes.push(labelled_string("Simplified-Chinese-only markers detected: ", ortho.hans_markers));
    }
    let ghost g2 = string_views(notes@);
    if ortho.hant_markers > 0 {
        notes.push(labelled_string("Traditional-Chinese-only markers detected: ", ortho.hant_markers));
    }
    let ghost g3 = string_views(notes@);
    match kana_note(counts, ortho) {
        Some(t) => {
            notes.push(string_from_chars(str_chars(t).as_slice()));
        },
        None => {},
    }
    proof {
        let c = *counts;
        let o = *ortho;
        let vi = if o.vi_markers > 0 {
            seq![labelled("Vietnamese diacritic markers detected: "@, o.vi_markers as nat)]
        } else {
            Seq::empty()
        };
        let hans = if o.hans_markers > 0 {
            seq![labelled("Simplified-Chinese-only markers detected: "@, o.hans_markers as nat)]
        } else {
            Seq::empty()
        };
        let hant = if o.hant_markers > 0 {
            seq![labelled("Traditional-Chinese-only markers detected: "@, o.hant_markers as nat)]
        } else {
            Seq::empty()
        };
        assert(g1 =~= g0 + vi);
        assert(g2 =~= g0 + vi + hans);
        assert(g3 =~= g0 + vi + hans + hant);
        assert(first@ =~= "Script counts — latin:"@ + decimal_of(c.latin as nat) + ", hiragana:"@
            + decimal_of(c.hiragana as nat) + ", katakana:"@ + decimal_of(c.katakana as nat)
            + ", han:"@ + decimal_of(c.han as nat) + ", hangul:"@ + decimal_of(c.hangul as nat));
        assert(string_views(notes@) =~= spec_script_notes(c, o));
    }
    notes
}

/// The dictionary note, when any token was recognized.
pub fn dictionary_note(dict: &DictionarySignal) -> (n: Option<String>)
    ensures
        match n {
            Some(t) => dict.recognized_tokens > 0 && t@ == "Dictionary — "@ + decimal_of(
                dict.recognized_tokens as nat,
            ) + " recognized tokens ("@ + decimal_of(dict.ambiguous_tokens as nat)
                + " ambiguous across lexicons)"@,
            None => dict.recognized_tokens == 0,
        },
{
    if dict.recognized_tokens == 0 {
        return None;
    }
    let mut out: Vec<char> = Vec::new();
    push_str(&mut out, "Dictionary — ");
    push_decimal(&mut out, dict.recognized_tokens);
    push_str(&mut out, " recognized tokens (");
    push_decimal(&mut out, dict.ambiguous_tokens);
    push_str(&mut out, " ambiguous across lexicons)");
    Some(string_from_chars(out.as_slice()))
}

/// The verdict an input gets before any weighing: `Unknown` when nothing
/// visible remains after normalization, `Unsupported` when only scripts
/// outside the supported set occur; each with its reason.
pub fn early_verdict(a: &Analysis) -> (v: Option<(Status, &'static str)>)
    requires
        a.counts.spec_supported_total() <= usize::MAX,
    ensures
        match v {
            Some((st, reason)) => if a.normalized.visible_chars == 0 {
                st == Status::Unknown && reason@ == "Empty input after normalization"@
            } else {
                a.counts.spec_supported_total() == 0 && a.counts.other > 0 && st == Status::Unsupported
                    && reason@ == "Input uses scripts that are not in the supported set"@
            },
            None => a.normalized.visible_chars > 0 && !(a.counts.spec_supported_total() == 0
                && a.counts.other > 0),
        },
{
    if a.normalized.visible_chars == 0 {
        Some((Status::Unknown, "Empty input after normalization"))
    } else if is_unsupported_only(&a.counts) {
        Some((Status::Unsupported, "Input uses scripts that are not in the supported set"))
    } else {
        None
    }
}

/// How a count reads in a listing: the language, a colon, the count.
pub open spec fn count_text(k: Seq<char>, n: nat) -> Seq<char> {
    k + ":"@ + decimal_of(n)
}

/// The texts of the counts in `m`.
pub open spec fn count_texts(m: Map<Seq<char>, nat>) -> Set<Seq<char>> {
    Set::new(|t: Seq<char>| exists|k: Seq<char>| m.dom().contains(k) && t == count_text(k, m[k]))
}

/// Strictly increasing in code-point order.
pub open spec fn strictly_sorted(p: Seq<Seq<char>>) -> bool {
    forall|i: int, j: int| 0 <= i < j < p.len() ==> key_lt(#[trigger] p[i], #[trigger] p[j])
}

/// `p` lists the texts of the counts in `m` in code-point order.
pub open spec fn is_listing(p: Seq<Seq<char>>, m: Map<Seq<char>, nat>) -> bool {
    strictly_sorted(p) && p.to_set() == count_texts(m)
}

/// The listing of the counts in `m` (there is exactly one).
pub open spec fn listing(m: Map<Seq<char>, nat>) -> Seq<Seq<char>> {
    choose|p: Seq<Seq<char>>| is_listing(p, m)
}

/// `p` joined with ", ".
pub open spec fn join_comma(p: Seq<Seq<char>>) -> Seq<char>
    decreases p.len(),
{
    if p.len() == 0 {
        Seq::empty()
    } else if p.len() == 1 {
        p[0]
    } else {
        join_comma(p.drop_last()) + ", "@ + p.last()
    }
}

/// Two strictly sorted sequences with the same elements are equal.
pub proof fn lemma_sorted_unique(p: Seq<Seq<char>>, q: Seq<Seq<char>>)
    requires
        strictly_sorted(p),
        strictly_sorted(q),
        p.to_set() == q.to_set(),
    ensures
        p == q,
    decreases p.len(),
{
    if p.len() == 0 {
        if q.len() > 0 {
            assert(q.to_set().contains(q[0]));
        }
        assert(p =~= q);
    } else {
        assert(p.to_set().contains(p[0]));
        assert(q.len() > 0) by {
            if q.len() == 0 {
                assert(q.to_set().contains(p[0]));
            }
        }
        assert(q.to_set().contains(q[0]));
        let j = choose|j: int| 0 <= j < q.len() && q[j] == p[0];
        let i = choose|i: int| 0 <= i < p.len() && p[i] == q[0];
        if p[0] != q[0] {
            assert(j > 0 && i > 0);
            assert(key_lt(q[0], q[j]));
            assert(key_lt(p[0], p[i]));
            lemma_key_lt_asymmetric(q[0], p[0]);
        }
        let p1 = p.drop_first();
        let q1 = q.drop_first();
        assert forall|x: Seq<char>| p1.to_set().contains(x) <==> q1.to_set().contains(x) by {
            if p1.to_set().contains(x) {
                let a = choose|a: int| 0 <= a < p1.len() && p1[a] == x;
                assert(p[a + 1] == x);
                assert(key_lt(p[0], p[a + 1]));
                lemma_key_lt_asymmetric(p[0], x);
                assert(p.to_set().contains(x));
                let b = choose|b: int| 0 <= b < q.len() && q[b] == x;
                assert(b != 0);
                assert(q1[b - 1] == x);
            }
            if q1.to_set().contains(x) {
                let a = choose|a: int| 0 <= a < q1.len() && q1[a] == x;
                assert(q[a + 1] == x);
                assert(key_lt(q[0], q[a + 1]));
                lemma_key_lt_asymmetric(q[0], x);
                assert(q.to_set().contains(x));
                let b = choose|b: int| 0 <= b < p.len() && p[b] == x;
                assert(b != 0);
                assert(p1[b - 1] == x);
            }
        }
        assert(p1.to_set() =~= q1.to_set());
        assert forall|a: int, b: int| 0 <= a < b < p1.len() implies key_lt(#[trigger] p1[a], #[trigger] p1[b]) by {
            assert(p1[a] == p[a + 1] && p1[b] == p[b + 1]);
        }
        assert forall|a: int, b: int| 0 <= a < b < q1.len() implies key_lt(#[trigger] q1[a], #[trigger] q1[b]) by {
            assert(q1[a] == q[a + 1] && q1[b] == q[b + 1]);
        }
        lemma_sorted_unique(p1, q1);
        assert(p =~= seq![p[0]] + p1);
        assert(q =~= seq![q[0]] + q1);
    }
}

fn chars_lt(a: &Vec<char>, b: &Vec<char>) -> (r: bool)
    ensures
        r == key_lt(a@, b@),
{
    let mut i: usize = 0;
    assert(a@.skip(0) =~= a@);
    assert(b@.skip(0) =~= b@);
    while i < a.len() && i < b.len() && a[i] == b[i]
        invariant
            i <= a.len(),
            i <= b.len(),
            key_lt(a@, b@) == key_lt(a@.skip(i as int), b@.skip(i as int)),
        decreases a.len() - i,
    {
        assert(a@.skip(i as int).drop_first() =~= a@.skip(i + 1));
        assert(b@.skip(i as int).drop_first() =~= b@.skip(i + 1));
        i += 1;
    }
    if i == a.len() {
        i < b.len()
    } else if i == b.len() {
        false
    } else {
        assert(a@.skip(i as int)[0] == a[i as int]);
        assert(b@.skip(i as int)[0] == b[i as int]);
        a[i] < b[i]
    }
}

/// Put `x` into the strictly sorted `out`, unless it is there already.
fn insert_sorted(out: &mut Vec<Vec<char>>, x: Vec<char>)
    requires
        strictly_sorted(views(old(out)@)),
    ensures
        strictly_sorted(views(final(out)@)),
        views(final(out)@).to_set() == views(old(out)@).to_set().insert(x@),
{
    let ghost e = views(out@);
    let mut i: usize = 0;
    while i < out.len() && chars_lt(&out[i], &x)
        invariant
            i <= out.len(),
            views(out@) == e,
            forall|j: int| 0 <= j < i ==> key_lt(#[trigger] e[j], x@),
        decreases out.len() - i,
    {
        assert(e[i as int] == out@[i as int]@);
        i += 1;
    }
    if i < out.len() && chars_eq(out[i].as_slice(), x.as_slice()) {
        proof {
            assert(e[i as int] == x@);
            assert(e.to_set().contains(x@));
            assert(e.to_set().insert(x@) =~= e.to_set());
        }
        return;
    }
    proof {
        if i < e.len() {
            assert(e[i as int] == out@[i as int]@);
            lemma_key_lt_total(e[i as int], x@);
        }
        assert forall|j: int| i <= j < e.len() implies key_lt(x@, #[trigger] e[j]) by {
            lemma_key_lt_total(e[i as int], x@);
            if j > i {
                lemma_key_lt_transitive(x@, e[i as int], e[j]);
            }
        }
    }
    let ghost xv = x@;
    out.insert(i, x);
    proof {
        let f = views(out@);
        assert(f =~= e.insert(i as int, xv));
        assert forall|a: int, b: int| 0 <= a < b < f.len() implies key_lt(#[trigger] f[a], #[trigger] f[b]) by {
            if b < i {
                assert(f[a] == e[a] && f[b] == e[b]);
            } else if b == i {
                assert(f[a] == e[a]);
            } else if a < i {
                assert(f[a] == e[a] && f[b] == e[b - 1]);
                lemma_key_lt_transitive(e[a], xv, e[b - 1]);
            } else if a == i {
                assert(f[b] == e[b - 1]);
            } else {
                assert(f[a] == e[a - 1] && f[b] == e[b - 1]);
            }
        }
        assert forall|y: Seq<char>| f.to_set().contains(y) <==> e.to_set().insert(xv).contains(y) by {
            if f.to_set().contains(y) {
                let a = choose|a: int| 0 <= a < f.len() && f[a] == y;
                if a < i {
                    assert(e[a] == y);
                } else if a > i {
                    assert(e[a - 1] == y);
                }
            }
            if e.to_set().contains(y) {
                let a = choose|a: int| 0 <= a < e.len() && e[a] == y;
                if a < i {
                    assert(f[a] == y);
                } else {
                    assert(f[a + 1] == y);
                }
            }
            if y == xv {
                assert(f[i as int] == y);
            }
        }
        assert(f.to_set() =~= e.to_set().insert(xv));
    }
}

/// The counts of `t` as texts, in code-point order.
fn count_listing(t: &Tally) -> (r: Vec<Vec<char>>)
    requires
        t.wf(),
    ensures
        views(r@) == listing(t@),
{
    let e = t.entries();
    let mut out: Vec<Vec<char>> = Vec::new();
    let mut i: usize = 0;
    assert(views(out@).to_set() =~= Set::<Seq<char>>::empty());
    while i < e.len()
        invariant
            i <= e@.len(),
            forall|j: int|
                0 <= j < e@.len() ==> t@.dom().contains(#[trigger] e@[j].0@) && t@[e@[j].0@]
                    == e@[j].1 as nat,
            strictly_sorted(views(out@)),
            views(out@).to_set() == Set::new(
                |y: Seq<char>| exists|j: int| 0 <= j < i && y == count_text(e@[j].0@, e@[j].1 as nat),
            ),
        decreases e.len() - i,
    {
        let mut x: Vec<char> = Vec::new();
        push_str(&mut x, e[i].0.as_str());
        push_str(&mut x, ":");
        push_decimal(&mut x, e[i].1);
        assert(x@ =~= count_text(e@[i as int].0@, e@[i as int].1 as nat));
        let ghost before = views(out@).to_set();
        insert_sorted(&mut out, x);
        proof {
            assert(views(out@).to_set() =~= Set::new(
                |y: Seq<char>| exists|j: int| 0 <= j < i + 1 && y == count_text(e@[j].0@, e@[j].1 as nat),
            )) by {
                assert forall|y: Seq<char>| #![auto] (exists|j: int| 0 <= j < i + 1 && y == count_text(e@[j].0@, e@[j].1 as nat))
                    <==> (before.contains(y) || y == count_text(e@[i as int].0@, e@[i as int].1 as nat)) by {
                    if exists|j: int| 0 <= j < i + 1 && y == count_text(e@[j].0@, e@[j].1 as nat) {
                        let j = choose|j: int| 0 <= j < i + 1 && y == count_text(e@[j].0@, e@[j].1 as nat);
                        if j < i {
                            assert(exists|j2: int| 0 <= j2 < i && y == count_text(e@[j2].0@, e@[j2].1 as nat));
                        }
                    }
                }
            }
        }
        i += 1;
    }
    proof {
        let got = views(out@);
        assert(got.to_set() =~= count_texts(t@)) by {
            assert forall|y: Seq<char>| got.to_set().contains(y) <==> count_texts(t@).contains(y) by {
                if got.to_set().contains(y) {
                    let j = choose|j: int| 0 <= j < e@.len() && y == count_text(e@[j].0@, e@[j].1 as nat);
                    assert(t@.dom().contains(e@[j].0@) && y == count_text(e@[j].0@, t@[e@[j].0@]));
                }
                if count_texts(t@).contains(y) {
                    let k = choose|k: Seq<char>| t@.dom().contains(k) && y == count_text(k, t@[k]);
                    let j = choose|j: int| 0 <= j < e@.len() && e@[j].0@ == k;
                    assert(y == count_text(e@[j].0@, e@[j].1 as nat));
                }
            }
        }
        assert(is_listing(got, t@));
        let l = listing(t@);
        lemma_sorted_unique(got, l);
    }
    out
}

/// Join the texts with ", " after `out`.
fn push_joined(out: &mut Vec<char>, p: &Vec<Vec<char>>)
    ensures
        final(out)@ == old(out)@ + join_comma(views(p@)),
{
    let ghost v = views(p@);
    let mut i: usize = 0;
    assert(v.take(0) =~= Seq::<Seq<char>>::empty());
    assert(old(out)@ + join_comma(v.take(0)) =~= old(out)@);
    while i < p.len()
        invariant
            i <= p.len(),
            v == views(p@),
            out@ == old(out)@ + join_comma(v.take(i as int)),
        decreases p.len() - i,
    {
        let ghost before = out@;
        if i > 0 {
            push_str(out, ", ");
        }
        let mut k: usize = 0;
        let ghost mid = out@;
        while k < p[i].len()
            invariant
                k <= p@[i as int]@.len(),
                i < p.len(),
                out@ == mid + p@[i as int]@.take(k as int),
            decreases p@[i as int]@.len() - k,
        {
            out.push(p[i][k]);
            assert(p@[i as int]@.take(k + 1) =~= p@[i as int]@.take(k as int).push(p@[i as int]@[k as int]));
            k += 1;
        }
        assert(p@[i as int]@.take(k as int) =~= p@[i as int]@);
        assert(v[i as int] == p@[i as int]@);
        assert(v.take(i + 1).drop_last() =~= v.take(i as int));
        assert(v.take(i + 1).last() == v[i as int]);
        if i == 0 {
            assert(v.take(1) =~= seq![v[0]]);
            assert(out@ =~= old(out)@ + join_comma(v.take(1)));
        } else {
            assert(out@ =~= old(out)@ + join_comma(v.take(i + 1)));
        }
        i += 1;
    }
    assert(v.take(p.len() as int) =~= v);
}

/// The function-word remark, when any function word was found: the
/// counts listed in code-point order.
pub fn function_word_note(fw: &FunctionWordSignal) -> (n: Option<String>)
    requires
        fw.per_language.wf(),
    ensures
        match n {
            Some(t) => fw.per_language@.dom() != Set::<Seq<char>>::empty() && t@
                == "Function-word hits — "@ + join_comma(
                listing(fw.per_language@),
            ),
            None => fw.per_language@.dom() == Set::<Seq<char>>::empty(),
        },
{
    if fw.per_language.is_empty() {
        return None;
    }
    let parts = count_listing(&fw.per_language);
    let mut out: Vec<char> = Vec::new();
    push_str(&mut out, "Function-word hits — ");
    push_joined(&mut out, &parts);
    Some(string_from_chars(out.as_slice()))
}

/// The morphology remark, when any count or attribution exists: the
/// counts listed in code-point order, then how many Latin words were
/// attributed, if any.
pub fn morphology_note(m: &MorphologySignal) -> (n: Option<String>)
    requires
        m.per_language.wf(),
    ensures
        match n {
            Some(t) => !(m.per_language@.dom() == Set::<Seq<char>>::empty()
                && m.latin_attribution@.len() == 0) && t@ == "Morphology — "@ + join_comma(
                listing(m.per_language@),
            ) + if m.latin_attribution@.len() == 0 {
                Seq::<char>::empty()
            } else {
                " ("@ + decimal_of(m.latin_attribution@.len()) + " Latin tokens attributed)"@
            },
            None => m.per_language@.dom() == Set::<Seq<char>>::empty() && m.latin_attribution@.len()
                == 0,
        },
{
    let empty = m.per_language.is_empty();
    if empty && m.latin_attribution.len() == 0 {
        return None;
    }
    let parts = count_listing(&m.per_language);
    let mut out: Vec<char> = Vec::new();
    push_str(&mut out, "Morphology — ");
    push_joined(&mut out, &parts);
    let ghost head = out@;
    if m.latin_attribution.len() > 0 {
        push_str(&mut out, " (");
        push_decimal(&mut out, m.latin_attribution.len());
        push_str(&mut out, " Latin tokens attributed)");
    } else {
        assert(out@ =~= head + Seq::<char>::empty());
    }
    Some(string_from_chars(out.as_slice()))
}

/// The sentence remark, when there are sentences: how many, the counts
/// listed in code-point order, and whether the text mixes languages.
pub fn context_note(c: &ContextWindowSignal) -> (n: Option<String>)
    requires
        c.per_language.wf(),
    ensures
        match n {
            Some(t) => c.sentences@.len() > 0 && t@ == "Context window — "@ + decimal_of(
                c.sentences@.len(),
            ) + " sentences, dominant: {"@ + join_comma(listing(c.per_language@)) + "}"@
                + if c.multi_language {
                "; multi-language paragraph"@
            } else {
                Seq::<char>::empty()
            },
            None => c.sentences@.len() == 0,
        },
{
    if c.sentences.len() == 0 {
        return None;
    }
    let parts = count_listing(&c.per_language);
    let mut out: Vec<char> = Vec::new();
    push_str(&mut out, "Context window — ");
    push_decimal(&mut out, c.sentences.len());
    push_str(&mut out, " sentences, dominant: {");
    push_joined(&mut out, &parts);
    push_str(&mut out, "}");
    let ghost head = out@;
    if c.multi_language {
        push_str(&mut out, "; multi-language paragraph");
    } else {
        assert(out@ =~= head + Seq::<char>::empty());
    }
    Some(string_from_chars(out.as_slice()))
}

} // verus!
