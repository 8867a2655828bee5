//! Layer 5 — lexicon matching: which languages' word lists recognize
//! the words of the input, and which words several lists share.

use vstd::prelude::*;
use crate::layers::normalize::Normalized;
use crate::layers::script::{classify, is_cjk_script, is_latin, Script};
use crate::lexicon::Lexicons;
use crate::tally::{count_of, lemma_tally_add, lemma_tally_count, lemma_tally_ext, tally_is, Tally};
use crate::text::{lowercase_of, str_chars, str_eq, to_lowercase, views};
use crate::wordset::WordSet;

verus! {

/// The languages whose lists the dictionary layer consults, in order.
pub open spec fn dictionary_languages() -> Seq<Seq<char>> {
    seq!["en"@, "ja"@, "zh-Hans"@, "zh-Hant"@, "vi"@, "ko"@]
}

/// The `k`-th dictionary language.
fn language(k: usize) -> (l: &'static str)
    requires
        k < 6,
    ensures
        l@ == dictionary_languages()[k as int],
{
    match k {
        0 => "en",
        1 => "ja",
        2 => "zh-Hans",
        3 => "zh-Hant",
        4 => "vi",
        _ => "ko",
    }
}

proof fn lemma_languages_distinct()
    ensures
        forall|i: int, j: int|
            0 <= i < j < 6 ==> dictionary_languages()[i] != dictionary_languages()[j],
        dictionary_languages().len() == 6,
{
    reveal_strlit("en");
    reveal_strlit("ja");
    reveal_strlit("zh-Hans");
    reveal_strlit("zh-Hant");
    reveal_strlit("vi");
    reveal_strlit("ko");
    assert forall|i: int, j: int| 0 <= i < j < 6 implies dictionary_languages()[i]
        != dictionary_languages()[j] by {
        let a = dictionary_languages()[i];
        let b = dictionary_languages()[j];
        if a == b {
            assert(a.len() == b.len());
            assert(a[0] == b[0]);
            if a.len() > 2 {
                assert(a[6] == b[6]);
            }
        }
    }
}

/// Whether `lang` is one of the dictionary languages.
pub fn is_dictionary_language(lang: &str) -> (b: bool)
    ensures
        b == dictionary_languages().contains(lang@),
{
    let b = str_eq(lang, "en") || str_eq(lang, "ja") || str_eq(lang, "zh-Hans") || str_eq(
        lang,
        "zh-Hant",
    ) || str_eq(lang, "vi") || str_eq(lang, "ko");
    proof {
        let d = dictionary_languages();
        if b {
            if lang@ == "en"@ {
                assert(d[0] == lang@);
            } else if lang@ == "ja"@ {
                assert(d[1] == lang@);
            } else if lang@ == "zh-Hans"@ {
                assert(d[2] == lang@);
            } else if lang@ == "zh-Hant"@ {
                assert(d[3] == lang@);
            } else if lang@ == "vi"@ {
                assert(d[4] == lang@);
            } else {
                assert(d[5] == lang@);
            }
        }
        if d.contains(lang@) {
            let k = choose|k: int| 0 <= k < d.len() && d[k] == lang@;
            assert(0 <= k < 6);
        }
    }
    b
}

/// The list the dictionary layer reads for `lang`: the registered one
/// for a dictionary language, none for any other language.
pub open spec fn dictionary_raw(lex: Lexicons, lang: Seq<char>) -> Seq<char> {
    if dictionary_languages().contains(lang) {
        match lex.raw_of(lang) {
            Some(raw) => raw,
            None => Seq::empty(),
        }
    } else {
        Seq::empty()
    }
}

/// The words the dictionary layer finds for `lang`: those of its list
/// for a dictionary language, none for any other language.
pub open spec fn dictionary_words(lex: Lexicons, lang: Seq<char>) -> Set<Seq<char>> {
    if dictionary_languages().contains(lang) {
        lex.words_of(lang)
    } else {
        Set::empty()
    }
}

/// The list contents for `lang`: empty for a language outside the
/// dictionary languages or without a list.
pub fn raw_lexicon_for_function_words<'a>(lex: &'a Lexicons, lang: &str) -> (r: &'a str)
    ensures
        r@ == dictionary_raw(*lex, lang@),
{
    if is_dictionary_language(lang) {
        lex.raw_for(lang)
    } else {
        proof {
            reveal_strlit("");
        }
        ""
    }
}

/// Whether `token` is a word of `lang`'s list; never for a language
/// outside the dictionary languages.
pub fn contains(lex: &Lexicons, lang: &str, token: &str) -> (b: bool)
    requires
        lex.wf(),
    ensures
        b == dictionary_words(*lex, lang@).contains(token@),
{
    if !is_dictionary_language(lang) {
        return false;
    }
    let t = str_chars(token);
    lex.contains(lang, t.as_slice())
}

/// The maximal runs of Latin letters of `s` after the partial run `cur`.
pub open spec fn latin_runs_from(s: Seq<char>, cur: Seq<char>) -> Seq<Seq<char>>
    decreases s.len(),
{
    if s.len() == 0 {
        if cur.len() == 0 {
            Seq::empty()
        } else {
            seq![cur]
        }
    } else if is_latin(s[0]) {
        latin_runs_from(s.drop_first(), cur.push(s[0]))
    } else {
        (if cur.len() == 0 {
            Seq::empty()
        } else {
            seq![cur]
        }) + latin_runs_from(s.drop_first(), Seq::empty())
    }
}

/// The maximal runs of Latin letters of `s`, left to right.
pub open spec fn latin_runs(s: Seq<char>) -> Seq<Seq<char>> {
    latin_runs_from(s, Seq::empty())
}

/// The Han, kana and Hangul characters of `s`, in order.
pub open spec fn cjk_chars(s: Seq<char>) -> Seq<char>
    decreases s.len(),
{
    if s.len() == 0 {
        Seq::empty()
    } else if is_cjk_script(s.last()) {
        cjk_chars(s.drop_last()).push(s.last())
    } else {
        cjk_chars(s.drop_last())
    }
}

/// Every window of `w` consecutive elements of `c`, left to right.
pub open spec fn windows(c: Seq<char>, w: int) -> Seq<Seq<char>> {
    Seq::new(
        if c.len() >= w {
            (c.len() - w + 1) as nat
        } else {
            0
        },
        |i: int| c.subrange(i, i + w),
    )
}

/// The candidate words of an input: its Latin runs, then every window of
/// two, three and four CJK characters.
pub open spec fn dictionary_tokens(s: Seq<char>) -> Seq<Seq<char>> {
    let c = cjk_chars(s);
    latin_runs(s) + windows(c, 2) + windows(c, 3) + windows(c, 4)
}

/// `s` with repeats removed, first occurrences kept.
pub open spec fn dedupe(s: Seq<Seq<char>>) -> Seq<Seq<char>>
    decreases s.len(),
{
    if s.len() == 0 {
        Seq::empty()
    } else {
        let d = dedupe(s.drop_last());
        if d.contains(s.last()) {
            d
        } else {
            d.push(s.last())
        }
    }
}

proof fn lemma_dedupe_contains(s: Seq<Seq<char>>, x: Seq<char>)
    ensures
        dedupe(s).contains(x) <==> s.contains(x),
    decreases s.len(),
{
    if s.len() > 0 {
        lemma_dedupe_contains(s.drop_last(), x);
        let d = dedupe(s.drop_last());
        if s.contains(x) {
            let i = choose|i: int| 0 <= i < s.len() && s[i] == x;
            if i < s.len() - 1 {
                assert(s.drop_last()[i] == x);
            } else if !d.contains(s.last()) {
                assert(d.push(s.last())[d.len() as int] == x);
            }
        }
        if s.drop_last().contains(x) {
            let i = choose|i: int| 0 <= i < s.drop_last().len() && s.drop_last()[i] == x;
            assert(s[i] == x);
        }
        if !d.contains(s.last()) && d.push(s.last()).contains(x) {
            let i = choose|i: int| 0 <= i < d.push(s.last()).len() && d.push(s.last())[i] == x;
            if i < d.len() {
                assert(d[i] == x);
            } else {
                assert(s[s.len() - 1] == x);
            }
        }
        if d.contains(x) {
            let i = choose|i: int| 0 <= i < d.len() && d[i] == x;
            assert(d.push(s.last())[i] == x);
        }
    }
}

/// The form of `t` a language's list is probed with: lower-cased for the
/// Latin-script lists, as written otherwise.
pub open spec fn probe(lang: Seq<char>, t: Seq<char>) -> Seq<char> {
    if lang == "en"@ || lang == "vi"@ {
        lowercase_of(t)
    } else {
        t
    }
}

/// The dictionary languages among the first `n` whose lists hold `t`.
pub open spec fn langs_upto(lex: Lexicons, t: Seq<char>, n: int) -> Seq<Seq<char>>
    decreases n,
{
    if n <= 0 {
        Seq::empty()
    } else {
        let l = dictionary_languages()[n - 1];
        let before = langs_upto(lex, t, n - 1);
        if lex.words_of(l).contains(probe(l, t)) {
            before.push(l)
        } else {
            before
        }
    }
}

/// The dictionary languages whose lists hold `t`, in list order.
pub open spec fn langs_of(lex: Lexicons, t: Seq<char>) -> Seq<Seq<char>> {
    langs_upto(lex, t, 6)
}

/// Number of elements of `toks` satisfying `p`.
pub open spec fn count_tokens(toks: Seq<Seq<char>>, p: spec_fn(Seq<char>) -> bool) -> nat
    decreases toks.len(),
{
    if toks.len() == 0 {
        0
    } else {
        count_tokens(toks.drop_last(), p) + if p(toks.last()) {
            1nat
        } else {
            0nat
        }
    }
}

pub open spec fn hit_pred(lex: Lexicons, l: Seq<char>) -> spec_fn(Seq<char>) -> bool {
    |t: Seq<char>| langs_of(lex, t).contains(l)
}

pub open spec fn exclusive_pred(lex: Lexicons, l: Seq<char>) -> spec_fn(Seq<char>) -> bool {
    |t: Seq<char>| langs_of(lex, t).len() == 1 && langs_of(lex, t).contains(l)
}

pub open spec fn shared_pred(lex: Lexicons, l: Seq<char>) -> spec_fn(Seq<char>) -> bool {
    |t: Seq<char>| langs_of(lex, t).len() >= 2 && langs_of(lex, t).contains(l)
}

pub open spec fn recognized_pred(lex: Lexicons) -> spec_fn(Seq<char>) -> bool {
    |t: Seq<char>| langs_of(lex, t).len() >= 1
}

pub open spec fn ambiguous_pred(lex: Lexicons) -> spec_fn(Seq<char>) -> bool {
    |t: Seq<char>| langs_of(lex, t).len() >= 2
}

#[derive(Debug, Clone, Default)]
pub struct DictionarySignal {
    /// language → distinct tokens its list recognizes.
    pub hits_per_language: Tally,
    /// language → distinct tokens only its list recognizes.
    pub exclusive_per_language: Tally,
    /// language → distinct tokens its list and at least one other recognize.
    pub shared_per_language: Tally,
    /// Distinct tokens recognized by at least one list.
    pub recognized_tokens: usize,
    /// Distinct tokens recognized by at least two lists.
    pub ambiguous_tokens: usize,
}

impl DictionarySignal {
    /// The signal over the distinct tokens `d`.
    pub open spec fn describes(&self, lex: Lexicons, d: Seq<Seq<char>>) -> bool {
        &&& self.hits_per_language.wf()
        &&& self.exclusive_per_language.wf()
        &&& self.shared_per_language.wf()
        &&& tally_is(
            self.hits_per_language@,
            |l: Seq<char>| count_tokens(d, hit_pred(lex, l)),
        )
        &&& tally_is(
            self.exclusive_per_language@,
            |l: Seq<char>| count_tokens(d, exclusive_pred(lex, l)),
        )
        &&& tally_is(
            self.shared_per_language@,
            |l: Seq<char>| count_tokens(d, shared_pred(lex, l)),
        )
        &&& self.recognized_tokens == count_tokens(d, recognized_pred(lex))
        &&& self.ambiguous_tokens == count_tokens(d, ambiguous_pred(lex))
    }
}

/// Append the maximal Latin runs of `s` to `out`.
pub(crate) fn extract_latin_tokens(s: &Vec<char>, out: &mut Vec<Vec<char>>)
    ensures
        views(final(out)@) == views(old(out)@) + latin_runs(s@),
{
    let mut current: Vec<char> = Vec::new();
    let mut i: usize = 0;
    assert(s@.skip(0) =~= s@);
    assert(views(out@) + latin_runs(s@) =~= views(old(out)@) + latin_runs_from(s@.skip(0), current@));
    while i < s.len()
        invariant
            i <= s.len(),
            views(old(out)@) + latin_runs(s@) == views(out@) + latin_runs_from(
                s@.skip(i as int),
                current@,
            ),
        decreases s.len() - i,
    {
        let c = s[i];
        assert(s@.skip(i as int).drop_first() =~= s@.skip(i + 1));
        assert(s@.skip(i as int)[0] == c);
        let ghost cur0 = current@;
        let ghost rest = s@.skip(i as int);
        if classify(c) == Script::Latin {
            current.push(c);
            assert(latin_runs_from(rest, cur0) == latin_runs_from(s@.skip(i + 1), current@));
        } else {
            assert(latin_runs_from(rest, cur0) == (if cur0.len() == 0 {
                Seq::empty()
            } else {
                seq![cur0]
            }) + latin_runs_from(s@.skip(i + 1), Seq::empty()));
            if current.len() > 0 {
                let ghost before = views(out@);
                let tok = current;
                current = Vec::new();
                out.push(tok);
                assert(views(out@) =~= before.push(tok@));
                assert(before.push(tok@) + latin_runs_from(s@.skip(i + 1), Seq::empty()) =~= before
                    + (seq![tok@] + latin_runs_from(s@.skip(i + 1), Seq::empty())));
            } else {
                assert(current@ =~= Seq::<char>::empty());
                assert(Seq::<Seq<char>>::empty() + latin_runs_from(s@.skip(i + 1), Seq::empty())
                    =~= latin_runs_from(s@.skip(i + 1), Seq::empty()));
            }
        }
        i += 1;
    }
    assert(s@.skip(s.len() as int) =~= Seq::<char>::empty());
    if current.len() > 0 {
        let ghost before = views(out@);
        let tok = current;
        out.push(tok);
        assert(views(out@) =~= before.push(tok@));
        assert(before + seq![tok@] =~= before.push(tok@));
    } else {
        assert(views(out@) + Seq::<Seq<char>>::empty() =~= views(out@));
    }
}

/// Append every window of two, three and four CJK characters of `s`.
fn extract_cjk_tokens(s: &Vec<char>, out: &mut Vec<Vec<char>>)
    ensures
        views(final(out)@) == views(old(out)@) + windows(cjk_chars(s@), 2) + windows(
            cjk_chars(s@),
            3,
        ) + windows(cjk_chars(s@), 4),
{
    let mut cjk: Vec<char> = Vec::new();
    let mut i: usize = 0;
    assert(s@.take(0) =~= Seq::<char>::empty());
    while i < s.len()
        invariant
            i <= s.len(),
            cjk@ == cjk_chars(s@.take(i as int)),
        decreases s.len() - i,
    {
        assert(s@.take(i + 1).drop_last() =~= s@.take(i as int));
        let sc = classify(s[i]);
        if sc == Script::Han || sc == Script::Hiragana || sc == Script::Katakana || sc
            == Script::Hangul {
            cjk.push(s[i]);
        }
        i += 1;
    }
    assert(s@.take(s.len() as int) =~= s@);
    let mut w: usize = 2;
    let ghost mut acc: Seq<Seq<char>> = views(old(out)@);
    while w <= 4
        invariant
            2 <= w <= 5,
            cjk@ == cjk_chars(s@),
            views(out@) == if w == 2 {
                views(old(out)@)
            } else if w == 3 {
                views(old(out)@) + windows(cjk@, 2)
            } else if w == 4 {
                views(old(out)@) + windows(cjk@, 2) + windows(cjk@, 3)
            } else {
                views(old(out)@) + windows(cjk@, 2) + windows(cjk@, 3) + windows(cjk@, 4)
            },
        decreases 5 - w,
    {
        let ghost base = views(out@);
        if cjk.len() >= w {
            let mut start: usize = 0;
            while start <= cjk.len() - w
                invariant
                    2 <= w <= 4,
                    w <= cjk.len(),
                    start + w <= cjk.len() + 1,
                    views(out@) == base + windows(cjk@, w as int).take(start as int),
                decreases cjk.len() + 1 - start - w,
            {
                let mut tok: Vec<char> = Vec::new();
                let mut k: usize = 0;
                while k < w
                    invariant
                        k <= w,
                        start + w <= cjk.len(),
                        tok@ == cjk@.subrange(start as int, start + k),
                    decreases w - k,
                {
                    tok.push(cjk[start + k]);
                    assert(tok@ =~= cjk@.subrange(start as int, start + k + 1));
                    k += 1;
                }
                let ghost before = views(out@);
                out.push(tok);
                assert(views(out@) =~= before.push(cjk@.subrange(start as int, start + w)));
                assert(windows(cjk@, w as int).take(start + 1) =~= windows(cjk@, w as int).take(
                    start as int,
                ).push(cjk@.subrange(start as int, start + w)));
                assert(base + windows(cjk@, w as int).take(start + 1) =~= (base + windows(
                    cjk@,
                    w as int,
                ).take(start as int)).push(cjk@.subrange(start as int, start + w)));
                start += 1;
            }
            assert(windows(cjk@, w as int).take(start as int) =~= windows(cjk@, w as int));
        } else {
            assert(windows(cjk@, w as int) =~= Seq::<Seq<char>>::empty());
            assert(base + windows(cjk@, w as int) =~= base);
        }
        w += 1;
    }
}

/// The dictionary languages whose lists hold the token.
fn token_languages(lex: &Lexicons, tok: &Vec<char>, lower: &Vec<char>) -> (r: Vec<&'static str>)
    requires
        lex.wf(),
        lower@ == lowercase_of(tok@),
    ensures
        views_str(r@) == langs_of(*lex, tok@),
{
    let mut r: Vec<&'static str> = Vec::new();
    let mut k: usize = 0;
    while k < 6
        invariant
            k <= 6,
            lex.wf(),
            lower@ == lowercase_of(tok@),
            views_str(r@) == langs_upto(*lex, tok@, k as int),
        decreases 6 - k,
    {
        let l = language(k);
        let hit = if k == 0 || k == 4 {
            lex.contains(l, lower.as_slice())
        } else {
            lex.contains(l, tok.as_slice())
        };
        proof {
            reveal_strlit("en");
            reveal_strlit("vi");
            reveal_strlit("ja");
            reveal_strlit("zh-Hans");
            reveal_strlit("zh-Hant");
            reveal_strlit("ko");
            lemma_languages_distinct();
            assert(probe(l@, tok@) == if k == 0 || k == 4 {
                lower@
            } else {
                tok@
            });
        }
        if hit {
            r.push(l);
            assert(views_str(r@) =~= langs_upto(*lex, tok@, k as int).push(l@));
        }
        k += 1;
    }
    r
}

pub open spec fn views_str(v: Seq<&'static str>) -> Seq<Seq<char>> {
    v.map_values(|s: &'static str| s@)
}

proof fn lemma_count_tokens_bound(toks: Seq<Seq<char>>, p: spec_fn(Seq<char>) -> bool)
    ensures
        count_tokens(toks, p) <= toks.len(),
    decreases toks.len(),
{
    if toks.len() > 0 {
        lemma_count_tokens_bound(toks.drop_last(), p);
    }
}

proof fn lemma_count_tokens_push(d: Seq<Seq<char>>, t: Seq<char>, p: spec_fn(Seq<char>) -> bool)
    ensures
        count_tokens(d.push(t), p) == count_tokens(d, p) + if p(t) { 1nat } else { 0nat },
{
    assert(d.push(t).drop_last() =~= d);
}

proof fn lemma_dedupe_len(s: Seq<Seq<char>>)
    ensures
        dedupe(s).len() <= s.len(),
    decreases s.len(),
{
    if s.len() > 0 {
        lemma_dedupe_len(s.drop_last());
    }
}

/// Per-language hit counts over `d`, plus one for each of the first `j`
/// languages of `ls`.
spec fn hits_after(lex: Lexicons, d: Seq<Seq<char>>, ls: Seq<Seq<char>>, j: int) -> spec_fn(Seq<char>) -> nat {
    |l: Seq<char>| count_tokens(d, hit_pred(lex, l)) + if ls.take(j).contains(l) { 1nat } else { 0nat }
}

spec fn exclusive_after(lex: Lexicons, d: Seq<Seq<char>>, ls: Seq<Seq<char>>, j: int) -> spec_fn(Seq<char>) -> nat {
    |l: Seq<char>| count_tokens(d, exclusive_pred(lex, l)) + if ls.len() == 1 && ls.take(j).contains(l) { 1nat } else { 0nat }
}

spec fn shared_after(lex: Lexicons, d: Seq<Seq<char>>, ls: Seq<Seq<char>>, j: int) -> spec_fn(Seq<char>) -> nat {
    |l: Seq<char>| count_tokens(d, shared_pred(lex, l)) + if ls.len() >= 2 && ls.take(j).contains(l) { 1nat } else { 0nat }
}

proof fn lemma_langs_distinct(lex: Lexicons, t: Seq<char>, n: int)
    requires
        0 <= n <= 6,
    ensures
        forall|i: int, j: int|
            0 <= i < j < langs_upto(lex, t, n).len() ==> langs_upto(lex, t, n)[i] != langs_upto(
                lex,
                t,
                n,
            )[j],
        forall|i: int|
            0 <= i < langs_upto(lex, t, n).len() ==> exists|k: int|
                0 <= k < n && #[trigger] langs_upto(lex, t, n)[i] == dictionary_languages()[k],
    decreases n,
{
    if n > 0 {
        lemma_langs_distinct(lex, t, n - 1);
        lemma_languages_distinct();
        let before = langs_upto(lex, t, n - 1);
        let l = dictionary_languages()[n - 1];
        assert forall|i: int| 0 <= i < before.len() implies before[i] != l by {
            let k = choose|k: int| 0 <= k < n - 1 && #[trigger] before[i] == dictionary_languages()[k];
        }
        let cur = langs_upto(lex, t, n);
        assert forall|i: int| 0 <= i < cur.len() implies exists|k: int|
            0 <= k < n && #[trigger] cur[i] == dictionary_languages()[k] by {
            if i < before.len() {
                let k = choose|k: int| 0 <= k < n - 1 && #[trigger] before[i] == dictionary_languages()[k];
                assert(cur[i] == dictionary_languages()[k]);
            } else {
                assert(cur[i] == dictionary_languages()[n - 1]);
            }
        }
    }
}

/// Count, per language and overall, the distinct candidate words of the
/// input that each list recognizes.
pub fn score(input: &Normalized, lex: &Lexicons) -> (sig: DictionarySignal)
    requires
        lex.wf(),
    ensures
        sig.describes(*lex, dedupe(dictionary_tokens(input.chars@))),
{
    let mut sig = DictionarySignal {
        hits_per_language: Tally::new(),
        exclusive_per_language: Tally::new(),
        shared_per_language: Tally::new(),
        recognized_tokens: 0,
        ambiguous_tokens: 0,
    };
    let ghost empty: Seq<Seq<char>> = Seq::empty();
    assert(sig.describes(*lex, empty));
    if input.chars.len() == 0 {
        assert(dedupe(dictionary_tokens(input.chars@)) =~= empty) by {
            assert(latin_runs(input.chars@) =~= empty);
            assert(cjk_chars(input.chars@) =~= Seq::<char>::empty());
            assert(dictionary_tokens(input.chars@) =~= empty);
        }
        return sig;
    }
    let mut tokens: Vec<Vec<char>> = Vec::new();
    extract_latin_tokens(&input.chars, &mut tokens);
    extract_cjk_tokens(&input.chars, &mut tokens);
    assert(views(tokens@) =~= dictionary_tokens(input.chars@));
    let ghost all = views(tokens@);
    let mut seen = WordSet::new();
    let mut i: usize = 0;
    assert(all.take(0) =~= empty);
    while i < tokens.len()
        invariant
            i <= tokens.len(),
            all == views(tokens@),
            lex.wf(),
            seen.wf(),
            forall|x: Seq<char>| #[trigger] seen@.contains(x) <==> all.take(i as int).contains(x),
            sig.describes(*lex, dedupe(all.take(i as int))),
        decreases tokens.len() - i,
    {
        let tok = &tokens[i];
        let ghost t = tok@;
        let ghost d = dedupe(all.take(i as int));
        assert(all.take(i + 1).drop_last() =~= all.take(i as int));
        assert(all[i as int] == t);
        proof {
            lemma_dedupe_contains(all.take(i as int), t);
        }
        if seen.contains(tok.as_slice()) {
            assert(dedupe(all.take(i + 1)) == d);
        } else {
            let copy = tok.clone();
            assert(copy@ == t);
            seen.insert(copy);
            assert forall|x: Seq<char>| #[trigger] seen@.contains(x) <==> all.take(i + 1).contains(x) by {
                if all.take(i + 1).contains(x) && x != t {
                    let j = choose|j: int| 0 <= j < i + 1 && #[trigger] all.take(i + 1)[j] == x;
                    assert(all.take(i as int)[j] == x);
                }
                if all.take(i as int).contains(x) {
                    let j = choose|j: int| 0 <= j < i && #[trigger] all.take(i as int)[j] == x;
                    assert(all.take(i + 1)[j] == x);
                }
                if x == t {
                    assert(all.take(i + 1)[i as int] == x);
                }
            }
            assert(dedupe(all.take(i + 1)) == d.push(t));
            let lower = to_lowercase(tok.as_slice());
            let langs = token_languages(lex, tok, &lower);
            let ghost ls = langs_of(*lex, t);
            let ghost nd = d.push(t);
            proof {
                lemma_langs_distinct(*lex, t, 6);
                lemma_dedupe_len(all.take(i as int));
                lemma_count_tokens_bound(d, recognized_pred(*lex));
                lemma_count_tokens_bound(d, ambiguous_pred(*lex));
                lemma_count_tokens_push(d, t, recognized_pred(*lex));
                lemma_count_tokens_push(d, t, ambiguous_pred(*lex));
            }
            if langs.len() > 0 {
                sig.recognized_tokens = sig.recognized_tokens + 1;
            }
            if langs.len() >= 2 {
                sig.ambiguous_tokens = sig.ambiguous_tokens + 1;
            }
            proof {
                assert(ls.take(0) =~= Seq::<Seq<char>>::empty());
                lemma_tally_ext(sig.hits_per_language@, |l: Seq<char>| count_tokens(d, hit_pred(*lex, l)), hits_after(*lex, d, ls, 0));
                lemma_tally_ext(sig.exclusive_per_language@, |l: Seq<char>| count_tokens(d, exclusive_pred(*lex, l)), exclusive_after(*lex, d, ls, 0));
                lemma_tally_ext(sig.shared_per_language@, |l: Seq<char>| count_tokens(d, shared_pred(*lex, l)), shared_after(*lex, d, ls, 0));
            }
            let ghost rec0 = sig.recognized_tokens;
            let ghost amb0 = sig.ambiguous_tokens;
            let mut j: usize = 0;
            while j < langs.len()
                invariant
                    sig.recognized_tokens == rec0,
                    sig.ambiguous_tokens == amb0,
                    j <= langs.len(),
                    i < tokens.len(),
                    d.len() <= i,
                    views_str(langs@) == ls,
                    ls == langs_of(*lex, t),
                    forall|a: int, b: int| 0 <= a < b < ls.len() ==> ls[a] != ls[b],
                    sig.hits_per_language.wf(),
                    sig.exclusive_per_language.wf(),
                    sig.shared_per_language.wf(),
                    tally_is(sig.hits_per_language@, hits_after(*lex, d, ls, j as int)),
                    tally_is(sig.exclusive_per_language@, exclusive_after(*lex, d, ls, j as int)),
                    tally_is(sig.shared_per_language@, shared_after(*lex, d, ls, j as int)),
                decreases langs.len() - j,
            {
                let l = langs[j];
                assert(l@ == ls[j as int]);
                assert(ls.take(j + 1) =~= ls.take(j as int).push(l@));
                assert(!ls.take(j as int).contains(l@)) by {
                    if ls.take(j as int).contains(l@) {
                        let a = choose|a: int| 0 <= a < j && #[trigger] ls.take(j as int)[a] == l@;
                        assert(ls[a] == ls[j as int]);
                    }
                }
                proof {
                    lemma_count_tokens_bound(d, hit_pred(*lex, l@));
                    lemma_count_tokens_bound(d, exclusive_pred(*lex, l@));
                    lemma_count_tokens_bound(d, shared_pred(*lex, l@));
                    assert(hits_after(*lex, d, ls, j as int)(l@) == count_tokens(d, hit_pred(*lex, l@)));
                    assert(exclusive_after(*lex, d, ls, j as int)(l@) == count_tokens(d, exclusive_pred(*lex, l@)));
                    assert(shared_after(*lex, d, ls, j as int)(l@) == count_tokens(d, shared_pred(*lex, l@)));
                    assert forall|k: Seq<char>| #[trigger] ls.take(j + 1).contains(k) <==> (ls.take(j as int).contains(k) || k == l@) by {
                        vstd::seq_lib::lemma_seq_contains_after_push(ls.take(j as int), l@, k);
                    }
                }
                let ghost h = sig.hits_per_language@;
                let ghost e = sig.exclusive_per_language@;
                let ghost sh = sig.shared_per_language@;
                sig.hits_per_language.add(l, 1);
                proof {
                    lemma_tally_add(h, hits_after(*lex, d, ls, j as int), hits_after(*lex, d, ls, j + 1), l@, 1);
                }
                if langs.len() == 1 {
                    sig.exclusive_per_language.add(l, 1);
                    proof {
                        lemma_tally_add(e, exclusive_after(*lex, d, ls, j as int), exclusive_after(*lex, d, ls, j + 1), l@, 1);
                        lemma_tally_ext(sh, shared_after(*lex, d, ls, j as int), shared_after(*lex, d, ls, j + 1));
                    }
                } else {
                    sig.shared_per_language.add(l, 1);
                    proof {
                        lemma_tally_add(sh, shared_after(*lex, d, ls, j as int), shared_after(*lex, d, ls, j + 1), l@, 1);
                        lemma_tally_ext(e, exclusive_after(*lex, d, ls, j as int), exclusive_after(*lex, d, ls, j + 1));
                    }
                }
                j += 1;
            }
            proof {
                assert(ls.take(langs.len() as int) =~= ls);
                assert forall|l: Seq<char>| #[trigger] hit_pred(*lex, l)(t) == ls.contains(l) by {}
                assert forall|l: Seq<char>|
                    count_tokens(nd, #[trigger] hit_pred(*lex, l)) == hits_after(*lex, d, ls, ls.len() as int)(l) by {
                    lemma_count_tokens_push(d, t, hit_pred(*lex, l));
                }
                assert forall|l: Seq<char>|
                    count_tokens(nd, #[trigger] exclusive_pred(*lex, l)) == exclusive_after(*lex, d, ls, ls.len() as int)(l) by {
                    lemma_count_tokens_push(d, t, exclusive_pred(*lex, l));
                }
                assert forall|l: Seq<char>|
                    count_tokens(nd, #[trigger] shared_pred(*lex, l)) == shared_after(*lex, d, ls, ls.len() as int)(l) by {
                    lemma_count_tokens_push(d, t, shared_pred(*lex, l));
                }
                lemma_tally_ext(sig.hits_per_language@, hits_after(*lex, d, ls, ls.len() as int), |l: Seq<char>| count_tokens(nd, hit_pred(*lex, l)));
                lemma_tally_ext(sig.exclusive_per_language@, exclusive_after(*lex, d, ls, ls.len() as int), |l: Seq<char>| count_tokens(nd, exclusive_pred(*lex, l)));
                lemma_tally_ext(sig.shared_per_language@, shared_after(*lex, d, ls, ls.len() as int), |l: Seq<char>| count_tokens(nd, shared_pred(*lex, l)));
                assert(langs@.len() == ls.len());
                assert(sig.recognized_tokens == count_tokens(nd, recognized_pred(*lex)));
                assert(sig.ambiguous_tokens == count_tokens(nd, ambiguous_pred(*lex)));
                assert(tally_is(sig.hits_per_language@, |l: Seq<char>| count_tokens(nd, hit_pred(*lex, l))));
                assert(sig.describes(*lex, nd));
            }
        }
        i += 1;
    }
    assert(all.take(tokens.len() as int) =~= all);
    sig
}

proof fn lemma_count_split(lex: Lexicons, d: Seq<Seq<char>>, l: Seq<char>)
    ensures
        count_tokens(d, hit_pred(lex, l)) == count_tokens(d, exclusive_pred(lex, l))
            + count_tokens(d, shared_pred(lex, l)),
        count_tokens(d, ambiguous_pred(lex)) <= count_tokens(d, recognized_pred(lex)),
    decreases d.len(),
{
    if d.len() > 0 {
        lemma_count_split(lex, d.drop_last(), l);
        let t = d.last();
        let ls = langs_of(lex, t);
        if ls.contains(l) {
            assert(ls.len() >= 1);
        }
    }
}

/// Each language's hits split into its exclusive and its shared hits,
/// and every ambiguous token is a recognized one.
pub proof fn lemma_hits_split(sig: DictionarySignal, lex: Lexicons, d: Seq<Seq<char>>, l: Seq<char>)
    requires
        sig.describes(lex, d),
    ensures
        count_of(sig.hits_per_language@, l) == count_of(sig.exclusive_per_language@, l) + count_of(
            sig.shared_per_language@,
            l,
        ),
        sig.ambiguous_tokens <= sig.recognized_tokens,
{
    lemma_count_split(lex, d, l);
    lemma_tally_count(sig.hits_per_language@, |k: Seq<char>| count_tokens(d, hit_pred(lex, k)), l);
    lemma_tally_count(
        sig.exclusive_per_language@,
        |k: Seq<char>| count_tokens(d, exclusive_pred(lex, k)),
        l,
    );
    lemma_tally_count(
        sig.shared_per_language@,
        |k: Seq<char>| count_tokens(d, shared_pred(lex, k)),
        l,
    );
}

} // verus!
