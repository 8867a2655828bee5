//! Layer 4 — function words: particles, articles and other very frequent
//! words, counted per language.

use vstd::prelude::*;
use crate::layers::dictionary::{count_tokens, extract_latin_tokens, latin_runs};
use crate::layers::normalize::Normalized;
use crate::layers::script::{classify, is_cjk_script, Script};
use crate::lexicon::Lexicons;
use crate::tally::{tally_is, Tally};
use crate::text::{lowercase_of, str_chars, str_eq, to_lowercase, views};

verus! {

/// The Cantonese particle table: 嘅 嚟 唔 喺 啲 咁 哋 佢 係 咗 嘞 囉 嘥 咩 嘢.
pub open spec fn spec_is_yue_particle(c: char) -> bool {
    c == '嘅' || c == '嚟' || c == '唔' || c == '喺' || c == '啲' || c == '咁' || c == '哋'
        || c == '佢' || c == '係' || c == '咗' || c == '嘞' || c == '囉' || c == '嘥' || c
        == '咩' || c == '嘢'
}

/// The Classical Chinese function-word table: 之 乎 者 也 矣 焉 哉 而 於 以
/// 其 吾 汝 曰 為.
pub open spec fn spec_is_lzh_particle(c: char) -> bool {
    c == '之' || c == '乎' || c == '者' || c == '也' || c == '矣' || c == '焉' || c == '哉'
        || c == '而' || c == '於' || c == '以' || c == '其' || c == '吾' || c == '汝' || c
        == '曰' || c == '為'
}

fn is_yue_particle(c: char) -> (b: bool)
    ensures
        b == spec_is_yue_particle(c),
{
    c == '嘅' || c == '嚟' || c == '唔' || c == '喺' || c == '啲' || c == '咁' || c == '哋'
        || c == '佢' || c == '係' || c == '咗' || c == '嘞' || c == '囉' || c == '嘥' || c
        == '咩' || c == '嘢'
}

fn is_lzh_particle(c: char) -> (b: bool)
    ensures
        b == spec_is_lzh_particle(c),
{
    c == '之' || c == '乎' || c == '者' || c == '也' || c == '矣' || c == '焉' || c == '哉'
        || c == '而' || c == '於' || c == '以' || c == '其' || c == '吾' || c == '汝' || c
        == '曰' || c == '為'
}

/// The languages whose function-word table is the head of their word list.
pub open spec fn has_list_table(lang: Seq<char>) -> bool {
    lang == "en"@ || lang == "fr"@ || lang == "ja"@ || lang == "zh-Hans"@ || lang
        == "zh-Hant"@ || lang == "vi"@ || lang == "ko"@
}

/// The function-word table of `lang`: the curated single-character
/// tables for Cantonese and Classical Chinese, the top of the word list
/// for the list languages, and nothing otherwise.
pub open spec fn function_table(lex: Lexicons, lang: Seq<char>) -> Set<Seq<char>> {
    if lang == "yue"@ {
        Set::new(|t: Seq<char>| t.len() == 1 && spec_is_yue_particle(t[0]))
    } else if lang == "lzh"@ {
        Set::new(|t: Seq<char>| t.len() == 1 && spec_is_lzh_particle(t[0]))
    } else if has_list_table(lang) {
        lex.top_words_of(lang)
    } else {
        Set::empty()
    }
}

fn has_list_table_exec(lang: &str) -> (b: bool)
    ensures
        b == has_list_table(lang@),
{
    str_eq(lang, "en") || str_eq(lang, "fr") || str_eq(lang, "ja") || str_eq(lang, "zh-Hans")
        || str_eq(lang, "zh-Hant") || str_eq(lang, "vi") || str_eq(lang, "ko")
}

fn in_table(lex: &Lexicons, lang: &str, token: &[char]) -> (b: bool)
    requires
        lex.wf(),
    ensures
        b == function_table(*lex, lang@).contains(token@),
{
    if str_eq(lang, "yue") {
        token.len() == 1 && is_yue_particle(token[0])
    } else if str_eq(lang, "lzh") {
        token.len() == 1 && is_lzh_particle(token[0])
    } else if has_list_table_exec(lang) {
        lex.is_top_word(lang, token)
    } else {
        false
    }
}

/// Whether `token` (already lower-cased for Latin scripts) is in the
/// function-word table of `lang`.
pub fn is_top_function_word(lex: &Lexicons, lang: &str, token: &str) -> (b: bool)
    requires
        lex.wf(),
    ensures
        b == function_table(*lex, lang@).contains(token@),
{
    let t = str_chars(token);
    in_table(lex, lang, t.as_slice())
}

/// The languages counted, Latin-script ones first.
pub open spec fn function_word_languages() -> Seq<Seq<char>> {
    seq!["en"@, "fr"@, "vi"@, "ja"@, "zh-Hans"@, "zh-Hant"@, "ko"@, "yue"@, "lzh"@]
}

fn function_word_language(k: usize) -> (l: &'static str)
    requires
        k < 9,
    ensures
        l@ == function_word_languages()[k as int],
{
    match k {
        0 => "en",
        1 => "fr",
        2 => "vi",
        3 => "ja",
        4 => "zh-Hans",
        5 => "zh-Hant",
        6 => "ko",
        7 => "yue",
        _ => "lzh",
    }
}

proof fn lemma_function_word_languages()
    ensures
        function_word_languages().len() == 9,
        forall|i: int, j: int|
            0 <= i < j < 9 ==> function_word_languages()[i] != function_word_languages()[j],
{
    reveal_strlit("en");
    reveal_strlit("fr");
    reveal_strlit("vi");
    reveal_strlit("ja");
    reveal_strlit("zh-Hans");
    reveal_strlit("zh-Hant");
    reveal_strlit("ko");
    reveal_strlit("yue");
    reveal_strlit("lzh");
    assert forall|i: int, j: int| 0 <= i < j < 9 implies function_word_languages()[i]
        != function_word_languages()[j] by {
        let a = function_word_languages()[i];
        let b = function_word_languages()[j];
        if a == b {
            assert(a.len() == b.len());
            assert(a[0] == b[0]);
            if a.len() == 7 {
                assert(a[6] == b[6]);
            }
        }
    }
}

/// Whether a Latin token, lower-cased, is in `lang`'s table.
pub open spec fn latin_pred(lex: Lexicons, lang: Seq<char>) -> spec_fn(Seq<char>) -> bool {
    |t: Seq<char>| function_table(lex, lang).contains(lowercase_of(t))
}

/// Latin runs of `s` whose lower-cased form is in `lang`'s table.
pub open spec fn latin_hits(lex: Lexicons, s: Seq<char>, lang: Seq<char>) -> nat {
    count_tokens(latin_runs(s), latin_pred(lex, lang))
}

/// Hits of the windows starting at `i`: the CJK character there alone,
/// and it together with the next character when that is CJK too.
pub open spec fn window_hits(lex: Lexicons, s: Seq<char>, lang: Seq<char>, i: int) -> nat {
    if !is_cjk_script(s[i]) {
        0
    } else {
        (if function_table(lex, lang).contains(seq![s[i]]) {
            1nat
        } else {
            0nat
        }) + (if i + 1 < s.len() && is_cjk_script(s[i + 1]) && function_table(lex, lang).contains(
            seq![s[i], s[i + 1]],
        ) {
            1nat
        } else {
            0nat
        })
    }
}

/// Window hits of the first `n` positions of `s`.
pub open spec fn cjk_hits_upto(lex: Lexicons, s: Seq<char>, lang: Seq<char>, n: int) -> nat
    decreases n,
{
    if n <= 0 {
        0
    } else {
        cjk_hits_upto(lex, s, lang, n - 1) + window_hits(lex, s, lang, n - 1)
    }
}

/// One- and two-character CJK windows of `s` in `lang`'s table.
pub open spec fn cjk_hits(lex: Lexicons, s: Seq<char>, lang: Seq<char>) -> nat {
    cjk_hits_upto(lex, s, lang, s.len() as int)
}

/// The function-word count of `lang` over `s`.
pub open spec fn function_word_count(lex: Lexicons, s: Seq<char>, lang: Seq<char>) -> nat {
    if lang == "en"@ || lang == "fr"@ || lang == "vi"@ {
        latin_hits(lex, s, lang)
    } else if lang == "ja"@ || lang == "zh-Hans"@ || lang == "zh-Hant"@ || lang == "ko"@ || lang
        == "yue"@ || lang == "lzh"@ {
        cjk_hits(lex, s, lang)
    } else {
        0
    }
}

#[derive(Debug, Clone, Default)]
pub struct FunctionWordSignal {
    /// language → number of function-word hits in the input.
    pub per_language: Tally,
}

fn count_latin(lex: &Lexicons, lang: &str, tokens: &Vec<Vec<char>>) -> (n: usize)
    requires
        lex.wf(),
    ensures
        n == count_tokens(views(tokens@), latin_pred(*lex, lang@)),
{
    let ghost all = views(tokens@);
    let mut n: usize = 0;
    let mut i: usize = 0;
    assert(all.take(0) =~= Seq::<Seq<char>>::empty());
    while i < tokens.len()
        invariant
            i <= tokens.len(),
            lex.wf(),
            all == views(tokens@),
            n <= i,
            n == count_tokens(all.take(i as int), latin_pred(*lex, lang@)),
        decreases tokens.len() - i,
    {
        assert(all.take(i + 1).drop_last() =~= all.take(i as int));
        assert(all.take(i + 1).last() == tokens[i as int]@);
        let lower = to_lowercase(tokens[i].as_slice());
        let hit = in_table(lex, lang, lower.as_slice());
        assert(all[i as int] == tokens@[i as int]@);
        assert(lower@ == lowercase_of(all[i as int]));
        assert(hit == function_table(*lex, lang@).contains(lowercase_of(all[i as int])));
        assert(hit == latin_pred(*lex, lang@)(all[i as int]));
        if hit {
            n = n + 1;
        }
        i += 1;
    }
    assert(all.take(tokens.len() as int) =~= all);
    n
}

fn is_cjk_char(c: char) -> (b: bool)
    ensures
        b == is_cjk_script(c),
{
    let sc = classify(c);
    sc == Script::Han || sc == Script::Hiragana || sc == Script::Katakana || sc == Script::Hangul
}

fn count_cjk(lex: &Lexicons, lang: &str, input: &Normalized) -> (n: usize)
    requires
        lex.wf(),
        input.wf(),
    ensures
        n == cjk_hits(*lex, input.chars@, lang@),
{
    let s = &input.chars;
    let mut n: usize = 0;
    let mut i: usize = 0;
    while i < s.len()
        invariant
            i <= s.len(),
            lex.wf(),
            input.wf(),
            s == &input.chars,
            n <= 2 * i,
            n == cjk_hits_upto(*lex, s@, lang@, i as int),
        decreases s.len() - i,
    {
        let c = s[i];
        if is_cjk_char(c) {
            let one = vec![c];
            assert(one@ =~= seq![c]);
            if in_table(lex, lang, one.as_slice()) {
                n = n + 1;
            }
            if i + 1 < s.len() {
                let next = s[i + 1];
                if is_cjk_char(next) {
                    let pair = vec![c, next];
                    assert(pair@ =~= seq![c, next]);
                    if in_table(lex, lang, pair.as_slice()) {
                        n = n + 1;
                    }
                }
            }
        }
        i += 1;
    }
    n
}

/// Count, per language, the function words of the input: Latin runs
/// (lower-cased) against the English, French and Vietnamese tables, and
/// one- and two-character CJK windows against the Japanese, Chinese,
/// Korean, Cantonese and Classical Chinese tables. Languages without a
/// hit are absent.
pub fn score(input: &Normalized, lex: &Lexicons) -> (sig: FunctionWordSignal)
    requires
        input.wf(),
        lex.wf(),
    ensures
        sig.per_language.wf(),
        tally_is(sig.per_language@, |l: Seq<char>| function_word_count(*lex, input.chars@, l)),
{
    let mut tokens: Vec<Vec<char>> = Vec::new();
    extract_latin_tokens(&input.chars, &mut tokens);
    assert(views(tokens@) =~= latin_runs(input.chars@));
    let mut per_language = Tally::new();
    let ghost langs = function_word_languages();
    proof {
        lemma_function_word_languages();
    }
    let mut k: usize = 0;
    while k < 9
        invariant
            k <= 9,
            lex.wf(),
            input.wf(),
            views(tokens@) == latin_runs(input.chars@),
            langs == function_word_languages(),
            langs.len() == 9,
            forall|i: int, j: int| 0 <= i < j < 9 ==> langs[i] != langs[j],
            per_language.wf(),
            tally_is(
                per_language@,
                |l: Seq<char>|
                    if langs.take(k as int).contains(l) {
                        function_word_count(*lex, input.chars@, l)
                    } else {
                        0
                    },
            ),
        decreases 9 - k,
    {
        let lang = function_word_language(k);
        let n = if k < 3 {
            count_latin(lex, lang, &tokens)
        } else {
            count_cjk(lex, lang, input)
        };
        proof {
            reveal_strlit("en");
            reveal_strlit("fr");
            reveal_strlit("vi");
            assert(langs[0] == "en"@);
            assert(langs[1] == "fr"@);
            assert(langs[2] == "vi"@);
            if k >= 3 {
                assert(lang@ != langs[0]);
                assert(lang@ != langs[1]);
                assert(lang@ != langs[2]);
            }
            assert(n == function_word_count(*lex, input.chars@, lang@));
        }
        let ghost m0 = per_language@;
        if n > 0 {
            per_language.insert(lang, n);
        }
        proof {
            assert forall|l: Seq<char>| #[trigger] langs.take(k + 1).contains(l) <==> (langs.take(
                k as int,
            ).contains(l) || l == lang@) by {
                assert(langs.take(k + 1) =~= langs.take(k as int).push(lang@));
                vstd::seq_lib::lemma_seq_contains_after_push(langs.take(k as int), lang@, l);
            }
            assert(!langs.take(k as int).contains(lang@)) by {
                if langs.take(k as int).contains(lang@) {
                    let a = choose|a: int| 0 <= a < k && #[trigger] langs.take(k as int)[a] == lang@;
                    assert(langs[a] == langs[k as int]);
                }
            }
        }
        k += 1;
    }
    proof {
        assert(langs.take(9) =~= langs);
        assert forall|l: Seq<char>| !langs.contains(l) implies function_word_count(*lex, input.chars@, l) == 0 by {
            reveal_strlit("en");
            reveal_strlit("fr");
            reveal_strlit("vi");
            reveal_strlit("ja");
            reveal_strlit("zh-Hans");
            reveal_strlit("zh-Hant");
            reveal_strlit("ko");
            reveal_strlit("yue");
            reveal_strlit("lzh");
            if function_word_count(*lex, input.chars@, l) != 0 {
                if l == "en"@ { assert(langs[0] == l); }
                if l == "fr"@ { assert(langs[1] == l); }
                if l == "vi"@ { assert(langs[2] == l); }
                if l == "ja"@ { assert(langs[3] == l); }
                if l == "zh-Hans"@ { assert(langs[4] == l); }
                if l == "zh-Hant"@ { assert(langs[5] == l); }
                if l == "ko"@ { assert(langs[6] == l); }
                if l == "yue"@ { assert(langs[7] == l); }
                if l == "lzh"@ { assert(langs[8] == l); }
            }
        }
    }
    FunctionWordSignal { per_language }
}

} // verus!
