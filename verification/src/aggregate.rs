//! The decisions behind weighing the script evidence: where the Latin
//! and the Han share of the input go, and in what proportions. The
//! shares themselves are fractions and are computed by the caller.

use vstd::prelude::*;
use crate::layers::morphology::LatinAttribution;
use crate::layers::orthography::OrthoSignals;
use crate::text::str_eq;

verus! {

/// The most specific Traditional tag the regional markers warrant.
pub open spec fn spec_pick_hant_tag(hk: int, tw: int) -> Seq<char> {
    if hk > 0 && tw == 0 {
        "zh-Hant-HK"@
    } else if tw > 0 && hk == 0 {
        "zh-Hant-TW"@
    } else {
        "zh-Hant"@
    }
}

/// `zh-Hant-HK` with only Hong Kong markers, `zh-Hant-TW` with only
/// Taiwan markers, `zh-Hant` otherwise.
pub fn pick_hant_tag(ortho: &OrthoSignals) -> (t: &'static str)
    ensures
        t@ == spec_pick_hant_tag(ortho.hant_hk_markers as int, ortho.hant_tw_markers as int),
{
    let hk = ortho.hant_hk_markers > 0;
    let tw = ortho.hant_tw_markers > 0;
    if hk && !tw {
        "zh-Hant-HK"
    } else if tw && !hk {
        "zh-Hant-TW"
    } else {
        "zh-Hant"
    }
}

/// Classical Chinese density: at least three classical function-word
/// characters among at least four Han characters.
pub fn is_lzh_active(ortho: &OrthoSignals, han_count: usize) -> (b: bool)
    ensures
        b == (ortho.lzh_markers >= 3 && han_count >= 4),
{
    ortho.lzh_markers >= 3 && han_count >= 4
}

/// Where the Latin share of the input goes.
#[derive(Debug, Clone, PartialEq, Eq)]
pub enum LatinPlan {
    /// Attributed words give their letters to their languages (`en`,
    /// `fr`, `vi` letters); the `remainder` of the Latin letters goes to
    /// `rest`.
    Attributed { en: usize, fr: usize, vi: usize, remainder: usize, rest: &'static str },
    /// The whole Latin share goes to one language.
    All(&'static str),
    /// `tag` takes its `markers` (at most the whole Latin share), English
    /// the rest.
    Split { tag: &'static str, markers: usize },
}

/// Letters of the attributions whose language satisfies `p`.
pub open spec fn attributed_letters(a: Seq<LatinAttribution>, lang: Option<Seq<char>>) -> int
    decreases a.len(),
{
    if a.len() == 0 {
        0
    } else {
        attributed_letters(a.drop_last(), lang) + match lang {
            Some(l) => if a.last().language@ == l {
                a.last().end - a.last().start
            } else {
                0
            },
            None => a.last().end - a.last().start,
        }
    }
}

/// The Latin plan. With attributions: their letters per language, and
/// the unattributed rest to Vietnamese when Vietnamese markers make at
/// least a tenth of the Latin letters, to French when there are French
/// markers and French words, to English otherwise. Without: everything
/// to Vietnamese at a tenth of Vietnamese markers, to French at a
/// twentieth of French markers; a split with English when either has
/// markers at all; everything to Vietnamese when its n-grams outnumber
/// the English ones more than three times; English otherwise.
pub open spec fn latin_plan_of(
    latin: int,
    vi_markers: int,
    fr_markers: int,
    en_hits: int,
    vi_hits: int,
    attrs: Seq<LatinAttribution>,
) -> (Seq<char>, int, int, int, int, Seq<char>) {
    if attrs.len() > 0 {
        let en = attributed_letters(attrs, Some("en"@));
        let fr = attributed_letters(attrs, Some("fr"@));
        let vi = attributed_letters(attrs, Some("vi"@));
        let total = attributed_letters(attrs, None);
        let remainder = if latin > total { latin - total } else { 0 };
        let rest = if vi_markers >= 1 && 10 * vi_markers >= latin {
            "vi"@
        } else if fr_markers >= 1 && fr > 0 {
            "fr"@
        } else {
            "en"@
        };
        ("attributed"@, en, fr, vi, remainder, rest)
    } else if 10 * vi_markers >= latin {
        ("all"@, 0, 0, 0, 0, "vi"@)
    } else if 20 * fr_markers >= latin {
        ("all"@, 0, 0, 0, 0, "fr"@)
    } else if vi_markers >= 1 {
        ("split"@, vi_markers, 0, 0, 0, "vi"@)
    } else if fr_markers >= 1 {
        ("split"@, fr_markers, 0, 0, 0, "fr"@)
    } else if vi_hits > 3 * en_hits {
        ("all"@, 0, 0, 0, 0, "vi"@)
    } else {
        ("all"@, 0, 0, 0, 0, "en"@)
    }
}

/// A plan in the shape `latin_plan_of` gives.
pub open spec fn plan_view(p: LatinPlan) -> (Seq<char>, int, int, int, int, Seq<char>) {
    match p {
        LatinPlan::Attributed { en, fr, vi, remainder, rest } => (
            "attributed"@,
            en as int,
            fr as int,
            vi as int,
            remainder as int,
            rest@,
        ),
        LatinPlan::All(t) => ("all"@, 0, 0, 0, 0, t@),
        LatinPlan::Split { tag, markers } => ("split"@, markers as int, 0, 0, 0, tag@),
    }
}

proof fn lemma_attributed_bounds(a: Seq<LatinAttribution>, lang: Option<Seq<char>>)
    requires
        forall|k: int| 0 <= k < a.len() ==> (#[trigger] a[k]).start <= a[k].end,
    ensures
        0 <= attributed_letters(a, lang) <= attributed_letters(a, None),
    decreases a.len(),
{
    if a.len() > 0 {
        assert forall|k: int| 0 <= k < a.drop_last().len() implies (#[trigger] a.drop_last()[k]).start
            <= a.drop_last()[k].end by {
            assert(a.drop_last()[k] == a[k]);
        }
        lemma_attributed_bounds(a.drop_last(), lang);
        assert(a.last() == a[a.len() - 1]);
    }
}

/// Decide where the Latin share goes. Only called when the input has
/// Latin letters.
pub fn latin_plan(
    latin: usize,
    vi_markers: usize,
    fr_markers: usize,
    en_hits: usize,
    vi_hits: usize,
    attrs: &Vec<LatinAttribution>,
) -> (p: LatinPlan)
    requires
        latin >= 1,
        forall|k: int| 0 <= k < attrs.len() ==> (#[trigger] attrs@[k]).start <= attrs@[k].end,
        attributed_letters(attrs@, None) <= usize::MAX,
    ensures
        plan_view(p) == latin_plan_of(
            latin as int,
            vi_markers as int,
            fr_markers as int,
            en_hits as int,
            vi_hits as int,
            attrs@,
        ),
{
    let vi_dense = (vi_markers as u128) * 10 >= latin as u128;
    if attrs.len() > 0 {
        let mut en: usize = 0;
        let mut fr: usize = 0;
        let mut vi: usize = 0;
        let mut total: usize = 0;
        let mut k: usize = 0;
        proof {
            lemma_attributed_bounds(attrs@, None);
        }
        assert(attrs@.take(0) =~= Seq::<LatinAttribution>::empty());
        while k < attrs.len()
            invariant
                k <= attrs.len(),
                forall|j: int| 0 <= j < attrs.len() ==> (#[trigger] attrs@[j]).start <= attrs@[j].end,
                attributed_letters(attrs@, None) <= usize::MAX,
                en == attributed_letters(attrs@.take(k as int), Some("en"@)),
                fr == attributed_letters(attrs@.take(k as int), Some("fr"@)),
                vi == attributed_letters(attrs@.take(k as int), Some("vi"@)),
                total == attributed_letters(attrs@.take(k as int), None),
            decreases attrs.len() - k,
        {
            let a = attrs[k];
            let ghost t = attrs@.take(k + 1);
            assert(t.drop_last() =~= attrs@.take(k as int));
            assert(t.last() == a);
            proof {
                assert forall|j: int| 0 <= j < t.len() implies (#[trigger] t[j]).start <= t[j].end by {
                    assert(t[j] == attrs@[j]);
                }
                lemma_attributed_bounds(t, Some("en"@));
                lemma_attributed_bounds(t, Some("fr"@));
                lemma_attributed_bounds(t, Some("vi"@));
                lemma_attributed_prefix(attrs@, k + 1);
                reveal_strlit("en");
                reveal_strlit("fr");
                reveal_strlit("vi");
                assert("en"@[0] != "fr"@[0] && "en"@[0] != "vi"@[0] && "fr"@[0] != "vi"@[0]);
            }
            let len = a.end - a.start;
            total = total + len;
            if str_eq(a.language, "en") {
                en = en + len;
            } else if str_eq(a.language, "fr") {
                fr = fr + len;
            } else if str_eq(a.language, "vi") {
                vi = vi + len;
            }
            k += 1;
        }
        assert(attrs@.take(attrs.len() as int) =~= attrs@);
        let remainder = if latin > total {
            latin - total
        } else {
            0
        };
        let rest = if vi_markers >= 1 && vi_dense {
            "vi"
        } else if fr_markers >= 1 && fr > 0 {
            "fr"
        } else {
            "en"
        };
        return LatinPlan::Attributed { en, fr, vi, remainder, rest };
    }
    if vi_dense {
        LatinPlan::All("vi")
    } else if (fr_markers as u128) * 20 >= latin as u128 {
        LatinPlan::All("fr")
    } else if vi_markers >= 1 {
        LatinPlan::Split { tag: "vi", markers: vi_markers }
    } else if fr_markers >= 1 {
        LatinPlan::Split { tag: "fr", markers: fr_markers }
    } else if vi_hits as u128 > (en_hits as u128) * 3 {
        LatinPlan::All("vi")
    } else {
        LatinPlan::All("en")
    }
}

proof fn lemma_attributed_prefix(a: Seq<LatinAttribution>, n: int)
    requires
        0 <= n <= a.len(),
        forall|k: int| 0 <= k < a.len() ==> (#[trigger] a[k]).start <= a[k].end,
    ensures
        attributed_letters(a.take(n), None) <= attributed_letters(a, None),
    decreases a.len() - n,
{
    if n < a.len() {
        lemma_attributed_prefix(a, n + 1);
        assert(a.take(n + 1).drop_last() =~= a.take(n));
        assert(a.take(n + 1).last() == a[n]);
    } else {
        assert(a.take(n) =~= a);
    }
}

/// Where the Han share of the input goes.
#[derive(Debug, Clone, PartialEq, Eq)]
pub enum HanPlan {
    /// The whole Han share goes to one language.
    All(&'static str),
    /// Each language takes its weight out of the sum of the weights.
    Proportional(Vec<(&'static str, usize)>),
    /// No evidence at all: 34% to Japanese, 33% each to Simplified and
    /// to the given Traditional tag.
    Even(&'static str),
}

/// The weighted languages among Japanese (by kana) and the Sinitic tags
/// (by their markers), in that order, those with weight zero left out.
pub open spec fn han_weights(
    kana: int,
    hans: int,
    hant: int,
    nan: int,
    hak: int,
    wuu: int,
    hant_tag: Seq<char>,
) -> Seq<(Seq<char>, int)> {
    let all = seq![
        ("ja"@, kana),
        ("zh-Hans"@, hans),
        (hant_tag, hant),
        ("nan"@, nan),
        ("hak"@, hak),
        ("wuu"@, wuu),
    ];
    positive_weights(all)
}

/// The entries of `s` with a positive weight, in order.
pub open spec fn positive_weights(s: Seq<(Seq<char>, int)>) -> Seq<(Seq<char>, int)>
    decreases s.len(),
{
    if s.len() == 0 {
        s
    } else if s.last().1 > 0 {
        positive_weights(s.drop_last()).push(s.last())
    } else {
        positive_weights(s.drop_last())
    }
}

pub open spec fn weight_views(v: Seq<(&'static str, usize)>) -> Seq<(Seq<char>, int)> {
    v.map_values(|e: (&'static str, usize)| (e.0@, e.1 as int))
}

/// The Han plan: all to Classical Chinese at classical density, all to
/// Cantonese with Cantonese markers; otherwise in proportion to kana
/// and the Sinitic markers, and without any, the even split.
pub open spec fn han_plan_holds(p: HanPlan, kana: int, han: int, o: OrthoSignals) -> bool {
    let hant_tag = spec_pick_hant_tag(o.hant_hk_markers as int, o.hant_tw_markers as int);
    if o.lzh_markers >= 3 && han >= 4 {
        p matches HanPlan::All(t) && t@ == "lzh"@
    } else if o.yue_markers > 0 {
        p matches HanPlan::All(t) && t@ == "yue"@
    } else if kana + o.hans_markers + o.hant_markers + o.nan_markers + o.hak_markers + o.wuu_markers
        > 0 {
        p matches HanPlan::Proportional(v) && weight_views(v@) == han_weights(
            kana,
            o.hans_markers as int,
            o.hant_markers as int,
            o.nan_markers as int,
            o.hak_markers as int,
            o.wuu_markers as int,
            hant_tag,
        )
    } else {
        p matches HanPlan::Even(t) && t@ == hant_tag
    }
}

proof fn lemma_positive_weights_empty(s: Seq<(Seq<char>, int)>)
    ensures
        positive_weights(s).len() == 0 <==> forall|i: int| 0 <= i < s.len() ==> #[trigger] s[i].1 <= 0,
    decreases s.len(),
{
    if s.len() > 0 {
        lemma_positive_weights_empty(s.drop_last());
        assert forall|i: int| 0 <= i < s.drop_last().len() implies #[trigger] s.drop_last()[i] == s[i] by {}
        if s.last().1 <= 0 && positive_weights(s.drop_last()).len() == 0 {
            assert forall|i: int| 0 <= i < s.len() implies #[trigger] s[i].1 <= 0 by {
                if i < s.len() - 1 {
                    assert(s.drop_last()[i] == s[i]);
                }
            }
        }
        if forall|i: int| 0 <= i < s.len() ==> #[trigger] s[i].1 <= 0 {
            assert(s[s.len() - 1].1 <= 0);
            assert forall|i: int| 0 <= i < s.drop_last().len() implies #[trigger] s.drop_last()[i].1 <= 0 by {
                assert(s.drop_last()[i] == s[i]);
            }
        }
    }
}

/// Decide where the Han share goes.
pub fn han_plan(kana: usize, han_count: usize, ortho: &OrthoSignals) -> (p: HanPlan)
    ensures
        han_plan_holds(p, kana as int, han_count as int, *ortho),
{
    if is_lzh_active(ortho, han_count) {
        return HanPlan::All("lzh");
    }
    if ortho.yue_markers > 0 {
        return HanPlan::All("yue");
    }
    let hant_tag = pick_hant_tag(ortho);
    let weights: Vec<(&'static str, usize)> = vec![
        ("ja", kana),
        ("zh-Hans", ortho.hans_markers),
        (hant_tag, ortho.hant_markers),
        ("nan", ortho.nan_markers),
        ("hak", ortho.hak_markers),
        ("wuu", ortho.wuu_markers),
    ];
    let ghost all = weight_views(weights@);
    let mut out: Vec<(&'static str, usize)> = Vec::new();
    let mut k: usize = 0;
    assert(all.take(0) =~= Seq::<(Seq<char>, int)>::empty());
    while k < weights.len()
        invariant
            k <= weights.len(),
            all == weight_views(weights@),
            weight_views(out@) == positive_weights(all.take(k as int)),
        decreases weights.len() - k,
    {
        let ghost before = weight_views(out@);
        let e = weights[k];
        assert(all.take(k + 1).drop_last() =~= all.take(k as int));
        assert(all.take(k + 1).last() == all[k as int]);
        assert(all[k as int] == (e.0@, e.1 as int));
        if e.1 > 0 {
            out.push(e);
            assert(weight_views(out@) =~= before.push((e.0@, e.1 as int)));
        }
        k += 1;
    }
    assert(all.take(weights.len() as int) =~= all);
    proof {
        reveal_strlit("ja");
        assert(all =~= seq![
            ("ja"@, kana as int),
            ("zh-Hans"@, ortho.hans_markers as int),
            (hant_tag@, ortho.hant_markers as int),
            ("nan"@, ortho.nan_markers as int),
            ("hak"@, ortho.hak_markers as int),
            ("wuu"@, ortho.wuu_markers as int),
        ]);
    }
    proof {
        lemma_positive_weights_empty(all);
        if out.len() == 0 {
            assert(all[0].1 <= 0 && all[1].1 <= 0 && all[2].1 <= 0);
            assert(all[3].1 <= 0 && all[4].1 <= 0 && all[5].1 <= 0);
        }
    }
    if out.len() > 0 {
        HanPlan::Proportional(out)
    } else {
        HanPlan::Even(hant_tag)
    }
}

} // verus!
