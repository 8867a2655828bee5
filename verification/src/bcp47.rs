//! The canonical BCP 47 tag set and the Sinitic refinement of a coarse
//! `zh` verdict.

use vstd::prelude::*;
use crate::layers::orthography::{
    has_yue_marker, hant_hk_marker_pred, hant_only_pred, hant_tw_marker_pred,
    is_classical_chinese, is_hant_hk_marker, is_hant_only, is_hant_tw_marker, spec_is_classical,
    yue_marker_pred,
};
use crate::layers::function_words::spec_is_yue_particle;
use crate::layers::orthography::spec_is_yue_marker;
use crate::text::{any_where, count_where, str_chars, str_eq};

verus! {

/// The most specific Sinitic tag `text` supports: Cantonese particles
/// win, then Classical density, then Traditional-only characters (with
/// a Hong Kong or Taiwan refinement when only one region's markers
/// appear), and Simplified otherwise.
pub open spec fn spec_resolve_zh(text: Seq<char>) -> Seq<char> {
    if any_where(text, yue_marker_pred()) {
        "yue"@
    } else if spec_is_classical(text) {
        "lzh"@
    } else if any_where(text, hant_only_pred()) {
        let hk = any_where(text, hant_hk_marker_pred());
        let tw = any_where(text, hant_tw_marker_pred());
        if hk && !tw {
            "zh-Hant-HK"@
        } else if tw && !hk {
            "zh-Hant-TW"@
        } else {
            "zh-Hant"@
        }
    } else {
        "zh-Hans"@
    }
}

enum HanMarker {
    HantOnly,
    HongKong,
    Taiwan,
}

spec fn marker_pred(m: HanMarker) -> spec_fn(char) -> bool {
    match m {
        HanMarker::HantOnly => hant_only_pred(),
        HanMarker::HongKong => hant_hk_marker_pred(),
        HanMarker::Taiwan => hant_tw_marker_pred(),
    }
}

fn has_marker(chars: &Vec<char>, m: HanMarker) -> (b: bool)
    ensures
        b == any_where(chars@, marker_pred(m)),
{
    let mut i: usize = 0;
    while i < chars.len()
        invariant
            i <= chars.len(),
            forall|k: int| 0 <= k < i ==> !(#[trigger] marker_pred(m)(chars@[k])),
        decreases chars.len() - i,
    {
        let c = chars[i];
        let hit = match m {
            HanMarker::HantOnly => is_hant_only(c),
            HanMarker::HongKong => is_hant_hk_marker(c),
            HanMarker::Taiwan => is_hant_tw_marker(c),
        };
        if hit {
            assert(marker_pred(m)(chars@[i as int]));
            return true;
        }
        i += 1;
    }
    false
}

/// Refine a coarse Chinese verdict to the most specific tag `text`
/// supports.
pub fn resolve_zh(text: &str) -> (tag: &'static str)
    ensures
        tag@ == spec_resolve_zh(text@),
{
    if has_yue_marker(text) {
        return "yue";
    }
    if is_classical_chinese(text) {
        return "lzh";
    }
    let chars = str_chars(text);
    if has_marker(&chars, HanMarker::HantOnly) {
        let hk = has_marker(&chars, HanMarker::HongKong);
        let tw = has_marker(&chars, HanMarker::Taiwan);
        if hk && !tw {
            return "zh-Hant-HK";
        }
        if tw && !hk {
            return "zh-Hant-TW";
        }
        return "zh-Hant";
    }
    "zh-Hans"
}

/// The Sinitic tags, all grouped under the `zh` macro language.
pub open spec fn is_sinitic(tag: Seq<char>) -> bool {
    tag == "zh"@ || tag == "zh-Hans"@ || tag == "zh-Hant"@ || tag == "zh-Hant-HK"@ || tag
        == "zh-Hant-TW"@ || tag == "yue"@ || tag == "lzh"@ || tag == "nan"@ || tag == "hak"@
        || tag == "wuu"@
}

/// Whether `tag` is one of the Sinitic tags.
pub fn is_sinitic_tag(tag: &str) -> (b: bool)
    ensures
        b == is_sinitic(tag@),
{
    str_eq(tag, "zh") || str_eq(tag, "zh-Hans") || str_eq(tag, "zh-Hant") || str_eq(
        tag,
        "zh-Hant-HK",
    ) || str_eq(tag, "zh-Hant-TW") || str_eq(tag, "yue") || str_eq(tag, "lzh") || str_eq(
        tag,
        "nan",
    ) || str_eq(tag, "hak") || str_eq(tag, "wuu")
}

/// The macro language of a tag: `zh` for every Sinitic tag, the tag
/// itself otherwise.
pub open spec fn spec_macro_of(tag: Seq<char>) -> Seq<char> {
    if is_sinitic(tag) {
        "zh"@
    } else {
        tag
    }
}

/// Map a fine tag to its consumer-facing macro language.
pub fn macro_of(tag: &str) -> (m: &str)
    ensures
        m@ == spec_macro_of(tag@),
{
    if str_eq(tag, "zh") || str_eq(tag, "zh-Hans") || str_eq(tag, "zh-Hant") || str_eq(
        tag,
        "zh-Hant-HK",
    ) || str_eq(tag, "zh-Hant-TW") || str_eq(tag, "yue") || str_eq(tag, "lzh") || str_eq(
        tag,
        "nan",
    ) || str_eq(tag, "hak") || str_eq(tag, "wuu") {
        "zh"
    } else {
        tag
    }
}

/// The fine tags the library can emit under a macro language: the nine
/// Sinitic tags under `zh`, the tag itself for `en` `fr` `vi` `ja`
/// `ko`, and none for any other macro.
pub open spec fn spec_variants_of(m: Seq<char>) -> Seq<Seq<char>> {
    if m == "zh"@ {
        seq![
            "zh-Hans"@,
            "zh-Hant"@,
            "zh-Hant-HK"@,
            "zh-Hant-TW"@,
            "yue"@,
            "lzh"@,
            "nan"@,
            "hak"@,
            "wuu"@,
        ]
    } else if m == "en"@ || m == "fr"@ || m == "vi"@ || m == "ja"@ || m == "ko"@ {
        seq![m]
    } else {
        Seq::empty()
    }
}

pub open spec fn views_of(v: Seq<&'static str>) -> Seq<Seq<char>> {
    v.map_values(|s: &'static str| s@)
}

/// The canonical fine tags under a macro language.
pub fn variants_of(macro_tag: &str) -> (v: Vec<&'static str>)
    ensures
        views_of(v@) == spec_variants_of(macro_tag@),
{
    let v: Vec<&'static str> = if str_eq(macro_tag, "zh") {
        vec!["zh-Hans", "zh-Hant", "zh-Hant-HK", "zh-Hant-TW", "yue", "lzh", "nan", "hak", "wuu"]
    } else if str_eq(macro_tag, "en") {
        vec!["en"]
    } else if str_eq(macro_tag, "fr") {
        vec!["fr"]
    } else if str_eq(macro_tag, "vi") {
        vec!["vi"]
    } else if str_eq(macro_tag, "ja") {
        vec!["ja"]
    } else if str_eq(macro_tag, "ko") {
        vec!["ko"]
    } else {
        Vec::new()
    };
    assert(views_of(v@) =~= spec_variants_of(macro_tag@));
    v
}

/// None of the monolithic macro languages is Sinitic.
proof fn lemma_monolithic_not_sinitic(m: Seq<char>)
    requires
        m == "en"@ || m == "fr"@ || m == "vi"@ || m == "ja"@ || m == "ko"@,
    ensures
        !is_sinitic(m),
{
    reveal_strlit("zh");
    reveal_strlit("zh-Hans");
    reveal_strlit("zh-Hant");
    reveal_strlit("zh-Hant-HK");
    reveal_strlit("zh-Hant-TW");
    reveal_strlit("yue");
    reveal_strlit("lzh");
    reveal_strlit("nan");
    reveal_strlit("hak");
    reveal_strlit("wuu");
    reveal_strlit("en");
    reveal_strlit("fr");
    reveal_strlit("vi");
    reveal_strlit("ja");
    reveal_strlit("ko");
    assert(m.len() == 2);
    assert(m[0] != 'z');
    assert("zh"@[0] == 'z');
}

/// Every fine tag listed under a macro language collapses back to that
/// macro language.
pub proof fn lemma_variants_collapse_to_macro(m: Seq<char>, v: Seq<char>)
    requires
        spec_variants_of(m).contains(v),
    ensures
        spec_macro_of(v) == m,
{
    let vs = spec_variants_of(m);
    let i = choose|i: int| 0 <= i < vs.len() && vs[i] == v;
    if m == "zh"@ {
        assert(is_sinitic(vs[i]));
    } else {
        assert(v == m);
        lemma_monolithic_not_sinitic(m);
    }
}

/// Every Sinitic tag but the umbrella `zh` is listed under `zh`.
pub proof fn lemma_sinitic_tags_listed(tag: Seq<char>)
    requires
        is_sinitic(tag),
        tag != "zh"@,
    ensures
        spec_variants_of("zh"@).contains(tag),
{
    let vs = spec_variants_of("zh"@);
    if tag == "zh-Hans"@ {
        assert(vs[0] == tag);
    } else if tag == "zh-Hant"@ {
        assert(vs[1] == tag);
    } else if tag == "zh-Hant-HK"@ {
        assert(vs[2] == tag);
    } else if tag == "zh-Hant-TW"@ {
        assert(vs[3] == tag);
    } else if tag == "yue"@ {
        assert(vs[4] == tag);
    } else if tag == "lzh"@ {
        assert(vs[5] == tag);
    } else if tag == "nan"@ {
        assert(vs[6] == tag);
    } else if tag == "hak"@ {
        assert(vs[7] == tag);
    } else {
        assert(vs[8] == tag);
    }
}

/// A refined Chinese verdict is always a fine tag of `zh`.
pub proof fn lemma_resolve_zh_is_zh_variant(text: Seq<char>)
    ensures
        spec_variants_of("zh"@).contains(spec_resolve_zh(text)),
        spec_macro_of(spec_resolve_zh(text)) == "zh"@,
{
    let t = spec_resolve_zh(text);
    reveal_strlit("zh");
    reveal_strlit("zh-Hans");
    reveal_strlit("zh-Hant");
    reveal_strlit("zh-Hant-HK");
    reveal_strlit("zh-Hant-TW");
    reveal_strlit("yue");
    reveal_strlit("lzh");
    assert(t != "zh"@) by {
        assert("zh"@.len() == 2);
    }
    lemma_sinitic_tags_listed(t);
}

/// Collapsing a tag to its macro language twice changes nothing.
pub proof fn lemma_macro_of_idempotent(tag: Seq<char>)
    ensures
        spec_macro_of(spec_macro_of(tag)) == spec_macro_of(tag),
{
}

proof fn lemma_count_where_positive(s: Seq<char>, p: spec_fn(char) -> bool, i: int)
    requires
        0 <= i < s.len(),
        p(s[i]),
    ensures
        count_where(s, p) >= 1,
    decreases s.len(),
{
    if i < s.len() - 1 {
        lemma_count_where_positive(s.drop_last(), p, i);
    }
}

/// Every Cantonese marker is one of the Cantonese function words.
pub proof fn lemma_yue_markers_are_particles(c: char)
    ensures
        spec_is_yue_marker(c) ==> spec_is_yue_particle(c),
{
}

/// A text holding a Cantonese function word is Cantonese: the
/// orthography layer counts a Cantonese marker in it and a coarse
/// Chinese verdict on it is refined to `yue`. The exceptions are 係,
/// which Traditional Mandarin writes too (關係), 嘥, counted as a Hong
/// Kong marker, and 咩 and 嘢, which the marker set leaves out.
pub proof fn lemma_cantonese_particle_text_is_yue(text: Seq<char>, i: int)
    requires
        0 <= i < text.len(),
        spec_is_yue_particle(text[i]),
        text[i] != '係' && text[i] != '嘥' && text[i] != '咩' && text[i] != '嘢',
    ensures
        count_where(text, yue_marker_pred()) >= 1,
        spec_resolve_zh(text) == "yue"@,
{
    assert(spec_is_yue_marker(text[i]));
    assert(yue_marker_pred()(text[i]));
    lemma_count_where_positive(text, yue_marker_pred(), i);
    assert(any_where(text, yue_marker_pred()));
}

} // verus!
