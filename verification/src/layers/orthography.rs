//! Layer 3 — orthographic markers: Vietnamese and French letters, and
//! Han characters diagnostic of Simplified, Traditional, regional and
//! Sinitic-sibling writing.

use vstd::prelude::*;
use crate::layers::normalize::Normalized;
use crate::layers::script::{classify, is_han, is_latin, script_of, Script};
use crate::text::{any_where, count_where, lemma_count_where_bound, lemma_count_where_step, str_chars};

verus! {

/// Latin letters that only Vietnamese uses among the supported
/// languages: the Latin Extended Additional block and ă đ ơ ư.
pub open spec fn spec_is_vi_marker(c: char) -> bool {
    let cp = c as u32;
    (0x1E00 <= cp <= 0x1EFF) || c == 'ă' || c == 'Ă' || c == 'đ' || c == 'Đ' || c == 'ơ' || c
        == 'Ơ' || c == 'ư' || c == 'Ư'
}

/// French-only letters among `en` / `fr` / `vi`: the cedilla and the
/// œ / æ ligatures.
pub open spec fn spec_is_fr_marker(c: char) -> bool {
    c == 'ç' || c == 'Ç' || c == 'œ' || c == 'Œ' || c == 'æ' || c == 'Æ'
}
/// Han characters written only in Simplified Chinese and not used in modern Japanese.
pub open spec fn spec_is_hans_only(c: char) -> bool {
    c == '师' || c == '时' || c == '这' || c == '让' || c == '给' || c == '们' || c == '经'
        || c == '还' || c == '实' || c == '进' || c == '见' || c == '问' || c == '谁' || c == '长'
        || c == '说' || c == '应' || c == '听' || c == '个' || c == '观' || c == '议' || c == '态'
        || c == '资' || c == '产' || c == '风' || c == '调' || c == '语' || c == '请' || c == '认'
        || c == '识' || c == '记'
}
/// Han characters written only in Traditional Chinese and not used in modern Japanese.
pub open spec fn spec_is_hant_only(c: char) -> bool {
    c == '學' || c == '國' || c == '來' || c == '們' || c == '經' || c == '這' || c == '實'
        || c == '會' || c == '說' || c == '應' || c == '讓' || c == '與' || c == '沒' || c == '聽'
        || c == '寫' || c == '認' || c == '識' || c == '觀' || c == '議' || c == '態' || c == '資'
        || c == '產' || c == '風' || c == '調' || c == '請' || c == '記' || c == '權' || c == '體'
        || c == '龜' || c == '歲' || c == '數' || c == '關' || c == '舊' || c == '處' || c == '辭'
        || c == '戰' || c == '對' || c == '氣' || c == '灣' || c == '黨' || c == '齊' || c == '豐'
        || c == '滿' || c == '辦' || c == '齒' || c == '從' || c == '總' || c == '歷' || c == '當'
        || c == '兒' || c == '兩'
}
/// Cantonese-only characters: colloquial particles and pronouns that
/// do not occur in written Mandarin, Simplified or Traditional.
pub open spec fn spec_is_yue_marker(c: char) -> bool {
    c == '嘅' || c == '嚟' || c == '唔' || c == '喺' || c == '啲' || c == '咁' || c == '哋'
        || c == '佢' || c == '咗' || c == '嘞' || c == '囉'
}
/// Classical Chinese function-word characters.
pub open spec fn spec_is_lzh_marker(c: char) -> bool {
    c == '之' || c == '乎' || c == '者' || c == '也' || c == '矣' || c == '焉' || c == '哉'
        || c == '而' || c == '於' || c == '以' || c == '其' || c == '吾' || c == '汝' || c == '曰'
}
/// Hong Kong written-Chinese characters.
pub open spec fn spec_is_hant_hk_marker(c: char) -> bool {
    c == '嘥' || c == '冚' || c == '嘜' || c == '攞' || c == '靚'
}
/// Taiwan-preferred Traditional forms.
pub open spec fn spec_is_hant_tw_marker(c: char) -> bool {
    c == '臺' || c == '麵' || c == '裡' || c == '著'
}
/// Min Nan diagnostic characters.
pub open spec fn spec_is_nan_marker(c: char) -> bool {
    c == '\u{2A736}' || c == '\u{3468}' || c == '阮' || c == '甲'
}
/// Hakka diagnostic characters.
pub open spec fn spec_is_hak_marker(c: char) -> bool {
    c == '\u{2828E}' || c == '𢲷'
}
/// Wu diagnostic characters.
pub open spec fn spec_is_wuu_marker(c: char) -> bool {
    c == '儂' || c == '弗' || c == '勿'
}
pub fn is_hans_only(c: char) -> (b: bool)
    ensures
        b == spec_is_hans_only(c),
{
    c == '师' || c == '时' || c == '这' || c == '让' || c == '给' || c == '们' || c == '经'
        || c == '还' || c == '实' || c == '进' || c == '见' || c == '问' || c == '谁' || c == '长'
        || c == '说' || c == '应' || c == '听' || c == '个' || c == '观' || c == '议' || c == '态'
        || c == '资' || c == '产' || c == '风' || c == '调' || c == '语' || c == '请' || c == '认'
        || c == '识' || c == '记'
}
pub fn is_hant_only(c: char) -> (b: bool)
    ensures
        b == spec_is_hant_only(c),
{
    c == '學' || c == '國' || c == '來' || c == '們' || c == '經' || c == '這' || c == '實'
        || c == '會' || c == '說' || c == '應' || c == '讓' || c == '與' || c == '沒' || c == '聽'
        || c == '寫' || c == '認' || c == '識' || c == '觀' || c == '議' || c == '態' || c == '資'
        || c == '產' || c == '風' || c == '調' || c == '請' || c == '記' || c == '權' || c == '體'
        || c == '龜' || c == '歲' || c == '數' || c == '關' || c == '舊' || c == '處' || c == '辭'
        || c == '戰' || c == '對' || c == '氣' || c == '灣' || c == '黨' || c == '齊' || c == '豐'
        || c == '滿' || c == '辦' || c == '齒' || c == '從' || c == '總' || c == '歷' || c == '當'
        || c == '兒' || c == '兩'
}
pub fn is_yue_marker(c: char) -> (b: bool)
    ensures
        b == spec_is_yue_marker(c),
{
    c == '嘅' || c == '嚟' || c == '唔' || c == '喺' || c == '啲' || c == '咁' || c == '哋'
        || c == '佢' || c == '咗' || c == '嘞' || c == '囉'
}
pub fn is_lzh_marker(c: char) -> (b: bool)
    ensures
        b == spec_is_lzh_marker(c),
{
    c == '之' || c == '乎' || c == '者' || c == '也' || c == '矣' || c == '焉' || c == '哉'
        || c == '而' || c == '於' || c == '以' || c == '其' || c == '吾' || c == '汝' || c == '曰'
}
pub fn is_hant_hk_marker(c: char) -> (b: bool)
    ensures
        b == spec_is_hant_hk_marker(c),
{
    c == '嘥' || c == '冚' || c == '嘜' || c == '攞' || c == '靚'
}
pub fn is_hant_tw_marker(c: char) -> (b: bool)
    ensures
        b == spec_is_hant_tw_marker(c),
{
    c == '臺' || c == '麵' || c == '裡' || c == '著'
}
pub fn is_nan_marker(c: char) -> (b: bool)
    ensures
        b == spec_is_nan_marker(c),
{
    c == '\u{2A736}' || c == '\u{3468}' || c == '阮' || c == '甲'
}
pub fn is_hak_marker(c: char) -> (b: bool)
    ensures
        b == spec_is_hak_marker(c),
{
    c == '\u{2828E}' || c == '𢲷'
}
pub fn is_wuu_marker(c: char) -> (b: bool)
    ensures
        b == spec_is_wuu_marker(c),
{
    c == '儂' || c == '弗' || c == '勿'
}
fn is_vi_marker(c: char) -> (b: bool)
    ensures
        b == spec_is_vi_marker(c),
{
    let cp = c as u32;
    (0x1E00 <= cp && cp <= 0x1EFF) || c == 'ă' || c == 'Ă' || c == 'đ' || c == 'Đ' || c == 'ơ'
        || c == 'Ơ' || c == 'ư' || c == 'Ư'
}

pub fn is_vi_marker_char(c: char) -> (b: bool)
    ensures
        b == spec_is_vi_marker(c),
{
    is_vi_marker(c)
}

pub fn is_fr_marker_char(c: char) -> (b: bool)
    ensures
        b == spec_is_fr_marker(c),
{
    c == 'ç' || c == 'Ç' || c == 'œ' || c == 'Œ' || c == 'æ' || c == 'Æ'
}

pub fn is_hant_only_char(c: char) -> (b: bool)
    ensures
        b == spec_is_hant_only(c),
{
    is_hant_only(c)
}

pub fn is_hant_hk_marker_char(c: char) -> (b: bool)
    ensures
        b == spec_is_hant_hk_marker(c),
{
    is_hant_hk_marker(c)
}

pub fn is_hant_tw_marker_char(c: char) -> (b: bool)
    ensures
        b == spec_is_hant_tw_marker(c),
{
    is_hant_tw_marker(c)
}

/// Marker counts of an input.
#[derive(Debug, Clone, Default)]
pub struct OrthoSignals {
    pub vi_markers: usize,
    pub fr_markers: usize,
    pub hans_markers: usize,
    pub hant_markers: usize,
    /// Cantonese-only Han characters.
    pub yue_markers: usize,
    /// Classical Chinese function-word characters.
    pub lzh_markers: usize,
    /// Hong Kong written-Chinese characters.
    pub hant_hk_markers: usize,
    /// Taiwan-preferred Traditional forms.
    pub hant_tw_markers: usize,
    /// Min Nan diagnostic characters.
    pub nan_markers: usize,
    /// Hakka diagnostic characters.
    pub hak_markers: usize,
    /// Wu diagnostic characters.
    pub wuu_markers: usize,
}

pub open spec fn vi_pred() -> spec_fn(char) -> bool {
    |c: char| is_latin(c) && spec_is_vi_marker(c)
}

pub open spec fn fr_pred() -> spec_fn(char) -> bool {
    |c: char| is_latin(c) && spec_is_fr_marker(c)
}
pub open spec fn hans_only_pred() -> spec_fn(char) -> bool {
    |c: char| spec_is_hans_only(c)
}
pub open spec fn hant_only_pred() -> spec_fn(char) -> bool {
    |c: char| spec_is_hant_only(c)
}
pub open spec fn yue_marker_pred() -> spec_fn(char) -> bool {
    |c: char| spec_is_yue_marker(c)
}
pub open spec fn lzh_marker_pred() -> spec_fn(char) -> bool {
    |c: char| spec_is_lzh_marker(c)
}
pub open spec fn hant_hk_marker_pred() -> spec_fn(char) -> bool {
    |c: char| spec_is_hant_hk_marker(c)
}
pub open spec fn hant_tw_marker_pred() -> spec_fn(char) -> bool {
    |c: char| spec_is_hant_tw_marker(c)
}
pub open spec fn nan_marker_pred() -> spec_fn(char) -> bool {
    |c: char| spec_is_nan_marker(c)
}
pub open spec fn hak_marker_pred() -> spec_fn(char) -> bool {
    |c: char| spec_is_hak_marker(c)
}
pub open spec fn wuu_marker_pred() -> spec_fn(char) -> bool {
    |c: char| spec_is_wuu_marker(c)
}
impl OrthoSignals {
    /// Each field counts the characters of `s` carrying that marker.
    pub open spec fn counts_of(self, s: Seq<char>) -> bool {
        &&& self.vi_markers == count_where(s, vi_pred())
        &&& self.fr_markers == count_where(s, fr_pred())
        &&& self.hans_markers == count_where(s, hans_only_pred())
        &&& self.hant_markers == count_where(s, hant_only_pred())
        &&& self.yue_markers == count_where(s, yue_marker_pred())
        &&& self.lzh_markers == count_where(s, lzh_marker_pred())
        &&& self.hant_hk_markers == count_where(s, hant_hk_marker_pred())
        &&& self.hant_tw_markers == count_where(s, hant_tw_marker_pred())
        &&& self.nan_markers == count_where(s, nan_marker_pred())
        &&& self.hak_markers == count_where(s, hak_marker_pred())
        &&& self.wuu_markers == count_where(s, wuu_marker_pred())
    }
}
/// Marker counts over the normalized input.
pub fn detect(input: &Normalized) -> (sig: OrthoSignals)
    ensures
        sig.counts_of(input.chars@),
{
    detect_chars(input.chars.as_slice())
}

/// Marker counts over a slice of characters.
pub fn detect_chars(chars: &[char]) -> (sig: OrthoSignals)
    ensures
        sig.counts_of(chars@),
{
    let mut sig = OrthoSignals {
        vi_markers: 0,
        fr_markers: 0,
        hans_markers: 0,
        hant_markers: 0,
        yue_markers: 0,
        lzh_markers: 0,
        hant_hk_markers: 0,
        hant_tw_markers: 0,
        nan_markers: 0,
        hak_markers: 0,
        wuu_markers: 0,
    };
    let mut i: usize = 0;
    assert(chars@.take(0) =~= Seq::<char>::empty());
    while i < chars.len()
        invariant
            i <= chars.len(),
            sig.counts_of(chars@.take(i as int)),
        decreases chars.len() - i,
    {
        let c = chars[i];
        proof {
            lemma_count_where_step(chars@, vi_pred(), i as int);
            lemma_count_where_bound(chars@.take(i as int), vi_pred());
            lemma_count_where_step(chars@, fr_pred(), i as int);
            lemma_count_where_bound(chars@.take(i as int), fr_pred());
            lemma_count_where_step(chars@, hans_only_pred(), i as int);
            lemma_count_where_bound(chars@.take(i as int), hans_only_pred());
            lemma_count_where_step(chars@, hant_only_pred(), i as int);
            lemma_count_where_bound(chars@.take(i as int), hant_only_pred());
            lemma_count_where_step(chars@, yue_marker_pred(), i as int);
            lemma_count_where_bound(chars@.take(i as int), yue_marker_pred());
            lemma_count_where_step(chars@, lzh_marker_pred(), i as int);
            lemma_count_where_bound(chars@.take(i as int), lzh_marker_pred());
            lemma_count_where_step(chars@, hant_hk_marker_pred(), i as int);
            lemma_count_where_bound(chars@.take(i as int), hant_hk_marker_pred());
            lemma_count_where_step(chars@, hant_tw_marker_pred(), i as int);
            lemma_count_where_bound(chars@.take(i as int), hant_tw_marker_pred());
            lemma_count_where_step(chars@, nan_marker_pred(), i as int);
            lemma_count_where_bound(chars@.take(i as int), nan_marker_pred());
            lemma_count_where_step(chars@, hak_marker_pred(), i as int);
            lemma_count_where_bound(chars@.take(i as int), hak_marker_pred());
            lemma_count_where_step(chars@, wuu_marker_pred(), i as int);
            lemma_count_where_bound(chars@.take(i as int), wuu_marker_pred());
        }
        let latin = classify(c) == Script::Latin;
        if latin && is_vi_marker(c) {
            sig.vi_markers = sig.vi_markers + 1;
        }
        if latin && is_fr_marker_char(c) {
            sig.fr_markers = sig.fr_markers + 1;
        }
        if is_hans_only(c) {
            sig.hans_markers = sig.hans_markers + 1;
        }
        if is_hant_only(c) {
            sig.hant_markers = sig.hant_markers + 1;
        }
        if is_yue_marker(c) {
            sig.yue_markers = sig.yue_markers + 1;
        }
        if is_lzh_marker(c) {
            sig.lzh_markers = sig.lzh_markers + 1;
        }
        if is_hant_hk_marker(c) {
            sig.hant_hk_markers = sig.hant_hk_markers + 1;
        }
        if is_hant_tw_marker(c) {
            sig.hant_tw_markers = sig.hant_tw_markers + 1;
        }
        if is_nan_marker(c) {
            sig.nan_markers = sig.nan_markers + 1;
        }
        if is_hak_marker(c) {
            sig.hak_markers = sig.hak_markers + 1;
        }
        if is_wuu_marker(c) {
            sig.wuu_markers = sig.wuu_markers + 1;
        }
        i += 1;
    }
    assert(chars@.take(chars.len() as int) =~= chars@);
    sig
}

/// Whether `text` holds a Cantonese-only character.
pub fn has_yue_marker(text: &str) -> (b: bool)
    ensures
        b == any_where(text@, yue_marker_pred()),
{
    let chars = str_chars(text);
    let mut i: usize = 0;
    while i < chars.len()
        invariant
            i <= chars.len(),
            chars@ == text@,
            forall|k: int| 0 <= k < i ==> !spec_is_yue_marker(#[trigger] chars@[k]),
        decreases chars.len() - i,
    {
        if is_yue_marker(chars[i]) {
            assert(yue_marker_pred()(text@[i as int]));
            return true;
        }
        i += 1;
    }
    false
}

pub open spec fn han_pred() -> spec_fn(char) -> bool {
    |c: char| is_han(c)
}

pub open spec fn han_lzh_pred() -> spec_fn(char) -> bool {
    |c: char| is_han(c) && spec_is_lzh_marker(c)
}

/// Classical density: at least four Han characters, at least three of
/// them Classical function words.
pub open spec fn spec_is_classical(s: Seq<char>) -> bool {
    count_where(s, han_pred()) >= 4 && count_where(s, han_lzh_pred()) >= 3
}

/// Whether `text` reads as Classical / Literary Chinese.
pub fn is_classical_chinese(text: &str) -> (b: bool)
    ensures
        b == spec_is_classical(text@),
{
    let chars = str_chars(text);
    let mut han_chars: usize = 0;
    let mut lzh_hits: usize = 0;
    let mut i: usize = 0;
    assert(chars@.take(0) =~= Seq::<char>::empty());
    while i < chars.len()
        invariant
            i <= chars.len(),
            han_chars == count_where(chars@.take(i as int), han_pred()),
            lzh_hits == count_where(chars@.take(i as int), han_lzh_pred()),
        decreases chars.len() - i,
    {
        proof {
            lemma_count_where_step(chars@, han_pred(), i as int);
            lemma_count_where_step(chars@, han_lzh_pred(), i as int);
            lemma_count_where_bound(chars@.take(i as int), han_pred());
            lemma_count_where_bound(chars@.take(i as int), han_lzh_pred());
        }
        let c = chars[i];
        if classify(c) == Script::Han {
            han_chars = han_chars + 1;
            if is_lzh_marker(c) {
                lzh_hits = lzh_hits + 1;
            }
        }
        i += 1;
    }
    assert(chars@.take(chars.len() as int) =~= chars@);
    han_chars >= 4 && lzh_hits >= 3
}

/// No letter is both a Vietnamese and a French marker.
pub proof fn lemma_fr_vi_disjoint(c: char)
    ensures
        !(spec_is_vi_marker(c) && spec_is_fr_marker(c)),
{
}

} // verus!
