//! Per-character language attribution grouped into segments of the
//! normalized text.

use vstd::prelude::*;
use crate::layers::morphology::LatinAttribution;
use crate::layers::normalize::{byte_offset, is_punctuation, spec_is_punctuation, Normalized};
use crate::layers::orthography::{
    detect_chars, hans_only_pred, hant_hk_marker_pred, hant_only_pred, hant_tw_marker_pred,
    is_fr_marker_char, is_vi_marker_char, lzh_marker_pred, spec_is_fr_marker, spec_is_vi_marker,
    yue_marker_pred, OrthoSignals,
};
use crate::layers::script::{classify, is_han, script_of, Script};
use crate::types::Segment;
use crate::text::{
    byte_len, copy_range, count_where, is_whitespace, lemma_byte_len_mono, lemma_byte_len_split, lemma_count_where_bound,
    lemma_count_where_step, spec_is_whitespace, str_chars, str_eq, string_from_chars,
};

verus! {

/// How Han characters are attributed.
#[derive(Debug, Clone, Copy, PartialEq, Eq, Structural)]
pub enum HanStrategy {
    /// Kana is present: Han goes to Japanese.
    JapaneseClaimsHan,
    /// Han goes to Simplified Chinese.
    HansPreferred,
    /// Han goes to Traditional Chinese.
    HantPreferred,
    /// Han goes to Hong Kong Traditional Chinese.
    HantHkPreferred,
    /// Han goes to Taiwan Traditional Chinese.
    HantTwPreferred,
    /// Han goes to Cantonese.
    CantonesePreferred,
    /// Han goes to Classical Chinese.
    ClassicalPreferred,
    /// No markers and no kana: Han goes to the umbrella `zh`.
    HanAmbiguous,
}

/// The tag Han characters get under `h`.
pub open spec fn han_tag(h: HanStrategy) -> Seq<char> {
    match h {
        HanStrategy::JapaneseClaimsHan => "ja"@,
        HanStrategy::HansPreferred => "zh-Hans"@,
        HanStrategy::HantPreferred => "zh-Hant"@,
        HanStrategy::HantHkPreferred => "zh-Hant-HK"@,
        HanStrategy::HantTwPreferred => "zh-Hant-TW"@,
        HanStrategy::CantonesePreferred => "yue"@,
        HanStrategy::ClassicalPreferred => "lzh"@,
        HanStrategy::HanAmbiguous => "zh"@,
    }
}

fn han_tag_exec(h: HanStrategy) -> (t: &'static str)
    ensures
        t@ == han_tag(h),
{
    match h {
        HanStrategy::JapaneseClaimsHan => "ja",
        HanStrategy::HansPreferred => "zh-Hans",
        HanStrategy::HantPreferred => "zh-Hant",
        HanStrategy::HantHkPreferred => "zh-Hant-HK",
        HanStrategy::HantTwPreferred => "zh-Hant-TW",
        HanStrategy::CantonesePreferred => "yue",
        HanStrategy::ClassicalPreferred => "lzh",
        HanStrategy::HanAmbiguous => "zh",
    }
}

pub open spec fn spec_is_ascii_alphabetic(c: char) -> bool {
    ('a' <= c && c <= 'z') || ('A' <= c && c <= 'Z')
}

/// The language of one character on its own: kana is Japanese, Hangul
/// Korean, Han per the strategy; a Latin letter is Vietnamese or French
/// by its own marker, an ASCII letter French only in a text with French
/// and no Vietnamese markers, another Latin letter follows the markers
/// of the text (Vietnamese first); other characters have none.
pub open spec fn char_language(c: char, vi_markers: nat, fr_markers: nat, han: HanStrategy) -> Option<
    Seq<char>,
> {
    match script_of(c) {
        Script::Hiragana | Script::Katakana => Some("ja"@),
        Script::Hangul => Some("ko"@),
        Script::Han => Some(han_tag(han)),
        Script::Latin => if spec_is_vi_marker(c) {
            Some("vi"@)
        } else if spec_is_fr_marker(c) {
            Some("fr"@)
        } else if spec_is_ascii_alphabetic(c) {
            if fr_markers > 0 && vi_markers == 0 {
                Some("fr"@)
            } else {
                Some("en"@)
            }
        } else if vi_markers > 0 {
            Some("vi"@)
        } else if fr_markers > 0 {
            Some("fr"@)
        } else {
            Some("en"@)
        },
        Script::Other => None,
    }
}

fn attribute(c: char, ortho: &OrthoSignals, han: HanStrategy) -> (r: Option<&'static str>)
    ensures
        match r {
            Some(l) => char_language(c, ortho.vi_markers as nat, ortho.fr_markers as nat, han) == Some(l@),
            None => char_language(c, ortho.vi_markers as nat, ortho.fr_markers as nat, han) is None,
        },
{
    match classify(c) {
        Script::Hiragana | Script::Katakana => Some("ja"),
        Script::Hangul => Some("ko"),
        Script::Han => Some(han_tag_exec(han)),
        Script::Latin => {
            if is_vi_marker_char(c) {
                Some("vi")
            } else if is_fr_marker_char(c) {
                Some("fr")
            } else if ('a' <= c && c <= 'z') || ('A' <= c && c <= 'Z') {
                if ortho.fr_markers > 0 && ortho.vi_markers == 0 {
                    Some("fr")
                } else {
                    Some("en")
                }
            } else if ortho.vi_markers > 0 {
                Some("vi")
            } else if ortho.fr_markers > 0 {
                Some("fr")
            } else {
                Some("en")
            }
        },
        Script::Other => None,
    }
}

/// A Han run whose strategy replaces the global one for that run only.
/// `start` and `end` are character indices.
#[derive(Debug, Clone, Copy)]
struct HanRunOverride {
    start: usize,
    end: usize,
    strategy: HanStrategy,
}

/// The strategy a run `t` of Han (with punctuation, whitespace and
/// Latin riding along) takes locally: none without Han or without
/// Chinese-only markers, or when Simplified and Traditional markers mix.
pub open spec fn run_override(t: Seq<char>) -> Option<HanStrategy> {
    let hans = count_where(t, hans_only_pred());
    let hant = count_where(t, hant_only_pred());
    let yue = count_where(t, yue_marker_pred());
    let lzh = count_where(t, lzh_marker_pred());
    let hk = count_where(t, hant_hk_marker_pred());
    let tw = count_where(t, hant_tw_marker_pred());
    let han = count_where(t, han_in_run());
    if han == 0 {
        None
    } else if hans + hant + yue + lzh + hk + tw == 0 {
        None
    } else if yue > 0 {
        Some(HanStrategy::CantonesePreferred)
    } else if lzh >= 3 && han >= 4 {
        Some(HanStrategy::ClassicalPreferred)
    } else if hk > 0 && tw == 0 {
        Some(HanStrategy::HantHkPreferred)
    } else if tw > 0 && hk == 0 {
        Some(HanStrategy::HantTwPreferred)
    } else if hant > 0 && hans == 0 {
        Some(HanStrategy::HantPreferred)
    } else if hans > 0 && hant == 0 {
        Some(HanStrategy::HansPreferred)
    } else {
        None
    }
}

pub open spec fn han_in_run() -> spec_fn(char) -> bool {
    |c: char| is_han(c)
}

fn count_han(t: &Vec<char>) -> (n: usize)
    ensures
        n == count_where(t@, han_in_run()),
{
    let mut n: usize = 0;
    let mut i: usize = 0;
    assert(t@.take(0) =~= Seq::<char>::empty());
    while i < t.len()
        invariant
            i <= t.len(),
            n <= i,
            n == count_where(t@.take(i as int), han_in_run()),
        decreases t.len() - i,
    {
        proof {
            lemma_count_where_step(t@, han_in_run(), i as int);
        }
        if classify(t[i]) == Script::Han {
            n = n + 1;
        }
        i += 1;
    }
    assert(t@.take(t.len() as int) =~= t@);
    n
}

fn try_override(t: &Vec<char>) -> (r: Option<HanStrategy>)
    ensures
        r == run_override(t@),
{
    let han = count_han(t);
    if han == 0 {
        return None;
    }
    let sig = detect_chars(t.as_slice());
    if sig.hans_markers == 0 && sig.hant_markers == 0 && sig.yue_markers == 0 && sig.lzh_markers
        == 0 && sig.hant_hk_markers == 0 && sig.hant_tw_markers == 0 {
        return None;
    }
    if sig.yue_markers > 0 {
        Some(HanStrategy::CantonesePreferred)
    } else if sig.lzh_markers >= 3 && han >= 4 {
        Some(HanStrategy::ClassicalPreferred)
    } else if sig.hant_hk_markers > 0 && sig.hant_tw_markers == 0 {
        Some(HanStrategy::HantHkPreferred)
    } else if sig.hant_tw_markers > 0 && sig.hant_hk_markers == 0 {
        Some(HanStrategy::HantTwPreferred)
    } else if sig.hant_markers > 0 && sig.hans_markers == 0 {
        Some(HanStrategy::HantPreferred)
    } else if sig.hans_markers > 0 && sig.hant_markers == 0 {
        Some(HanStrategy::HansPreferred)
    } else {
        None
    }
}

/// Whether `c` ends a Han run: a run holds Han characters,
/// whitespace and punctuation only, so any other character (kana,
/// Hangul, Latin letters, digits, symbols) closes it.
pub open spec fn breaks_run(c: char) -> bool {
    !(is_han(c) || spec_is_whitespace(c) || spec_is_punctuation(c))
}

fn breaks_run_exec(c: char) -> (b: bool)
    ensures
        b == breaks_run(c),
{
    !(classify(c) == Script::Han || is_whitespace(c) || is_punctuation(c))
}

/// The candidate Han runs of `s` from index `i` on, the current run
/// having begun at `start` (`-1` for none): a run opens at a Han
/// character and closes before the next character that is neither Han,
/// whitespace nor punctuation, or at the end.
pub open spec fn run_candidates(s: Seq<char>, i: int, start: int) -> Seq<(int, int)>
    decreases s.len() - i,
{
    if i >= s.len() {
        if start >= 0 {
            seq![(start, s.len() as int)]
        } else {
            Seq::empty()
        }
    } else if breaks_run(s[i]) {
        (if start >= 0 {
            seq![(start, i)]
        } else {
            Seq::empty()
        }) + run_candidates(s, i + 1, -1)
    } else if is_han(s[i]) && start < 0 {
        run_candidates(s, i + 1, i)
    } else {
        run_candidates(s, i + 1, start)
    }
}

/// The candidates among `c` that take a local strategy, with it.
pub open spec fn overrides_of(s: Seq<char>, c: Seq<(int, int)>) -> Seq<(int, int, HanStrategy)>
    decreases c.len(),
{
    if c.len() == 0 {
        Seq::empty()
    } else {
        let prev = overrides_of(s, c.drop_last());
        let (a, b) = c.last();
        match run_override(s.subrange(a, b)) {
            Some(h) => prev.push((a, b, h)),
            None => prev,
        }
    }
}

/// The local overrides of the global strategy: only when the global
/// strategy gives Han to Japanese.
pub open spec fn han_overrides(s: Seq<char>, global: HanStrategy) -> Seq<(int, int, HanStrategy)> {
    if global == HanStrategy::JapaneseClaimsHan {
        overrides_of(s, run_candidates(s, 0, -1))
    } else {
        Seq::empty()
    }
}

spec fn override_views(v: Seq<HanRunOverride>) -> Seq<(int, int, HanStrategy)> {
    v.map_values(|o: HanRunOverride| (o.start as int, o.end as int, o.strategy))
}

/// `s[a..b]` is a Han run: it starts with a Han character and holds
/// only Han characters, whitespace and punctuation.
pub open spec fn is_han_run(s: Seq<char>, a: int, b: int) -> bool {
    &&& 0 <= a < b <= s.len()
    &&& is_han(s[a])
    &&& forall|j: int| a <= j < b ==> !breaks_run(#[trigger] s[j])
}

proof fn lemma_run_candidates_ok(s: Seq<char>, i: int, start: int)
    requires
        0 <= i <= s.len(),
        -1 <= start < i,
        start >= 0 ==> is_han(s[start]) && forall|j: int| start <= j < i ==> !breaks_run(#[trigger] s[j]),
    ensures
        forall|k: int|
            0 <= k < run_candidates(s, i, start).len() ==> is_han_run(
                s,
                (#[trigger] run_candidates(s, i, start)[k]).0,
                run_candidates(s, i, start)[k].1,
            ) && (if start >= 0 { start } else { i }) <= run_candidates(s, i, start)[k].0,
        forall|x: int, y: int|
            0 <= x < y < run_candidates(s, i, start).len() ==> #[trigger] run_candidates(
                s,
                i,
                start,
            )[x].1 <= #[trigger] run_candidates(s, i, start)[y].0,
    decreases s.len() - i,
{
    let c = run_candidates(s, i, start);
    if i >= s.len() {
        if start >= 0 {
            assert(c == seq![(start, s.len() as int)]);
            assert(is_han_run(s, start, s.len() as int));
        }
    } else if breaks_run(s[i]) {
        lemma_run_candidates_ok(s, i + 1, -1);
        let head: Seq<(int, int)> = if start >= 0 {
            seq![(start, i)]
        } else {
            Seq::empty()
        };
        let rest = run_candidates(s, i + 1, -1);
        assert(c == head + rest);
        assert forall|k: int| 0 <= k < c.len() implies is_han_run(s, (#[trigger] c[k]).0, c[k].1) && (
        if start >= 0 { start } else { i }) <= c[k].0 by {
            if k >= head.len() {
                assert(c[k] == rest[k - head.len()]);
            }
        }
        assert forall|x: int, y: int| 0 <= x < y < c.len() implies #[trigger] c[x].1
            <= #[trigger] c[y].0 by {
            assert(c[y] == rest[y - head.len()]);
            if x >= head.len() {
                assert(c[x] == rest[x - head.len()]);
            }
        }
    } else if is_han(s[i]) && start < 0 {
        assert forall|j: int| i <= j < i + 1 implies !breaks_run(#[trigger] s[j]) by {
            assert(j == i);
        }
        lemma_run_candidates_ok(s, i + 1, i);
        assert(c == run_candidates(s, i + 1, i));
    } else {
        if start >= 0 {
            assert forall|j: int| start <= j < i + 1 implies !breaks_run(#[trigger] s[j]) by {
                if j == i {
                    assert(!breaks_run(s[i]));
                }
            }
        }
        lemma_run_candidates_ok(s, i + 1, start);
        assert(c == run_candidates(s, i + 1, start));
    }
}

proof fn lemma_overrides_of_ok(s: Seq<char>, c: Seq<(int, int)>)
    requires
        forall|k: int| 0 <= k < c.len() ==> is_han_run(s, (#[trigger] c[k]).0, c[k].1),
        forall|x: int, y: int| 0 <= x < y < c.len() ==> #[trigger] c[x].1 <= #[trigger] c[y].0,
    ensures
        forall|k: int|
            0 <= k < overrides_of(s, c).len() ==> is_han_run(
                s,
                (#[trigger] overrides_of(s, c)[k]).0,
                overrides_of(s, c)[k].1,
            ) && run_override(s.subrange(overrides_of(s, c)[k].0, overrides_of(s, c)[k].1))
                == Some(overrides_of(s, c)[k].2),
        forall|x: int, y: int|
            0 <= x < y < overrides_of(s, c).len() ==> #[trigger] overrides_of(s, c)[x].1
                <= #[trigger] overrides_of(s, c)[y].0,
        forall|k: int|
            0 <= k < overrides_of(s, c).len() ==> exists|j: int|
                0 <= j < c.len() && #[trigger] overrides_of(s, c)[k].1 == c[j].1,
    decreases c.len(),
{
    if c.len() > 0 {
        let init = c.drop_last();
        assert forall|k: int| 0 <= k < init.len() implies is_han_run(s, (#[trigger] init[k]).0, init[k].1) by {
            assert(init[k] == c[k]);
        }
        assert forall|x: int, y: int| 0 <= x < y < init.len() implies #[trigger] init[x].1
            <= #[trigger] init[y].0 by {
            assert(init[x] == c[x]);
            assert(init[y] == c[y]);
        }
        lemma_overrides_of_ok(s, init);
        let prev = overrides_of(s, init);
        let r = overrides_of(s, c);
        let last = c.len() - 1;
        assert(c.last() == c[last]);
        let (a, b) = c.last();
        match run_override(s.subrange(a, b)) {
            Some(h) => {
                assert(r == prev.push((a, b, h)));
                assert forall|k: int| 0 <= k < r.len() implies is_han_run(s, (#[trigger] r[k]).0, r[k].1)
                    && run_override(s.subrange(r[k].0, r[k].1)) == Some(r[k].2) by {
                    if k < prev.len() {
                        assert(r[k] == prev[k]);
                    }
                }
                assert forall|x: int, y: int| 0 <= x < y < r.len() implies #[trigger] r[x].1
                    <= #[trigger] r[y].0 by {
                    assert(r[x] == prev[x]);
                    if y < prev.len() {
                        assert(r[y] == prev[y]);
                    } else {
                        let q = choose|q: int| 0 <= q < init.len() && #[trigger] prev[x].1 == init[q].1;
                        assert(init[q] == c[q]);
                        assert(c[q].1 <= c[last].0);
                    }
                }
                assert forall|k: int| 0 <= k < r.len() implies exists|j: int|
                    0 <= j < c.len() && #[trigger] r[k].1 == c[j].1 by {
                    if k < prev.len() {
                        assert(r[k] == prev[k]);
                        let q = choose|q: int| 0 <= q < init.len() && #[trigger] prev[k].1 == init[q].1;
                        assert(init[q] == c[q]);
                    } else {
                        assert(r[k].1 == c[last].1);
                    }
                }
            },
            None => {
                assert(r == prev);
                assert forall|k: int| 0 <= k < r.len() implies exists|j: int|
                    0 <= j < c.len() && #[trigger] r[k].1 == c[j].1 by {
                    let q = choose|q: int| 0 <= q < init.len() && #[trigger] prev[k].1 == init[q].1;
                    assert(init[q] == c[q]);
                }
            },
        }
    }
}

/// The local overrides exist only when Han goes to Japanese; each covers
/// a Han run (Han characters, whitespace and punctuation only, starting
/// with Han) whose own markers pick its strategy; they are in order and
/// disjoint.
pub proof fn lemma_han_overrides_shape(s: Seq<char>, global: HanStrategy)
    ensures
        global != HanStrategy::JapaneseClaimsHan ==> han_overrides(s, global).len() == 0,
        forall|k: int|
            0 <= k < han_overrides(s, global).len() ==> is_han_run(
                s,
                (#[trigger] han_overrides(s, global)[k]).0,
                han_overrides(s, global)[k].1,
            ) && run_override(
                s.subrange(han_overrides(s, global)[k].0, han_overrides(s, global)[k].1),
            ) == Some(han_overrides(s, global)[k].2),
        forall|x: int, y: int|
            0 <= x < y < han_overrides(s, global).len() ==> #[trigger] han_overrides(s, global)[x].1
                <= #[trigger] han_overrides(s, global)[y].0,
{
    lemma_run_candidates_ok(s, 0, -1);
    lemma_overrides_of_ok(s, run_candidates(s, 0, -1));
}

/// Find the Han runs whose local strategy replaces the global one.
fn han_run_overrides(input: &Normalized, global: HanStrategy) -> (r: Vec<HanRunOverride>)
    requires
        input.wf(),
    ensures
        override_views(r@) == han_overrides(input.chars@, global),
{
    let mut out: Vec<HanRunOverride> = Vec::new();
    if global != HanStrategy::JapaneseClaimsHan {
        assert(override_views(out@) =~= Seq::<(int, int, HanStrategy)>::empty());
        return out;
    }
    let s = &input.chars;
    let ghost sv = s@;
    let ghost mut done: Seq<(int, int)> = Seq::empty();
    let mut run_start: usize = 0;
    let mut in_run = false;
    let mut i: usize = 0;
    assert(override_views(out@) =~= Seq::<(int, int, HanStrategy)>::empty());
    assert(done + run_candidates(sv, 0, -1) =~= run_candidates(sv, 0, -1));
    while i < s.len()
        invariant
            i <= s.len(),
            s == &input.chars,
            sv == s@,
            in_run ==> run_start < i,
            done + run_candidates(sv, i as int, if in_run { run_start as int } else { -1 })
                == run_candidates(sv, 0, -1),
            override_views(out@) == overrides_of(sv, done),
        decreases s.len() - i,
    {
        if breaks_run_exec(s[i]) {
            if in_run {
                let t = copy_range(s, run_start, i);
                let ghost span = (run_start as int, i as int);
                let ghost nd = done.push(span);
                assert(nd.drop_last() =~= done);
                assert(done + (seq![span] + run_candidates(sv, i + 1, -1)) =~= nd + run_candidates(sv, i + 1, -1));
                let ghost prev = overrides_of(sv, done);
                match try_override(&t) {
                    Some(h) => {
                        out.push(HanRunOverride { start: run_start, end: i, strategy: h });
                        assert(override_views(out@) =~= prev.push((run_start as int, i as int, h)));
                    },
                    None => {},
                }
                proof {
                    done = nd;
                }
                in_run = false;
            } else {
                assert(done + (Seq::<(int, int)>::empty() + run_candidates(sv, i + 1, -1)) =~= done + run_candidates(sv, i + 1, -1));
            }
        } else if classify(s[i]) == Script::Han && !in_run {
            run_start = i;
            in_run = true;
        }
        i += 1;
    }
    if in_run {
        let t = copy_range(s, run_start, s.len());
        let ghost span = (run_start as int, s.len() as int);
        let ghost nd = done.push(span);
        assert(nd.drop_last() =~= done);
        assert(done + seq![span] =~= nd);
        let ghost prev = overrides_of(sv, done);
        match try_override(&t) {
            Some(h) => {
                out.push(HanRunOverride { start: run_start, end: s.len(), strategy: h });
                assert(override_views(out@) =~= prev.push((run_start as int, s.len() as int, h)));
            },
            None => {},
        }
        proof {
            done = nd;
        }
    } else {
        assert(done + Seq::<(int, int)>::empty() =~= done);
    }
    out
}

/// `j` is the first range of `r`, in list order, that ends after
/// position `i`.
pub open spec fn first_ending_after(r: Seq<(int, int)>, i: int, j: int) -> bool {
    &&& 0 <= j < r.len()
    &&& r[j].1 > i
    &&& forall|k: int| 0 <= k < j ==> #[trigger] r[k].1 <= i
}

/// The range position `i` falls in: the first range that ends after
/// `i`, when that range starts at or before `i`.
pub open spec fn covering(r: Seq<(int, int)>, i: int) -> Option<int> {
    if exists|j: int| first_ending_after(r, i, j) {
        let j = choose|j: int| first_ending_after(r, i, j);
        if r[j].0 <= i {
            Some(j)
        } else {
            None
        }
    } else {
        None
    }
}

proof fn lemma_first_ending_after_unique(r: Seq<(int, int)>, i: int, j1: int, j2: int)
    requires
        first_ending_after(r, i, j1),
        first_ending_after(r, i, j2),
    ensures
        j1 == j2,
{
    if j1 < j2 {
        assert(r[j1].1 <= i);
    } else if j2 < j1 {
        assert(r[j2].1 <= i);
    }
}

/// With `c` ranges all ending at or before `i`, and the next one (if
/// any) ending after it, `covering` is decided by range `c`.
proof fn lemma_covering_at(r: Seq<(int, int)>, i: int, c: int)
    requires
        0 <= c <= r.len(),
        forall|k: int| 0 <= k < c ==> #[trigger] r[k].1 <= i,
        c < r.len() ==> r[c].1 > i,
    ensures
        covering(r, i) == if c < r.len() && r[c].0 <= i {
            Some(c)
        } else {
            None::<int>
        },
{
    if c < r.len() {
        assert(first_ending_after(r, i, c));
        let j = choose|j: int| first_ending_after(r, i, j);
        lemma_first_ending_after_unique(r, i, j, c);
    } else {
        assert(!exists|j: int| first_ending_after(r, i, j)) by {
            if exists|j: int| first_ending_after(r, i, j) {
                let j = choose|j: int| first_ending_after(r, i, j);
                assert(r[j].1 <= i);
            }
        }
    }
}

pub open spec fn attribution_ranges(a: Seq<LatinAttribution>) -> Seq<(int, int)> {
    a.map_values(|x: LatinAttribution| (x.start as int, x.end as int))
}

pub open spec fn override_ranges(o: Seq<(int, int, HanStrategy)>) -> Seq<(int, int)> {
    o.map_values(|x: (int, int, HanStrategy)| (x.0, x.1))
}

/// The language of position `i` of `s`: a Latin letter inside an
/// attributed word takes the word's language; any other character its
/// own, with Han under the local strategy of its run where one applies.
pub open spec fn position_language(
    s: Seq<char>,
    vi_markers: nat,
    fr_markers: nat,
    global: HanStrategy,
    attrs: Seq<LatinAttribution>,
    i: int,
) -> Option<Seq<char>> {
    let ovs = han_overrides(s, global);
    let h = match covering(override_ranges(ovs), i) {
        Some(j) => ovs[j].2,
        None => global,
    };
    match covering(attribution_ranges(attrs), i) {
        Some(j) => if script_of(s[i]) == Script::Latin {
            Some(attrs[j].language@)
        } else {
            char_language(s[i], vi_markers, fr_markers, h)
        },
        None => char_language(s[i], vi_markers, fr_markers, h),
    }
}

pub open spec fn opt_view(o: Option<&'static str>) -> Option<Seq<char>> {
    match o {
        Some(l) => Some(l@),
        None => None,
    }
}

/// The language of every position of the input.
fn position_languages(
    input: &Normalized,
    ortho: &OrthoSignals,
    global: HanStrategy,
    attrs: &Vec<LatinAttribution>,
) -> (r: Vec<Option<&'static str>>)
    requires
        input.wf(),
    ensures
        r.len() == input.chars.len(),
        forall|i: int|
            0 <= i < r.len() ==> opt_view(#[trigger] r@[i]) == position_language(
                input.chars@,
                ortho.vi_markers as nat,
                ortho.fr_markers as nat,
                global,
                attrs@,
                i,
            ),
{
    let s = &input.chars;
    let ghost sv = s@;
    let overrides = han_run_overrides(input, global);
    let ghost ovs = han_overrides(sv, global);
    let ghost orr = override_ranges(ovs);
    let ghost ar = attribution_ranges(attrs@);
    let mut r: Vec<Option<&'static str>> = Vec::new();
    let mut attr_idx: usize = 0;
    let mut over_idx: usize = 0;
    let mut i: usize = 0;
    while i < s.len()
        invariant
            i <= s.len(),
            s == &input.chars,
            sv == s@,
            override_views(overrides@) == ovs,
            ovs == han_overrides(sv, global),
            orr == override_ranges(ovs),
            ar == attribution_ranges(attrs@),
            r.len() == i,
            forall|k: int| 0 <= k < attr_idx ==> #[trigger] ar[k].1 <= i,
            forall|k: int| 0 <= k < over_idx ==> #[trigger] orr[k].1 <= i,
            attr_idx <= attrs.len(),
            over_idx <= overrides.len(),
            forall|k: int|
                0 <= k < i ==> opt_view(#[trigger] r@[k]) == position_language(
                    sv,
                    ortho.vi_markers as nat,
                    ortho.fr_markers as nat,
                    global,
                    attrs@,
                    k,
                ),
        decreases s.len() - i,
    {
        while attr_idx < attrs.len() && attrs[attr_idx].end <= i
            invariant
                attr_idx <= attrs.len(),
                i < s.len(),
                ar == attribution_ranges(attrs@),
                forall|k: int| 0 <= k < attr_idx ==> #[trigger] ar[k].1 <= i,
            decreases attrs.len() - attr_idx,
        {
            attr_idx += 1;
        }
        while over_idx < overrides.len() && overrides[over_idx].end <= i
            invariant
                over_idx <= overrides.len(),
                i < s.len(),
                override_views(overrides@) == ovs,
                orr == override_ranges(ovs),
                forall|k: int| 0 <= k < over_idx ==> #[trigger] orr[k].1 <= i,
            decreases overrides.len() - over_idx,
        {
            assert(orr[over_idx as int] == (overrides@[over_idx as int].start as int, overrides@[over_idx as int].end as int));
            over_idx += 1;
        }
        proof {
            if over_idx < overrides.len() {
                assert(orr[over_idx as int] == (overrides@[over_idx as int].start as int, overrides@[over_idx as int].end as int));
            }
            lemma_covering_at(ar, i as int, attr_idx as int);
            lemma_covering_at(orr, i as int, over_idx as int);
        }
        let c = s[i];
        let h = if over_idx < overrides.len() && overrides[over_idx].start <= i && i
            < overrides[over_idx].end {
            assert(covering(orr, i as int) == Some(over_idx as int));
            overrides[over_idx].strategy
        } else {
            assert(covering(orr, i as int) is None);
            global
        };
        let latin_override = if attrs.len() > attr_idx && attrs[attr_idx].start <= i && i
            < attrs[attr_idx].end {
            assert(covering(ar, i as int) == Some(attr_idx as int));
            Some(attrs[attr_idx].language)
        } else {
            assert(covering(ar, i as int) is None);
            None
        };
        let a = match latin_override {
            Some(l) => if classify(c) == Script::Latin {
                Some(l)
            } else {
                attribute(c, ortho, h)
            },
            None => attribute(c, ortho, h),
        };
        r.push(a);
        i += 1;
    }
    r
}

/// The runs of equal languages in `a` from index `i` on, the current run
/// (if any) having begun at the given index with the given language.
/// Positions without a language end a run and belong to none.
pub open spec fn language_runs(a: Seq<Option<Seq<char>>>, i: int, cur: Option<(int, Seq<char>)>) -> Seq<
    (int, int, Seq<char>),
>
    decreases a.len() - i,
{
    if i >= a.len() {
        match cur {
            Some((st, l)) => seq![(st, a.len() as int, l)],
            None => Seq::empty(),
        }
    } else {
        match (cur, a[i]) {
            (None, Some(l)) => language_runs(a, i + 1, Some((i, l))),
            (Some((st, p)), Some(l)) => if p == l {
                language_runs(a, i + 1, cur)
            } else {
                seq![(st, i, p)] + language_runs(a, i + 1, Some((i, l)))
            },
            (Some((st, p)), None) => seq![(st, i, p)] + language_runs(a, i + 1, None),
            (None, None) => language_runs(a, i + 1, None),
        }
    }
}

pub open spec fn opt_views(v: Seq<Option<&'static str>>) -> Seq<Option<Seq<char>>> {
    v.map_values(|o: Option<&'static str>| opt_view(o))
}

pub open spec fn run_views(v: Seq<(usize, usize, &'static str)>) -> Seq<(int, int, Seq<char>)> {
    v.map_values(|x: (usize, usize, &'static str)| (x.0 as int, x.1 as int, x.2@))
}

/// Runs are non-empty, within `lo..hi`, in order and disjoint.
pub open spec fn runs_ordered(r: Seq<(int, int, Seq<char>)>, lo: int, hi: int) -> bool {
    &&& forall|k: int| 0 <= k < r.len() ==> lo <= #[trigger] r[k].0 < r[k].1 <= hi
    &&& forall|k: int| 0 <= k < r.len() - 1 ==> #[trigger] r[k].1 <= r[k + 1].0
}

proof fn lemma_prepend_ordered(x: (int, int, Seq<char>), rest: Seq<(int, int, Seq<char>)>, lo: int, mid: int, hi: int)
    requires
        lo <= x.0 < x.1 <= mid <= hi,
        runs_ordered(rest, mid, hi),
    ensures
        runs_ordered(seq![x] + rest, lo, hi),
{
    let all = seq![x] + rest;
    assert forall|k: int| 0 <= k < all.len() implies lo <= #[trigger] all[k].0 < all[k].1 <= hi by {
        if k >= 1 {
            assert(all[k] == rest[k - 1]);
        }
    }
    assert forall|k: int| 0 <= k < all.len() - 1 implies #[trigger] all[k].1 <= all[k + 1].0 by {
        assert(all[k + 1] == rest[k]);
        if k >= 1 {
            assert(all[k] == rest[k - 1]);
        }
    }
}

proof fn lemma_language_runs_ordered(a: Seq<Option<Seq<char>>>, i: int, cur: Option<(int, Seq<char>)>)
    requires
        0 <= i <= a.len(),
        cur matches Some((st, _)) ==> 0 <= st < i,
    ensures
        runs_ordered(
            language_runs(a, i, cur),
            match cur {
                Some((st, _)) => st,
                None => i,
            },
            a.len() as int,
        ),
    decreases a.len() - i,
{
    if i < a.len() {
        match (cur, a[i]) {
            (None, Some(l)) => {
                lemma_language_runs_ordered(a, i + 1, Some((i, l)));
            },
            (Some((st, p)), Some(l)) => {
                if p == l {
                    lemma_language_runs_ordered(a, i + 1, cur);
                } else {
                    lemma_language_runs_ordered(a, i + 1, Some((i, l)));
                    lemma_prepend_ordered((st, i, p), language_runs(a, i + 1, Some((i, l))), st, i, a.len() as int);
                }
            },
            (Some((st, p)), None) => {
                lemma_language_runs_ordered(a, i + 1, None);
                lemma_prepend_ordered((st, i, p), language_runs(a, i + 1, None), st, i + 1, a.len() as int);
            },
            (None, None) => {
                lemma_language_runs_ordered(a, i + 1, None);
            },
        }
    }
}

/// Group consecutive positions of the same language into runs.
fn group_runs(langs: &Vec<Option<&'static str>>) -> (r: Vec<(usize, usize, &'static str)>)
    ensures
        run_views(r@) == language_runs(opt_views(langs@), 0, None),
{
    let ghost a = opt_views(langs@);
    let mut out: Vec<(usize, usize, &'static str)> = Vec::new();
    let mut cur: Option<(usize, &'static str)> = None;
    let mut i: usize = 0;
    assert(run_views(out@) + language_runs(a, 0, None) =~= language_runs(a, 0, None));
    while i < langs.len()
        invariant
            i <= langs.len(),
            a == opt_views(langs@),
            cur matches Some((st, _)) ==> st < i,
            run_views(out@) + language_runs(
                a,
                i as int,
                match cur {
                    Some((st, l)) => Some((st as int, l@)),
                    None => None,
                },
            ) == language_runs(a, 0, None),
        decreases langs.len() - i,
    {
        let ghost before = run_views(out@);
        assert(a[i as int] == opt_view(langs@[i as int]));
        match (cur, langs[i]) {
            (None, Some(l)) => {
                cur = Some((i, l));
            },
            (Some((st, p)), Some(l)) => {
                if !str_eq(p, l) {
                    out.push((st, i, p));
                    assert(run_views(out@) =~= before.push((st as int, i as int, p@)));
                    assert(before + (seq![(st as int, i as int, p@)] + language_runs(a, i + 1, Some((i as int, l@))))
                        =~= before.push((st as int, i as int, p@)) + language_runs(a, i + 1, Some((i as int, l@))));
                    cur = Some((i, l));
                }
            },
            (Some((st, p)), None) => {
                out.push((st, i, p));
                assert(run_views(out@) =~= before.push((st as int, i as int, p@)));
                assert(before + (seq![(st as int, i as int, p@)] + language_runs(a, i + 1, None))
                    =~= before.push((st as int, i as int, p@)) + language_runs(a, i + 1, None));
                cur = None;
            },
            (None, None) => {},
        }
        i += 1;
    }
    let ghost before = run_views(out@);
    match cur {
        Some((st, p)) => {
            out.push((st, langs.len(), p));
            assert(run_views(out@) =~= before + seq![(st as int, langs.len() as int, p@)]);
        },
        None => {
            assert(before + Seq::<(int, int, Seq<char>)>::empty() =~= before);
        },
    }
    out
}

/// Every position in `p..q` of `s` is whitespace.
pub open spec fn all_whitespace_between(s: Seq<char>, p: int, q: int) -> bool {
    forall|k: int| p <= k < q ==> spec_is_whitespace(#[trigger] s[k])
}

/// `r` with each run joined to the one before it when both have the
/// same language and only whitespace lies between them.
pub open spec fn merged(s: Seq<char>, r: Seq<(int, int, Seq<char>)>) -> Seq<(int, int, Seq<char>)>
    decreases r.len(),
{
    if r.len() == 0 {
        Seq::empty()
    } else {
        let m = merged(s, r.drop_last());
        let x = r.last();
        if m.len() > 0 && m.last().2 == x.2 && all_whitespace_between(s, m.last().1, x.0) {
            m.drop_last().push((m.last().0, x.1, x.2))
        } else {
            m.push(x)
        }
    }
}

proof fn lemma_merged_ordered(s: Seq<char>, r: Seq<(int, int, Seq<char>)>, lo: int, hi: int)
    requires
        runs_ordered(r, lo, hi),
    ensures
        runs_ordered(merged(s, r), lo, hi),
        merged(s, r).len() > 0 <==> r.len() > 0,
        r.len() > 0 ==> merged(s, r).last().1 == r.last().1,
    decreases r.len(),
{
    if r.len() > 0 {
        let init = r.drop_last();
        assert(runs_ordered(init, lo, hi)) by {
            assert forall|k: int| 0 <= k < init.len() implies lo <= #[trigger] init[k].0 < init[k].1 <= hi by {
                assert(init[k] == r[k]);
            }
            assert forall|k: int| 0 <= k < init.len() - 1 implies #[trigger] init[k].1 <= init[k + 1].0 by {
                assert(init[k] == r[k]);
                assert(init[k + 1] == r[k + 1]);
            }
        }
        lemma_merged_ordered(s, init, lo, hi);
        let m = merged(s, init);
        let x = r.last();
        assert(x == r[r.len() - 1]);
        if m.len() > 0 {
            assert(init.last() == r[r.len() - 2]);
            assert(m.last().1 <= x.0);
        }
        if m.len() > 0 && m.last().2 == x.2 && all_whitespace_between(s, m.last().1, x.0) {
            let n = m.drop_last().push((m.last().0, x.1, x.2));
            assert forall|k: int| 0 <= k < n.len() implies lo <= #[trigger] n[k].0 < n[k].1 <= hi by {
                if k < n.len() - 1 {
                    assert(n[k] == m[k]);
                } else {
                    assert(m.last() == m[m.len() - 1]);
                }
            }
            assert forall|k: int| 0 <= k < n.len() - 1 implies #[trigger] n[k].1 <= n[k + 1].0 by {
                assert(n[k] == m[k]);
                if k + 1 < n.len() - 1 {
                    assert(n[k + 1] == m[k + 1]);
                } else {
                    assert(m.last() == m[m.len() - 1]);
                }
            }
        } else {
            let n = m.push(x);
            assert forall|k: int| 0 <= k < n.len() implies lo <= #[trigger] n[k].0 < n[k].1 <= hi by {
                if k < n.len() - 1 {
                    assert(n[k] == m[k]);
                }
            }
            assert forall|k: int| 0 <= k < n.len() - 1 implies #[trigger] n[k].1 <= n[k + 1].0 by {
                assert(n[k] == m[k]);
                if k + 1 < n.len() - 1 {
                    assert(n[k + 1] == m[k + 1]);
                } else {
                    assert(m.last() == m[m.len() - 1]);
                }
            }
        }
    }
}

fn whitespace_between(s: &Vec<char>, p: usize, q: usize) -> (b: bool)
    requires
        q <= s.len(),
    ensures
        b == all_whitespace_between(s@, p as int, q as int),
{
    let mut k: usize = p;
    while k < q
        invariant
            q <= s.len(),
            p <= k || q <= k,
            forall|j: int| p <= j < k && j < q ==> spec_is_whitespace(#[trigger] s@[j]),
        decreases q - k,
    {
        if !is_whitespace(s[k]) {
            return false;
        }
        k += 1;
    }
    true
}

/// Join runs of one language separated by whitespace only.
fn merge_adjacent(s: &Vec<char>, runs: &Vec<(usize, usize, &'static str)>) -> (r: Vec<(usize, usize, &'static str)>)
    requires
        runs_ordered(run_views(runs@), 0, s.len() as int),
    ensures
        run_views(r@) == merged(s@, run_views(runs@)),
{
    let ghost rv = run_views(runs@);
    let mut out: Vec<(usize, usize, &'static str)> = Vec::new();
    let mut i: usize = 0;
    assert(rv.take(0) =~= Seq::<(int, int, Seq<char>)>::empty());
    while i < runs.len()
        invariant
            i <= runs.len(),
            rv == run_views(runs@),
            runs_ordered(rv, 0, s.len() as int),
            run_views(out@) == merged(s@, rv.take(i as int)),
        decreases runs.len() - i,
    {
        let (a, b, l) = runs[i];
        assert(rv[i as int] == (a as int, b as int, l@));
        assert(rv.take(i + 1).drop_last() =~= rv.take(i as int));
        assert(rv.take(i + 1).last() == rv[i as int]);
        let ghost m = merged(s@, rv.take(i as int));
        proof {
            assert(runs_ordered(rv.take(i as int), 0, s.len() as int)) by {
                let t = rv.take(i as int);
                assert forall|k: int| 0 <= k < t.len() implies 0 <= #[trigger] t[k].0 < t[k].1 <= s.len() by {
                    assert(t[k] == rv[k]);
                }
                assert forall|k: int| 0 <= k < t.len() - 1 implies #[trigger] t[k].1 <= t[k + 1].0 by {
                    assert(t[k] == rv[k]);
                    assert(t[k + 1] == rv[k + 1]);
                }
            }
            lemma_merged_ordered(s@, rv.take(i as int), 0, s.len() as int);
        }
        let n = out.len();
        let mut joined = false;
        if n > 0 {
            let (pa, pb, pl) = out[n - 1];
            assert(m.last() == (pa as int, pb as int, pl@));
            if str_eq(pl, l) && whitespace_between(s, pb, a) {
                out.set(n - 1, (pa, b, l));
                assert(run_views(out@) =~= m.drop_last().push((m.last().0, b as int, l@)));
                joined = true;
            }
        }
        if !joined {
            let ghost before = run_views(out@);
            out.push((a, b, l));
            assert(run_views(out@) =~= before.push((a as int, b as int, l@)));
        }
        i += 1;
    }
    assert(rv.take(runs.len() as int) =~= rv);
    out
}

/// The segments of the input as character ranges with their languages.
pub open spec fn segment_runs(
    s: Seq<char>,
    vi_markers: nat,
    fr_markers: nat,
    global: HanStrategy,
    attrs: Seq<LatinAttribution>,
) -> Seq<(int, int, Seq<char>)> {
    let langs = Seq::new(
        s.len(),
        |i: int| position_language(s, vi_markers, fr_markers, global, attrs, i),
    );
    merged(s, language_runs(langs, 0, None))
}

/// A segment as language, byte range and text.
pub open spec fn segment_view(g: Segment) -> (Seq<char>, int, int, Seq<char>) {
    (g.language@, g.start as int, g.end as int, g.text@)
}

/// The segment a character run `(a, b, l)` of `s` becomes.
pub open spec fn run_segment(s: Seq<char>, x: (int, int, Seq<char>)) -> (Seq<char>, int, int, Seq<char>) {
    (x.2, byte_offset(s, x.0) as int, byte_offset(s, x.1) as int, s.subrange(x.0, x.1))
}

/// Attribute each character of the input to a language (Latin letters
/// inside attributed words by the word, Han by the global strategy or a
/// local override) and group consecutive characters of one language into
/// segments, joining segments of one language that only whitespace
/// separates.
pub fn extract(
    input: &Normalized,
    ortho: &OrthoSignals,
    han_strategy: HanStrategy,
    latin_attribution: &Vec<LatinAttribution>,
) -> (segs: Vec<Segment>)
    requires
        input.wf(),
    ensures
        segs.len() == segment_runs(
            input.chars@,
            ortho.vi_markers as nat,
            ortho.fr_markers as nat,
            han_strategy,
            latin_attribution@,
        ).len(),
        forall|k: int|
            0 <= k < segs.len() ==> segment_view(#[trigger] segs@[k]) == run_segment(
                input.chars@,
                segment_runs(
                    input.chars@,
                    ortho.vi_markers as nat,
                    ortho.fr_markers as nat,
                    han_strategy,
                    latin_attribution@,
                )[k],
            ),
        forall|k: int|
            0 <= k < segs.len() ==> #[trigger] segs@[k].start < segs@[k].end && segs@[k].end
                <= byte_len(input.chars@),
        forall|k: int|
            0 <= k < segs.len() - 1 ==> #[trigger] segs@[k].end <= segs@[k + 1].start,
        forall|k: int|
            0 <= k < segs.len() ==> byte_len(#[trigger] segs@[k].text@) == segs@[k].end
                - segs@[k].start && segs@[k].text@.len() > 0,
        forall|k: int| 0 <= k < segs.len() ==> (#[trigger] segs@[k]).tokens@.len() == 0,
{
    let s = &input.chars;
    let langs = position_languages(input, ortho, han_strategy, latin_attribution);
    let ghost lv = Seq::new(
        s@.len(),
        |i: int| position_language(s@, ortho.vi_markers as nat, ortho.fr_markers as nat, han_strategy, latin_attribution@, i),
    );
    assert(opt_views(langs@) =~= lv);
    let runs = group_runs(&langs);
    proof {
        lemma_language_runs_ordered(lv, 0, None);
    }
    let merged_runs = merge_adjacent(s, &runs);
    let ghost mr = run_views(merged_runs@);
    proof {
        lemma_merged_ordered(s@, run_views(runs@), 0, s.len() as int);
    }
    let mut segs: Vec<Segment> = Vec::new();
    let mut k: usize = 0;
    while k < merged_runs.len()
        invariant
            k <= merged_runs.len(),
            s == &input.chars,
            input.wf(),
            mr == run_views(merged_runs@),
            runs_ordered(mr, 0, s.len() as int),
            segs.len() == k,
            forall|j: int| 0 <= j < k ==> segment_view(#[trigger] segs@[j]) == run_segment(s@, mr[j]),
            forall|j: int|
                0 <= j < k ==> #[trigger] segs@[j].start < segs@[j].end && segs@[j].end <= byte_len(s@),
            forall|j: int| 0 <= j < k - 1 ==> #[trigger] segs@[j].end <= segs@[j + 1].start,
            forall|j: int|
                0 <= j < k ==> byte_len(#[trigger] segs@[j].text@) == segs@[j].end - segs@[j].start
                    && segs@[j].text@.len() > 0,
            k > 0 ==> segs@[k - 1].end == byte_offset(s@, mr[k - 1].1),
            forall|j: int| 0 <= j < k ==> (#[trigger] segs@[j]).tokens@.len() == 0,
        decreases merged_runs.len() - k,
    {
        let (a, b, l) = merged_runs[k];
        assert(mr[k as int] == (a as int, b as int, l@));
        assert(0 <= mr[k as int].0 < mr[k as int].1 <= s.len());
        proof {
            lemma_byte_len_split(s@, a as int, b as int);
            lemma_byte_len_mono(s@, a as int, b as int);
            lemma_byte_len_mono(s@, b as int, s.len() as int);
            assert(s@.take(s.len() as int) =~= s@);
            if k > 0 {
                assert(mr[k - 1].1 <= mr[k as int].0);
                lemma_byte_len_mono(s@, mr[k - 1].1, a as int);
            }
        }
        let text_chars = copy_range(s, a, b);
        let lc = str_chars(l);
        let seg = Segment {
            language: string_from_chars(lc.as_slice()),
            start: input.char_byte_offsets[a],
            end: input.char_byte_offsets[b],
            text: string_from_chars(text_chars.as_slice()),
            tokens: Vec::new(),
        };
        let ghost g = seg;
        segs.push(seg);
        assert(segs@[k as int] == g);
        k += 1;
    }
    segs
}

/// No two neighbouring runs could still be joined.
pub open spec fn none_joinable(s: Seq<char>, m: Seq<(int, int, Seq<char>)>) -> bool {
    forall|k: int|
        0 <= k < m.len() - 1 ==> !(#[trigger] m[k].2 == m[k + 1].2 && all_whitespace_between(
            s,
            m[k].1,
            m[k + 1].0,
        ))
}

proof fn lemma_merged_none_joinable(s: Seq<char>, r: Seq<(int, int, Seq<char>)>)
    ensures
        none_joinable(s, merged(s, r)),
    decreases r.len(),
{
    if r.len() > 0 {
        lemma_merged_none_joinable(s, r.drop_last());
        let m = merged(s, r.drop_last());
        let x = r.last();
        if m.len() > 0 && m.last().2 == x.2 && all_whitespace_between(s, m.last().1, x.0) {
            let n = m.drop_last().push((m.last().0, x.1, x.2));
            assert forall|k: int| 0 <= k < n.len() - 1 implies !(#[trigger] n[k].2 == n[k + 1].2
                && all_whitespace_between(s, n[k].1, n[k + 1].0)) by {
                assert(n[k] == m[k]);
                if k + 1 < n.len() - 1 {
                    assert(n[k + 1] == m[k + 1]);
                } else {
                    assert(m.last() == m[k + 1]);
                }
            }
        } else {
            let n = m.push(x);
            assert forall|k: int| 0 <= k < n.len() - 1 implies !(#[trigger] n[k].2 == n[k + 1].2
                && all_whitespace_between(s, n[k].1, n[k + 1].0)) by {
                assert(n[k] == m[k]);
                if k + 1 < n.len() - 1 {
                    assert(n[k + 1] == m[k + 1]);
                } else {
                    assert(m.last() == m[k]);
                }
            }
        }
    }
}

/// Neighbouring segments never share a language with only whitespace
/// between them: such segments are one.
pub proof fn lemma_segments_not_joinable(
    s: Seq<char>,
    vi_markers: nat,
    fr_markers: nat,
    global: HanStrategy,
    attrs: Seq<LatinAttribution>,
)
    ensures
        none_joinable(s, segment_runs(s, vi_markers, fr_markers, global, attrs)),
{
    let langs = Seq::new(
        s.len(),
        |i: int| position_language(s, vi_markers, fr_markers, global, attrs, i),
    );
    lemma_merged_none_joinable(s, language_runs(langs, 0, None));
}

} // verus!
