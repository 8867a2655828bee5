//! Layer 1 — character n-gram hits, the English / Vietnamese
//! tie-breaker for Latin text.

use vstd::prelude::*;
use crate::layers::normalize::Normalized;
use crate::layers::script::{classify, script_of, Script};
use crate::text::{
    char_count, char_lowercase_of, char_to_lowercase, count_all, is_whitespace,
    spec_is_whitespace, sum_matches, views,
};

verus! {

#[derive(Debug, Clone, Default)]
pub struct NgramSignal {
    pub en_hits: usize,
    pub vi_hits: usize,
}

/// English bigrams and trigrams.
pub open spec fn en_patterns() -> Seq<Seq<char>> {
    seq![
        seq!['t', 'h'],
        seq!['h', 'e'],
        seq!['i', 'n'],
        seq!['e', 'r'],
        seq!['a', 'n'],
        seq!['e', 'd'],
        seq!['n', 'g'],
        seq!['o', 'u'],
        seq!['t', 'h', 'e'],
        seq!['i', 'n', 'g'],
        seq!['a', 'n', 'd'],
        seq!['i', 'o', 'n'],
        seq!['e', 'n', 't'],
    ]
}

/// Vietnamese bigrams and trigrams.
pub open spec fn vi_patterns() -> Seq<Seq<char>> {
    seq![
        seq!['n', 'h'],
        seq!['n', 'g'],
        seq!['c', 'h'],
        seq!['t', 'r'],
        seq!['p', 'h'],
        seq!['n', 'g', 'u'],
        seq!['t', 'r', 'ư'],
        seq!['n', 'g', 'h'],
        seq!['t', 'h', 'ư'],
    ]
}

proof fn lemma_pattern_lengths()
    ensures
        forall|j: int| 0 <= j < en_patterns().len() ==> #[trigger] en_patterns()[j].len() >= 2,
        forall|j: int| 0 <= j < vi_patterns().len() ==> #[trigger] vi_patterns()[j].len() >= 2,
{
    assert forall|j: int| 0 <= j < en_patterns().len() implies #[trigger] en_patterns()[j].len() >= 2 by {
        if j == 0 {}
        if j == 1 {}
        if j == 2 {}
        if j == 3 {}
        if j == 4 {}
        if j == 5 {}
        if j == 6 {}
        if j == 7 {}
        if j == 8 {}
        if j == 9 {}
        if j == 10 {}
        if j == 11 {}
        if j == 12 {}
    }
    assert forall|j: int| 0 <= j < vi_patterns().len() implies #[trigger] vi_patterns()[j].len() >= 2 by {
        if j == 0 {}
        if j == 1 {}
        if j == 2 {}
        if j == 3 {}
        if j == 4 {}
        if j == 5 {}
        if j == 6 {}
        if j == 7 {}
        if j == 8 {}
    }
}

fn en_pattern_vec() -> (v: Vec<Vec<char>>)
    ensures
        views(v@) == en_patterns(),
{
    let v = vec![
        vec!['t', 'h'],
        vec!['h', 'e'],
        vec!['i', 'n'],
        vec!['e', 'r'],
        vec!['a', 'n'],
        vec!['e', 'd'],
        vec!['n', 'g'],
        vec!['o', 'u'],
        vec!['t', 'h', 'e'],
        vec!['i', 'n', 'g'],
        vec!['a', 'n', 'd'],
        vec!['i', 'o', 'n'],
        vec!['e', 'n', 't'],
    ];
    assert(views(v@) =~~= en_patterns());
    v
}

fn vi_pattern_vec() -> (v: Vec<Vec<char>>)
    ensures
        views(v@) == vi_patterns(),
{
    let v = vec![
        vec!['n', 'h'],
        vec!['n', 'g'],
        vec!['c', 'h'],
        vec!['t', 'r'],
        vec!['p', 'h'],
        vec!['n', 'g', 'u'],
        vec!['t', 'r', 'ư'],
        vec!['n', 'g', 'h'],
        vec!['t', 'h', 'ư'],
    ];
    assert(views(v@) =~~= vi_patterns());
    v
}

/// The lower-cased Latin letters and whitespace of `s`, in order.
pub open spec fn latin_lower(s: Seq<char>) -> Seq<char>
    decreases s.len(),
{
    if s.len() == 0 {
        Seq::empty()
    } else {
        let c = s.last();
        latin_lower(s.drop_last()) + if script_of(c) == Script::Latin || spec_is_whitespace(c) {
            char_lowercase_of(c)
        } else {
            Seq::empty()
        }
    }
}

/// Whether every character of `s` is whitespace.
pub open spec fn all_whitespace(s: Seq<char>) -> bool {
    forall|i: int| 0 <= i < s.len() ==> spec_is_whitespace(#[trigger] s[i])
}

/// Hit counts of the English and Vietnamese n-grams in the lower-cased
/// Latin text of the input; none when that text is blank.
pub fn score(input: &Normalized) -> (sig: NgramSignal)
    ensures
        ({
            let l = latin_lower(input.chars@);
            if all_whitespace(l) {
                sig.en_hits == 0 && sig.vi_hits == 0
            } else {
                &&& sig.en_hits == sum_matches(l, en_patterns())
                &&& sig.vi_hits == sum_matches(l, vi_patterns())
            }
        }),
{
    let chars = &input.chars;
    let mut lower: Vec<char> = Vec::new();
    let mut i: usize = 0;
    assert(chars@.take(0) =~= Seq::<char>::empty());
    while i < chars.len()
        invariant
            i <= chars.len(),
            lower@ == latin_lower(chars@.take(i as int)),
        decreases chars.len() - i,
    {
        let c = chars[i];
        assert(chars@.take(i + 1).drop_last() =~= chars@.take(i as int));
        if classify(c) == Script::Latin || is_whitespace(c) {
            let lc = char_to_lowercase(c);
            let mut j: usize = 0;
            let ghost before = lower@;
            while j < lc.len()
                invariant
                    j <= lc.len(),
                    lower@ == before + lc@.take(j as int),
                decreases lc.len() - j,
            {
                lower.push(lc[j]);
                assert(lc@.take(j + 1) =~= lc@.take(j as int).push(lc@[j as int]));
                j += 1;
            }
            assert(lc@.take(lc.len() as int) =~= lc@);
        } else {
            assert(lower@ =~= lower@ + Seq::<char>::empty());
        }
        i += 1;
    }
    assert(chars@.take(chars.len() as int) =~= chars@);
    let n = char_count(&lower);
    let mut k: usize = 0;
    while k < n && is_whitespace(lower[k])
        invariant
            k <= n,
            n == lower@.len(),
            forall|j: int| 0 <= j < k ==> spec_is_whitespace(#[trigger] lower@[j]),
        decreases n - k,
    {
        k += 1;
    }
    if k == n {
        return NgramSignal { en_hits: 0, vi_hits: 0 };
    }
    let en = en_pattern_vec();
    let vi = vi_pattern_vec();
    assert forall|j: int| 0 <= j < en@.len() implies #[trigger] en@[j]@.len() >= 2 by {
        assert(views(en@)[j] == en@[j]@);
        lemma_pattern_lengths();
    }
    assert forall|j: int| 0 <= j < vi@.len() implies #[trigger] vi@[j]@.len() >= 2 by {
        assert(views(vi@)[j] == vi@[j]@);
        lemma_pattern_lengths();
    }
    assert(en@.len() == views(en@).len());
    assert(vi@.len() == views(vi@).len());
    assert(13 * lower@.len() <= 2 * usize::MAX);
    let en_hits = count_all(&lower, &en, Ghost(2));
    let vi_hits = count_all(&lower, &vi, Ghost(2));
    NgramSignal { en_hits, vi_hits }
}

} // verus!
