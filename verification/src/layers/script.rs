//! Layer 2 — which writing system each character belongs to.

use vstd::prelude::*;
use crate::layers::normalize::Normalized;
use crate::text::{count_where, is_whitespace, lemma_count_where_step, spec_is_whitespace};


verus! {

#[derive(Debug, Clone, Copy, PartialEq, Eq, Hash, Structural)]
pub enum Script {
    Latin,
    Hiragana,
    Katakana,
    Han,
    Hangul,
    Other,
}

/// The script of `c`, by Unicode block: Basic Latin letters, Latin-1
/// and Latin Extended letters (Vietnamese precomposed letters
/// included), Hiragana, Katakana (with phonetic extensions), the CJK
/// unified ideographs (BMP and extension A), and Hangul syllables and
/// jamo.
pub open spec fn script_of(c: char) -> Script {
    let cp = c as u32;
    if (0x41 <= cp <= 0x5A) || (0x61 <= cp <= 0x7A) || (0xC0 <= cp <= 0x24F) || (0x1E00 <= cp
        <= 0x1EFF) {
        Script::Latin
    } else if 0x3040 <= cp <= 0x309F {
        Script::Hiragana
    } else if (0x30A0 <= cp <= 0x30FF) || (0x31F0 <= cp <= 0x31FF) {
        Script::Katakana
    } else if (0x4E00 <= cp <= 0x9FFF) || (0x3400 <= cp <= 0x4DBF) {
        Script::Han
    } else if (0xAC00 <= cp <= 0xD7AF) || (0x1100 <= cp <= 0x11FF) || (0x3130 <= cp <= 0x318F) {
        Script::Hangul
    } else {
        Script::Other
    }
}

pub open spec fn is_latin(c: char) -> bool {
    script_of(c) == Script::Latin
}

pub open spec fn is_han(c: char) -> bool {
    script_of(c) == Script::Han
}

pub open spec fn is_cjk_script(c: char) -> bool {
    script_of(c) == Script::Han || script_of(c) == Script::Hiragana || script_of(c)
        == Script::Katakana || script_of(c) == Script::Hangul
}

pub fn classify(c: char) -> (s: Script)
    ensures
        s == script_of(c),
{
    let cp = c as u32;
    if (0x41 <= cp && cp <= 0x5A) || (0x61 <= cp && cp <= 0x7A) || (0xC0 <= cp && cp <= 0x24F)
        || (0x1E00 <= cp && cp <= 0x1EFF) {
        return Script::Latin;
    }
    if 0x3040 <= cp && cp <= 0x309F {
        return Script::Hiragana;
    }
    if (0x30A0 <= cp && cp <= 0x30FF) || (0x31F0 <= cp && cp <= 0x31FF) {
        return Script::Katakana;
    }
    if (0x4E00 <= cp && cp <= 0x9FFF) || (0x3400 <= cp && cp <= 0x4DBF) {
        return Script::Han;
    }
    if (0xAC00 <= cp && cp <= 0xD7AF) || (0x1100 <= cp && cp <= 0x11FF) || (0x3130 <= cp && cp
        <= 0x318F) {
        return Script::Hangul;
    }
    Script::Other
}

/// How many characters of each script an input holds (whitespace not
/// counted).
#[derive(Debug, Clone, Default)]
pub struct ScriptCounts {
    pub latin: usize,
    pub hiragana: usize,
    pub katakana: usize,
    pub han: usize,
    pub hangul: usize,
    pub other: usize,
}

/// A non-whitespace character of script `sc`.
pub open spec fn in_script(sc: Script) -> spec_fn(char) -> bool {
    |c: char| !spec_is_whitespace(c) && script_of(c) == sc
}

impl ScriptCounts {
    /// The counts of `chars`, script by script.
    pub open spec fn counts_of(self, chars: Seq<char>) -> bool {
        &&& self.latin == count_where(chars, in_script(Script::Latin))
        &&& self.hiragana == count_where(chars, in_script(Script::Hiragana))
        &&& self.katakana == count_where(chars, in_script(Script::Katakana))
        &&& self.han == count_where(chars, in_script(Script::Han))
        &&& self.hangul == count_where(chars, in_script(Script::Hangul))
        &&& self.other == count_where(chars, in_script(Script::Other))
    }

    pub open spec fn spec_supported_total(self) -> int {
        self.latin + self.hiragana + self.katakana + self.han + self.hangul
    }

    pub open spec fn spec_kana(self) -> int {
        self.hiragana + self.katakana
    }

    /// Characters in one of the five supported scripts.
    pub fn supported_total(&self) -> (n: usize)
        requires
            self.spec_supported_total() <= usize::MAX,
        ensures
            n == self.spec_supported_total(),
    {
        self.latin + self.hiragana + self.katakana + self.han + self.hangul
    }

    /// Hiragana plus katakana.
    pub fn kana(&self) -> (n: usize)
        requires
            self.spec_kana() <= usize::MAX,
        ensures
            n == self.spec_kana(),
    {
        self.hiragana + self.katakana
    }
}

/// Count the characters of each script in the normalized input,
/// skipping whitespace.
pub fn count_scripts(input: &Normalized) -> (counts: ScriptCounts)
    ensures
        counts.counts_of(input.chars@),
        counts.spec_supported_total() + counts.other <= input.chars@.len(),
{
    let chars = &input.chars;
    let mut counts = ScriptCounts { latin: 0, hiragana: 0, katakana: 0, han: 0, hangul: 0, other: 0 };
    let mut i: usize = 0;
    assert(chars@.take(0) =~= Seq::<char>::empty());
    while i < chars.len()
        invariant
            i <= chars.len(),
            counts.counts_of(chars@.take(i as int)),
            counts.spec_supported_total() + counts.other <= i,
        decreases chars.len() - i,
    {
        let c = chars[i];
        proof {
            lemma_count_where_step(chars@, in_script(Script::Latin), i as int);
            lemma_count_where_step(chars@, in_script(Script::Hiragana), i as int);
            lemma_count_where_step(chars@, in_script(Script::Katakana), i as int);
            lemma_count_where_step(chars@, in_script(Script::Han), i as int);
            lemma_count_where_step(chars@, in_script(Script::Hangul), i as int);
            lemma_count_where_step(chars@, in_script(Script::Other), i as int);
        }
        if !is_whitespace(c) {
            match classify(c) {
                Script::Latin => counts.latin = counts.latin + 1,
                Script::Hiragana => counts.hiragana = counts.hiragana + 1,
                Script::Katakana => counts.katakana = counts.katakana + 1,
                Script::Han => counts.han = counts.han + 1,
                Script::Hangul => counts.hangul = counts.hangul + 1,
                Script::Other => counts.other = counts.other + 1,
            }
        }
        i += 1;
    }
    assert(chars@.take(chars.len() as int) =~= chars@);
    counts
}

} // verus!
