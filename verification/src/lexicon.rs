//! Frequency-ranked word lists, one per language: one word per line,
//! the most frequent first. The lists are data handed to the library;
//! each is kept whole (for its raw text), as the set of its words, and
//! as the set of the words on its first lines (the function-word table).

use vstd::prelude::*;
use crate::text::{str_chars, str_eq, string_from_chars};
use crate::wordset::WordSet;

verus! {

/// How many leading lines of a list form its function-word table.
pub const TOP_N: usize = 50;

/// `l` without one trailing carriage return.
pub open spec fn strip_cr(l: Seq<char>) -> Seq<char> {
    if l.len() > 0 && l.last() == '\r' {
        l.drop_last()
    } else {
        l
    }
}

/// The lines of `s` after the partial line `cur`, as `str::lines`
/// splits them: at each line feed, a carriage return right before it
/// dropped, no empty line after a final line feed.
pub open spec fn lines_from(s: Seq<char>, cur: Seq<char>) -> Seq<Seq<char>>
    decreases s.len(),
{
    if s.len() == 0 {
        if cur.len() == 0 {
            Seq::empty()
        } else {
            seq![cur]
        }
    } else if s[0] == '\n' {
        seq![strip_cr(cur)] + lines_from(s.drop_first(), Seq::empty())
    } else {
        lines_from(s.drop_first(), cur.push(s[0]))
    }
}

pub open spec fn lines_of(s: Seq<char>) -> Seq<Seq<char>> {
    lines_from(s, Seq::empty())
}

/// The non-empty lines of `lines`, as a set.
pub open spec fn word_set(lines: Seq<Seq<char>>) -> Set<Seq<char>> {
    Set::new(|w: Seq<char>| w.len() > 0 && lines.contains(w))
}

/// The words of a list.
pub open spec fn list_words(raw: Seq<char>) -> Set<Seq<char>> {
    word_set(lines_of(raw))
}

/// The first `n` elements of `s` (all of them when it is shorter).
pub open spec fn first_n(s: Seq<Seq<char>>, n: int) -> Seq<Seq<char>> {
    if s.len() <= n {
        s
    } else {
        s.take(n)
    }
}

/// The function-word table of a list: the non-empty lines among its
/// first `TOP_N` lines.
pub open spec fn list_top_words(raw: Seq<char>) -> Set<Seq<char>> {
    word_set(first_n(lines_of(raw), TOP_N as int))
}

/// One language's list.
#[derive(Debug, Clone)]
pub struct Lexicon {
    lang: String,
    raw: String,
    words: WordSet,
    top: WordSet,
}

impl Lexicon {
    pub closed spec fn wf(&self) -> bool {
        &&& self.words.wf()
        &&& self.top.wf()
        &&& self.words@ == list_words(self.raw@)
        &&& self.top@ == list_top_words(self.raw@)
    }
}

proof fn lemma_word_set_push(lines: Seq<Seq<char>>, l: Seq<char>)
    ensures
        word_set(lines.push(l)) == if l.len() > 0 {
            word_set(lines).insert(l)
        } else {
            word_set(lines)
        },
{
    assert forall|w: Seq<char>| #[trigger] word_set(lines.push(l)).contains(w) <==> (if l.len()
        > 0 {
        word_set(lines).insert(l)
    } else {
        word_set(lines)
    }).contains(w) by {
        if lines.push(l).contains(w) && w != l {
            let i = choose|i: int| 0 <= i < lines.push(l).len() && lines.push(l)[i] == w;
            assert(lines[i] == w);
        }
        if lines.contains(w) {
            let i = choose|i: int| 0 <= i < lines.len() && lines[i] == w;
            assert(lines.push(l)[i] == w);
        }
        if w == l {
            assert(lines.push(l)[lines.len() as int] == w);
        }
    }
    assert(word_set(lines.push(l)) =~= if l.len() > 0 {
        word_set(lines).insert(l)
    } else {
        word_set(lines)
    });
}

proof fn lemma_lines_step(s: Seq<char>, i: int, cur: Seq<char>)
    requires
        0 <= i < s.len(),
    ensures
        lines_from(s.skip(i), cur) == if s[i] == '\n' {
            seq![strip_cr(cur)] + lines_from(s.skip(i + 1), Seq::empty())
        } else {
            lines_from(s.skip(i + 1), cur.push(s[i]))
        },
{
    assert(s.skip(i).drop_first() =~= s.skip(i + 1));
    assert(s.skip(i)[0] == s[i]);
}

/// Split a list into its lines and collect the word sets.
fn build_sets(raw: &Vec<char>) -> (r: (WordSet, WordSet))
    ensures
        r.0.wf(),
        r.1.wf(),
        r.0@ == list_words(raw@),
        r.1@ == list_top_words(raw@),
{
    let mut words = WordSet::new();
    let mut top = WordSet::new();
    let mut cur: Vec<char> = Vec::new();
    let ghost mut done: Seq<Seq<char>> = Seq::empty();
    let mut n_done: usize = 0;
    let mut i: usize = 0;
    assert(raw@.skip(0) =~= raw@);
    assert(done + lines_from(raw@, Seq::empty()) =~= lines_of(raw@));
    assert(word_set(done) =~= Set::<Seq<char>>::empty());
    assert(first_n(done, TOP_N as int) =~= done);
    while i < raw.len()
        invariant
            i <= raw.len(),
            lines_of(raw@) == done + lines_from(raw@.skip(i as int), cur@),
            n_done == if done.len() < TOP_N { done.len() } else { TOP_N as nat },
            n_done <= i,
            words.wf(),
            top.wf(),
            words@ == word_set(done),
            top@ == word_set(first_n(done, TOP_N as int)),
        decreases raw.len() - i,
    {
        let c = raw[i];
        proof {
            lemma_lines_step(raw@, i as int, cur@);
        }
        if c == '\n' {
            let mut line = cur;
            if line.len() > 0 && line[line.len() - 1] == '\r' {
                line.pop();
            }
            let ghost l = line@;
            assert(l == strip_cr(cur@)) by {
                if cur@.len() > 0 && cur@.last() == '\r' {
                    assert(l =~= cur@.drop_last());
                }
            }
            proof {
                lemma_word_set_push(done, l);
                if done.len() < TOP_N {
                    assert(first_n(done.push(l), TOP_N as int) =~= first_n(done, TOP_N as int).push(l));
                    lemma_word_set_push(first_n(done, TOP_N as int), l);
                } else {
                    assert(first_n(done.push(l), TOP_N as int) =~= first_n(done, TOP_N as int));
                }
            }
            if line.len() > 0 {
                if n_done < TOP_N {
                    let copy = line.clone();
                    top.insert(copy);
                }
                words.insert(line);
            }
            if n_done < TOP_N {
                n_done += 1;
            }
            proof {
                assert((done + seq![l]) + lines_from(raw@.skip(i + 1), Seq::empty()) =~= done + (
                seq![l] + lines_from(raw@.skip(i + 1), Seq::empty())));
                assert(done + seq![l] =~= done.push(l));
                done = done.push(l);
            }
            cur = Vec::new();
        } else {
            cur.push(c);
        }
        i += 1;
    }
    assert(raw@.skip(raw.len() as int) =~= Seq::<char>::empty());
    proof {
        if cur@.len() > 0 {
            lemma_word_set_push(done, cur@);
            if done.len() < TOP_N {
                assert(first_n(done.push(cur@), TOP_N as int) =~= first_n(done, TOP_N as int).push(cur@));
                lemma_word_set_push(first_n(done, TOP_N as int), cur@);
            } else {
                assert(first_n(done.push(cur@), TOP_N as int) =~= first_n(done, TOP_N as int));
            }
            assert(done + seq![cur@] =~= done.push(cur@));
        } else {
            assert(done + Seq::<Seq<char>>::empty() =~= done);
        }
    }
    if cur.len() > 0 {
        if n_done < TOP_N {
            let copy = cur.clone();
            top.insert(copy);
        }
        words.insert(cur);
    }
    (words, top)
}

/// The word lists of several languages.
#[derive(Debug, Clone)]
pub struct Lexicons {
    entries: Vec<Lexicon>,
}

/// Index of the first entry for `lang` at or after `k`, or -1.
spec fn index_from(e: Seq<Lexicon>, lang: Seq<char>, k: int) -> int
    decreases e.len() - k,
{
    if k < 0 || k >= e.len() {
        -1
    } else if e[k].lang@ == lang {
        k
    } else {
        index_from(e, lang, k + 1)
    }
}

proof fn lemma_index_from_range(e: Seq<Lexicon>, lang: Seq<char>, k: int)
    requires
        0 <= k,
    ensures
        index_from(e, lang, k) == -1 || (k <= index_from(e, lang, k) < e.len() && e[index_from(
            e,
            lang,
            k,
        )].lang@ == lang),
        index_from(e, lang, k) == -1 ==> forall|j: int| k <= j < e.len() ==> e[j].lang@ != lang,
    decreases e.len() - k,
{
    if k < e.len() && e[k].lang@ != lang {
        lemma_index_from_range(e, lang, k + 1);
    }
}

proof fn lemma_index_from_update(e: Seq<Lexicon>, lang: Seq<char>, k: int, i: int, x: Lexicon)
    requires
        0 <= k,
        0 <= i < e.len(),
        x.lang@ == e[i].lang@,
    ensures
        index_from(e.update(i, x), lang, k) == index_from(e, lang, k),
    decreases e.len() - k,
{
    if k < e.len() {
        lemma_index_from_update(e, lang, k + 1, i, x);
        assert(e.update(i, x)[k].lang@ == e[k].lang@);
    }
}

proof fn lemma_index_from_push(e: Seq<Lexicon>, lang: Seq<char>, k: int, x: Lexicon)
    requires
        0 <= k <= e.len(),
    ensures
        index_from(e.push(x), lang, k) == if index_from(e, lang, k) == -1 && x.lang@ == lang {
            e.len() as int
        } else {
            index_from(e, lang, k)
        },
    decreases e.len() - k,
{
    if k < e.len() {
        lemma_index_from_push(e, lang, k + 1, x);
        assert(e.push(x)[k] == e[k]);
    } else {
        assert(e.push(x)[k] == x);
        assert(index_from(e.push(x), lang, k + 1) == -1);
    }
}

impl Lexicons {
    pub closed spec fn wf(&self) -> bool {
        forall|i: int| 0 <= i < self.entries@.len() ==> (#[trigger] self.entries@[i]).wf()
    }

    /// The list registered for `lang`, if any.
    pub closed spec fn raw_of(&self, lang: Seq<char>) -> Option<Seq<char>> {
        let i = index_from(self.entries@, lang, 0);
        if i == -1 {
            None
        } else {
            Some(self.entries@[i].raw@)
        }
    }

    /// The words of `lang`'s list (none without a list).
    pub open spec fn words_of(&self, lang: Seq<char>) -> Set<Seq<char>> {
        match self.raw_of(lang) {
            Some(raw) => list_words(raw),
            None => Set::empty(),
        }
    }

    /// The function-word table of `lang`'s list (empty without a list).
    pub open spec fn top_words_of(&self, lang: Seq<char>) -> Set<Seq<char>> {
        match self.raw_of(lang) {
            Some(raw) => list_top_words(raw),
            None => Set::empty(),
        }
    }

    /// No lists.
    pub fn new() -> (l: Lexicons)
        ensures
            l.wf(),
            forall|lang: Seq<char>| #[trigger] l.raw_of(lang) is None,
    {
        Lexicons { entries: Vec::new() }
    }

    fn find(&self, lang: &str) -> (r: Option<usize>)
        ensures
            match r {
                Some(i) => index_from(self.entries@, lang@, 0) == i && i < self.entries@.len(),
                None => index_from(self.entries@, lang@, 0) == -1,
            },
    {
        let mut i: usize = 0;
        while i < self.entries.len()
            invariant
                i <= self.entries@.len(),
                index_from(self.entries@, lang@, 0) == index_from(self.entries@, lang@, i as int),
            decreases self.entries.len() - i,
        {
            if str_eq(self.entries[i].lang.as_str(), lang) {
                return Some(i);
            }
            i += 1;
        }
        None
    }

    /// Register `raw` (one word per line, most frequent first) as the
    /// list of `lang`, replacing any earlier list for it.
    pub fn add(&mut self, lang: &str, raw: &str)
        requires
            old(self).wf(),
        ensures
            final(self).wf(),
            final(self).raw_of(lang@) == Some(raw@),
            forall|other: Seq<char>| other != lang@ ==> #[trigger] final(self).raw_of(other) == old(
                self,
            ).raw_of(other),
    {
        let raw_chars = str_chars(raw);
        let (words, top) = build_sets(&raw_chars);
        let lang_chars = str_chars(lang);
        let entry = Lexicon {
            lang: string_from_chars(lang_chars.as_slice()),
            raw: string_from_chars(raw_chars.as_slice()),
            words,
            top,
        };
        let ghost e0 = self.entries@;
        match self.find(lang) {
            Some(i) => {
                proof {
                    lemma_index_from_range(e0, lang@, 0);
                }
                self.entries.set(i, entry);
                proof {
                    assert(self.entries@ == e0.update(i as int, entry));
                    assert forall|other: Seq<char>| other != lang@ implies #[trigger] self.raw_of(
                        other,
                    ) == old(self).raw_of(other) by {
                        lemma_index_from_update(e0, other, 0, i as int, entry);
                        lemma_index_from_range(e0, other, 0);
                    }
                    lemma_index_from_update(e0, lang@, 0, i as int, entry);
                }
            },
            None => {
                self.entries.push(entry);
                proof {
                    assert(self.entries@ == e0.push(entry));
                    assert forall|other: Seq<char>| other != lang@ implies #[trigger] self.raw_of(
                        other,
                    ) == old(self).raw_of(other) by {
                        lemma_index_from_push(e0, other, 0, entry);
                        lemma_index_from_range(e0, other, 0);
                        if index_from(e0, other, 0) != -1 {
                            assert(self.entries@[index_from(e0, other, 0)] == e0[index_from(e0, other, 0)]);
                        }
                    }
                    lemma_index_from_push(e0, lang@, 0, entry);
                }
            },
        }
    }

    /// The list registered for `lang`, or the empty text.
    pub fn raw_for<'a>(&'a self, lang: &str) -> (r: &'a str)
        ensures
            r@ == match self.raw_of(lang@) {
                Some(raw) => raw,
                None => Seq::empty(),
            },
    {
        match self.find(lang) {
            Some(i) => {
                proof {
                    lemma_index_from_range(self.entries@, lang@, 0);
                }
                self.entries[i].raw.as_str()
            },
            None => {
                proof {
                    reveal_strlit("");
                }
                ""
            },
        }
    }

    /// Whether `token` is a word of `lang`'s list.
    pub fn contains(&self, lang: &str, token: &[char]) -> (b: bool)
        requires
            self.wf(),
        ensures
            b == self.words_of(lang@).contains(token@),
    {
        match self.find(lang) {
            Some(i) => {
                proof {
                    lemma_index_from_range(self.entries@, lang@, 0);
                }
                self.entries[i].words.contains(token)
            },
            None => false,
        }
    }

    /// Whether `token` is in the function-word table of `lang`'s list.
    pub fn is_top_word(&self, lang: &str, token: &[char]) -> (b: bool)
        requires
            self.wf(),
        ensures
            b == self.top_words_of(lang@).contains(token@),
    {
        match self.find(lang) {
            Some(i) => {
                proof {
                    lemma_index_from_range(self.entries@, lang@, 0);
                }
                self.entries[i].top.contains(token)
            },
            None => false,
        }
    }
}

} // verus!
