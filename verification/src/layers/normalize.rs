//! Layer 0 — normalization: NFC composition, control characters
//! dropped, whitespace runs collapsed to one space, ends trimmed.

use unicode_normalization::UnicodeNormalization;
use vstd::prelude::*;
use crate::text::{
    byte_len, char_len_utf8, count_where, is_control, is_whitespace, lemma_byte_len_bound,
    lemma_count_where_bound, lemma_count_where_step, spec_is_control, spec_is_whitespace,
    string_from_chars, utf8_len,
};

verus! {

/// What `unicode_normalization`'s `nfc()` yields for these characters:
/// Unicode Normalization Form C (canonical decomposition followed by
/// canonical composition).
pub uninterp spec fn nfc_of(s: Seq<char>) -> Seq<char>;

/// `UnicodeNormalization::nfc` on `s`, collected. The crate documents
/// the output as the string in Normalization Form C, and the rest are
/// facts of that form (UAX #15 and the Unicode Character Database):
/// - a string already in NFC is its own NFC form;
/// - control characters (`Cc`) have no decomposition and take part in
///   no composition, so the output holds one only where the input does;
/// - every `White_Space` character is a starter that composes with no
///   neighbour, and U+2000/U+2001, the only ones that decompose, never
///   occur in NFC; so replacing whitespace by U+0020 or deleting
///   whitespace next to whitespace or at either end (what `tidy` does to
///   an NFC string without dropped controls) leaves a string in NFC.
/// The vector bound is std's: no allocation exceeds `isize::MAX` bytes,
/// and a `char` takes four.
#[verifier::external_body]
fn nfc_chars(s: &str) -> (r: Vec<char>)
    ensures
        r@ == nfc_of(s@),
        nfc_of(r@) == r@,
        (forall|i: int| 0 <= i < s@.len() ==> !is_dropped(#[trigger] s@[i])) ==> (forall|j: int|
            0 <= j < r@.len() ==> !is_dropped(#[trigger] r@[j])),
        (forall|j: int| 0 <= j < r@.len() ==> !is_dropped(#[trigger] r@[j])) ==> nfc_of(tidy(r@))
            == tidy(r@),
        4 * r@.len() <= isize::MAX,
{
    s.nfc().collect()
}

/// The analyzed form of an input.
#[derive(Debug, Clone)]
pub struct Normalized {
    /// The normalized text.
    pub text: String,
    /// The characters of `text`.
    pub chars: Vec<char>,
    /// `char_byte_offsets[i]` is the byte offset in `text` of `chars[i]`;
    /// the last entry is the byte length of `text`.
    pub char_byte_offsets: Vec<usize>,
    /// Characters that are neither whitespace nor punctuation.
    pub visible_chars: usize,
}

/// ASCII punctuation and the common CJK / fullwidth punctuation blocks.
pub open spec fn spec_is_punctuation(c: char) -> bool {
    let v = c as u32;
    c == '.' || c == ',' || c == '!' || c == '?' || c == ';' || c == ':' || c == '"' || c
        == '\'' || c == '`' || c == '(' || c == ')' || c == '[' || c == ']' || c == '{' || c
        == '}' || c == '|' || c == '/' || c == '\\' || c == '-' || c == '_' || c == '+' || c
        == '=' || c == '*' || c == '&' || c == '^' || c == '%' || c == '$' || c == '#' || c
        == '@' || c == '~' || c == '<' || c == '>' || (0x3000 <= v <= 0x303F) || (0xFF00 <= v
        <= 0xFF0F) || (0xFF1A <= v <= 0xFF20) || (0xFF3B <= v <= 0xFF40) || (0xFF5B <= v
        <= 0xFF65)
}

pub open spec fn is_visible(c: char) -> bool {
    !spec_is_whitespace(c) && !spec_is_punctuation(c)
}

/// `is_visible` as a predicate value.
pub open spec fn visible_pred() -> spec_fn(char) -> bool {
    |c: char| is_visible(c)
}

/// Byte offset of the `i`-th character of `s`.
pub open spec fn byte_offset(s: Seq<char>, i: int) -> nat {
    byte_len(s.take(i))
}

impl Normalized {
    /// The fields agree with each other.
    pub open spec fn wf(&self) -> bool {
        &&& self.text@ == self.chars@
        &&& 4 * self.chars@.len() <= isize::MAX
        &&& self.char_byte_offsets@.len() == self.chars@.len() + 1
        &&& forall|i: int|
            0 <= i <= self.chars@.len() ==> #[trigger] self.char_byte_offsets@[i] == byte_offset(
                self.chars@,
                i,
            )
        &&& self.visible_chars == count_where(self.chars@, visible_pred())
    }
}

/// A character the normalizer drops: a control character other than
/// tab and newline (those two are whitespace and collapse to a space).
pub open spec fn is_dropped(c: char) -> bool {
    spec_is_control(c) && c != '\n' && c != '\t'
}

/// Left-to-right pass over `s`: drop control characters, turn each run
/// of whitespace into one space, and drop whitespace right after a
/// space (or at the start, when `after_space` holds).
pub open spec fn collapse(s: Seq<char>, after_space: bool) -> Seq<char>
    decreases s.len(),
{
    if s.len() == 0 {
        Seq::empty()
    } else {
        let c = s[0];
        if is_dropped(c) {
            collapse(s.drop_first(), after_space)
        } else if spec_is_whitespace(c) {
            if after_space {
                collapse(s.drop_first(), true)
            } else {
                seq![' '] + collapse(s.drop_first(), true)
            }
        } else {
            seq![c] + collapse(s.drop_first(), false)
        }
    }
}

/// `s` without leading whitespace.
pub open spec fn trim_start(s: Seq<char>) -> Seq<char>
    decreases s.len(),
{
    if s.len() > 0 && spec_is_whitespace(s[0]) {
        trim_start(s.drop_first())
    } else {
        s
    }
}

/// `s` without trailing whitespace.
pub open spec fn trim_end(s: Seq<char>) -> Seq<char>
    decreases s.len(),
{
    if s.len() > 0 && spec_is_whitespace(s.last()) {
        trim_end(s.drop_last())
    } else {
        s
    }
}

/// Controls dropped, whitespace runs made one space, ends trimmed.
pub open spec fn tidy(t: Seq<char>) -> Seq<char> {
    trim_end(trim_start(collapse(t, true)))
}

/// The characters of the normalized form of `input`.
pub open spec fn normalized_chars(input: Seq<char>) -> Seq<char> {
    tidy(nfc_of(input))
}

pub fn is_punctuation(c: char) -> (b: bool)
    ensures
        b == spec_is_punctuation(c),
{
    let v = c as u32;
    c == '.' || c == ',' || c == '!' || c == '?' || c == ';' || c == ':' || c == '"' || c
        == '\'' || c == '`' || c == '(' || c == ')' || c == '[' || c == ']' || c == '{' || c
        == '}' || c == '|' || c == '/' || c == '\\' || c == '-' || c == '_' || c == '+' || c
        == '=' || c == '*' || c == '&' || c == '^' || c == '%' || c == '$' || c == '#' || c
        == '@' || c == '~' || c == '<' || c == '>' || (0x3000 <= v && v <= 0x303F) || (0xFF00
        <= v && v <= 0xFF0F) || (0xFF1A <= v && v <= 0xFF20) || (0xFF3B <= v && v <= 0xFF40)
        || (0xFF5B <= v && v <= 0xFF65)
}

proof fn lemma_collapse_step(s: Seq<char>, i: int, after_space: bool)
    requires
        0 <= i < s.len(),
    ensures
        collapse(s.skip(i), after_space) == if is_dropped(s[i]) {
            collapse(s.skip(i + 1), after_space)
        } else if spec_is_whitespace(s[i]) {
            if after_space {
                collapse(s.skip(i + 1), true)
            } else {
                seq![' '] + collapse(s.skip(i + 1), true)
            }
        } else {
            seq![s[i]] + collapse(s.skip(i + 1), false)
        },
{
    assert(s.skip(i).drop_first() =~= s.skip(i + 1));
    assert(s.skip(i)[0] == s[i]);
}

/// The collapse pass over a whole sequence.
fn collapse_chars(s: &Vec<char>) -> (r: Vec<char>)
    ensures
        r@ == collapse(s@, true),
{
    let mut out: Vec<char> = Vec::new();
    let mut after_space = true;
    let mut i: usize = 0;
    assert(s@.skip(0) =~= s@);
    assert(out@ + collapse(s@, true) =~= collapse(s@, true));
    while i < s.len()
        invariant
            i <= s.len(),
            collapse(s@, true) == out@ + collapse(s@.skip(i as int), after_space),
        decreases s.len() - i,
    {
        let c = s[i];
        proof {
            lemma_collapse_step(s@, i as int, after_space);
        }
        if is_control(c) && c != '\n' && c != '\t' {
        } else if is_whitespace(c) {
            if !after_space {
                out.push(' ');
                after_space = true;
                assert(out@ =~= out@.drop_last() + seq![' ']);
            }
        } else {
            out.push(c);
            after_space = false;
            assert(out@ =~= out@.drop_last() + seq![c]);
        }
        proof {
            assert forall|x: Seq<char>, y: Seq<char>, z: Seq<char>| (x + y) + z =~= x + (y + z) by {}
        }
        i += 1;
    }
    assert(s@.skip(s.len() as int) =~= Seq::<char>::empty());
    assert(out@ + Seq::<char>::empty() =~= out@);
    out
}

proof fn lemma_trim_start_skip(s: Seq<char>, i: int)
    requires
        0 <= i <= s.len(),
        forall|k: int| 0 <= k < i ==> spec_is_whitespace(#[trigger] s[k]),
    ensures
        trim_start(s) == trim_start(s.skip(i)),
    decreases i,
{
    if i > 0 {
        lemma_trim_start_skip(s, i - 1);
        assert(s.skip(i - 1).drop_first() =~= s.skip(i));
        assert(s.skip(i - 1)[0] == s[i - 1]);
    } else {
        assert(s.skip(0) =~= s);
    }
}

proof fn lemma_trim_end_take(s: Seq<char>, j: int)
    requires
        0 <= j <= s.len(),
        forall|k: int| j <= k < s.len() ==> spec_is_whitespace(#[trigger] s[k]),
    ensures
        trim_end(s) == trim_end(s.take(j)),
    decreases s.len() - j,
{
    if j < s.len() {
        lemma_trim_end_take(s, j + 1);
        assert(s.take(j + 1).drop_last() =~= s.take(j));
        assert(s.take(j + 1).last() == s[j]);
    } else {
        assert(s.take(j) =~= s);
    }
}

/// `str::trim` on a character sequence.
fn trim_chars(s: &Vec<char>) -> (r: Vec<char>)
    ensures
        r@ == trim_end(trim_start(s@)),
{
    let mut i: usize = 0;
    while i < s.len() && is_whitespace(s[i])
        invariant
            i <= s.len(),
            forall|k: int| 0 <= k < i ==> spec_is_whitespace(#[trigger] s@[k]),
        decreases s.len() - i,
    {
        i += 1;
    }
    proof {
        lemma_trim_start_skip(s@, i as int);
    }
    let ghost rest = s@.skip(i as int);
    assert(trim_start(rest) == rest);
    let mut j: usize = s.len();
    while j > i && is_whitespace(s[j - 1])
        invariant
            i <= j <= s.len(),
            rest == s@.skip(i as int),
            forall|k: int| j <= k < s.len() ==> spec_is_whitespace(#[trigger] s@[k]),
        decreases j - i,
    {
        j -= 1;
    }
    proof {
        let jj = j - i;
        assert forall|k: int| jj <= k < rest.len() implies spec_is_whitespace(#[trigger] rest[k]) by {
            assert(rest[k] == s@[k + i]);
        }
        lemma_trim_end_take(rest, jj);
        assert(j > i ==> rest.take(jj).last() == s@[j - 1]);
    }
    let mut r: Vec<char> = Vec::new();
    let mut k: usize = i;
    while k < j
        invariant
            i <= k <= j <= s.len(),
            r@ =~= s@.subrange(i as int, k as int),
        decreases j - k,
    {
        r.push(s[k]);
        k += 1;
    }
    assert(r@ =~= rest.take((j - i) as int));
    r
}

/// Byte offsets of every character and of the end.
pub(crate) fn byte_offsets(s: &Vec<char>) -> (r: Vec<usize>)
    requires
        4 * s@.len() <= isize::MAX,
    ensures
        r@.len() == s@.len() + 1,
        forall|i: int| 0 <= i <= s@.len() ==> #[trigger] r@[i] == byte_offset(s@, i),
{
    let mut r: Vec<usize> = Vec::new();
    let mut off: usize = 0;
    r.push(0);
    assert(s@.take(0) =~= Seq::<char>::empty());
    let mut i: usize = 0;
    while i < s.len()
        invariant
            i <= s.len(),
            4 * s@.len() <= isize::MAX,
            r@.len() == i + 1,
            off == byte_offset(s@, i as int),
            forall|k: int| 0 <= k <= i ==> #[trigger] r@[k] == byte_offset(s@, k),
        decreases s.len() - i,
    {
        proof {
            lemma_byte_len_bound(s@.take(i + 1));
            assert(s@.take(i + 1).drop_last() =~= s@.take(i as int));
        }
        off = off + char_len_utf8(s[i]);
        r.push(off);
        i += 1;
    }
    r
}

/// Number of visible characters.
fn count_visible(s: &Vec<char>) -> (n: usize)
    ensures
        n == count_where(s@, visible_pred()),
{
    let ghost p = visible_pred();
    let mut n: usize = 0;
    let mut i: usize = 0;
    assert(s@.take(0) =~= Seq::<char>::empty());
    while i < s.len()
        invariant
            i <= s.len(),
            p == visible_pred(),
            n == count_where(s@.take(i as int), p),
        decreases s.len() - i,
    {
        proof {
            lemma_count_where_step(s@, p, i as int);
            lemma_count_where_bound(s@.take(i as int), p);
        }
        let ws = is_whitespace(s[i]);
        let pu = is_punctuation(s[i]);
        if !ws && !pu {
            n += 1;
        }
        i += 1;
    }
    assert(s@.take(s.len() as int) =~= s@);
    n
}

/// Normalize `input` for analysis: NFC-compose it, drop control
/// characters other than tab and newline, collapse every whitespace run
/// into one space, and trim both ends.
pub fn normalize(input: &str) -> (n: Normalized)
    ensures
        n.wf(),
        n.chars@ == normalized_chars(input@),
        (forall|i: int| 0 <= i < input@.len() ==> !is_dropped(#[trigger] input@[i]))
            ==> normalized_chars(n.chars@) == n.chars@,
{
    let nfc = nfc_chars(input);
    proof {
        if forall|i: int| 0 <= i < input@.len() ==> !is_dropped(#[trigger] input@[i]) {
            lemma_normalize_idempotent(input@);
        }
    }
    let collapsed = collapse_chars(&nfc);
    proof {
        lemma_collapse_len(nfc@, true);
    }
    let chars = trim_chars(&collapsed);
    proof {
        lemma_trim_len(collapsed@);
    }
    let text = string_from_chars(chars.as_slice());
    let char_byte_offsets = byte_offsets(&chars);
    let visible_chars = count_visible(&chars);
    Normalized { text, chars, char_byte_offsets, visible_chars }
}

proof fn lemma_collapse_len(s: Seq<char>, after_space: bool)
    ensures
        collapse(s, after_space).len() <= s.len(),
    decreases s.len(),
{
    if s.len() > 0 {
        lemma_collapse_len(s.drop_first(), true);
        lemma_collapse_len(s.drop_first(), false);
        lemma_collapse_len(s.drop_first(), after_space);
    }
}

proof fn lemma_trim_len(s: Seq<char>)
    ensures
        trim_end(trim_start(s)).len() <= s.len(),
{
    lemma_trim_start_len(s);
    lemma_trim_end_len(trim_start(s));
}

proof fn lemma_trim_start_len(s: Seq<char>)
    ensures
        trim_start(s).len() <= s.len(),
    decreases s.len(),
{
    if s.len() > 0 && spec_is_whitespace(s[0]) {
        lemma_trim_start_len(s.drop_first());
    }
}

proof fn lemma_trim_end_len(s: Seq<char>)
    ensures
        trim_end(s).len() <= s.len(),
    decreases s.len(),
{
    if s.len() > 0 && spec_is_whitespace(s.last()) {
        lemma_trim_end_len(s.drop_last());
    }
}

/// A character that may stand in normalized text: a plain space, or a
/// character that is neither whitespace nor a dropped control.
pub open spec fn is_kept(c: char) -> bool {
    c == ' ' || (!spec_is_whitespace(c) && !is_dropped(c))
}

/// The shape of normalized text: only kept characters, no two spaces in
/// a row, and no whitespace at either end.
pub open spec fn is_normal_shape(t: Seq<char>) -> bool {
    &&& forall|i: int| 0 <= i < t.len() ==> is_kept(#[trigger] t[i])
    &&& forall|i: int| 0 <= i < t.len() - 1 ==> !(#[trigger] t[i] == ' ' && t[i + 1] == ' ')
    &&& t.len() > 0 ==> !spec_is_whitespace(t[0]) && !spec_is_whitespace(t[t.len() - 1])
}

proof fn lemma_collapse_shape(s: Seq<char>, after_space: bool)
    ensures
        forall|i: int| 0 <= i < collapse(s, after_space).len() ==> is_kept(
            #[trigger] collapse(s, after_space)[i],
        ),
        forall|i: int|
            0 <= i < collapse(s, after_space).len() - 1 ==> !(#[trigger] collapse(s, after_space)[i]
                == ' ' && collapse(s, after_space)[i + 1] == ' '),
        after_space && collapse(s, after_space).len() > 0 ==> collapse(s, after_space)[0] != ' ',
    decreases s.len(),
{
    if s.len() > 0 {
        let c = s[0];
        let rest = s.drop_first();
        if is_dropped(c) {
            lemma_collapse_shape(rest, after_space);
        } else if spec_is_whitespace(c) {
            lemma_collapse_shape(rest, true);
            if !after_space {
                let r = collapse(rest, true);
                let out = seq![' '] + r;
                assert(collapse(s, after_space) == out);
                assert forall|i: int| 0 <= i < out.len() implies is_kept(#[trigger] out[i]) by {
                    if i > 0 {
                        assert(out[i] == r[i - 1]);
                    }
                }
                assert forall|i: int| 0 <= i < out.len() - 1 implies !(#[trigger] out[i] == ' '
                    && out[i + 1] == ' ') by {
                    assert(out[i + 1] == r[i]);
                    if i > 0 {
                        assert(out[i] == r[i - 1]);
                    }
                }
            }
        } else {
            lemma_collapse_shape(rest, false);
            let r = collapse(rest, false);
            let out = seq![c] + r;
            assert(collapse(s, after_space) == out);
            assert forall|i: int| 0 <= i < out.len() implies is_kept(#[trigger] out[i]) by {
                if i > 0 {
                    assert(out[i] == r[i - 1]);
                }
            }
            assert forall|i: int| 0 <= i < out.len() - 1 implies !(#[trigger] out[i] == ' ' && out[i
                + 1] == ' ') by {
                assert(out[i + 1] == r[i]);
                if i > 0 {
                    assert(out[i] == r[i - 1]);
                }
            }
        }
    }
}

proof fn lemma_trim_start_suffix(s: Seq<char>)
    ensures
        exists|k: int| 0 <= k <= s.len() && trim_start(s) == s.skip(k),
        trim_start(s).len() > 0 ==> !spec_is_whitespace(trim_start(s)[0]),
    decreases s.len(),
{
    if s.len() > 0 && spec_is_whitespace(s[0]) {
        lemma_trim_start_suffix(s.drop_first());
        let k = choose|k: int| 0 <= k <= s.drop_first().len() && trim_start(s.drop_first()) == s.drop_first().skip(k);
        assert(s.drop_first().skip(k) =~= s.skip(k + 1));
    } else {
        assert(s.skip(0) =~= s);
    }
}

proof fn lemma_trim_end_prefix(s: Seq<char>)
    ensures
        exists|k: int| 0 <= k <= s.len() && trim_end(s) == s.take(k),
        trim_end(s).len() > 0 ==> !spec_is_whitespace(trim_end(s)[trim_end(s).len() - 1]),
        trim_end(s).len() > 0 && s.len() > 0 ==> trim_end(s)[0] == s[0],
    decreases s.len(),
{
    if s.len() > 0 && spec_is_whitespace(s.last()) {
        lemma_trim_end_prefix(s.drop_last());
        let k = choose|k: int| 0 <= k <= s.drop_last().len() && trim_end(s.drop_last()) == s.drop_last().take(k);
        assert(s.drop_last().take(k) =~= s.take(k));
        if trim_end(s).len() > 0 {
            assert(trim_end(s)[0] == s.drop_last()[0]);
        }
    } else {
        assert(s.take(s.len() as int) =~= s);
    }
}

/// Normalized text holds only plain spaces and characters that are
/// neither whitespace nor dropped controls, never two spaces in a row,
/// and no whitespace at either end.
pub proof fn lemma_normalized_shape(input: Seq<char>)
    ensures
        is_normal_shape(normalized_chars(input)),
        forall|i: int|
            0 <= i < normalized_chars(input).len() ==> !spec_is_control(
                #[trigger] normalized_chars(input)[i],
            ) && (spec_is_whitespace(normalized_chars(input)[i]) ==> normalized_chars(input)[i]
                == ' '),
{
    let c = collapse(nfc_of(input), true);
    lemma_collapse_shape(nfc_of(input), true);
    lemma_trim_start_suffix(c);
    let ts = trim_start(c);
    let k = choose|k: int| 0 <= k <= c.len() && ts == c.skip(k);
    lemma_trim_end_prefix(ts);
    let t = trim_end(ts);
    let j = choose|j: int| 0 <= j <= ts.len() && t == ts.take(j);
    assert forall|i: int| 0 <= i < t.len() implies is_kept(#[trigger] t[i]) by {
        assert(t[i] == c[i + k]);
    }
    assert forall|i: int| 0 <= i < t.len() - 1 implies !(#[trigger] t[i] == ' ' && t[i + 1] == ' ') by {
        assert(t[i] == c[i + k]);
        assert(t[i + 1] == c[i + 1 + k]);
    }
    assert forall|i: int| 0 <= i < t.len() implies !spec_is_control(#[trigger] t[i]) && (
    spec_is_whitespace(t[i]) ==> t[i] == ' ') by {
        assert(is_kept(t[i]));
    }
}

proof fn lemma_collapse_identity(s: Seq<char>, after_space: bool)
    requires
        forall|i: int| 0 <= i < s.len() ==> is_kept(#[trigger] s[i]),
        forall|i: int| 0 <= i < s.len() - 1 ==> !(#[trigger] s[i] == ' ' && s[i + 1] == ' '),
        after_space && s.len() > 0 ==> s[0] != ' ',
    ensures
        collapse(s, after_space) == s,
    decreases s.len(),
{
    if s.len() > 0 {
        let c = s[0];
        let rest = s.drop_first();
        assert(is_kept(s[0]));
        assert forall|i: int| 0 <= i < rest.len() implies is_kept(#[trigger] rest[i]) by {
            assert(rest[i] == s[i + 1]);
        }
        assert forall|i: int| 0 <= i < rest.len() - 1 implies !(#[trigger] rest[i] == ' ' && rest[i
            + 1] == ' ') by {
            assert(rest[i] == s[i + 1]);
            assert(rest[i + 1] == s[i + 2]);
        }
        if c == ' ' {
            if rest.len() > 0 {
                assert(!(s[0] == ' ' && s[1] == ' '));
            }
            lemma_collapse_identity(rest, true);
            assert(seq![' '] + rest =~= s);
        } else {
            lemma_collapse_identity(rest, false);
            assert(seq![c] + rest =~= s);
        }
    }
}

/// Normalizing normalized text changes nothing, when that text is its
/// own NFC form.
pub proof fn lemma_normalize_idempotent(input: Seq<char>)
    requires
        nfc_of(normalized_chars(input)) == normalized_chars(input),
    ensures
        normalized_chars(normalized_chars(input)) == normalized_chars(input),
{
    let t = normalized_chars(input);
    lemma_normalized_shape(input);
    lemma_collapse_identity(t, true);
    if t.len() > 0 {
        assert(trim_start(t) == t);
        assert(trim_end(t) == t);
    } else {
        assert(trim_start(t) == t);
    }
}

} // verus!
