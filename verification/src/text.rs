//! Character-level helpers shared by every layer: Unicode property
//! predicates, UTF-8 widths, counting over sequences, and the few std
//! string operations the layers need.

use vstd::prelude::*;

verus! {

/// Unicode `White_Space` property.
pub open spec fn spec_is_whitespace(c: char) -> bool {
    let v = c as u32;
    (0x09 <= v && v <= 0x0D) || v == 0x20 || v == 0x85 || v == 0xA0 || v == 0x1680
        || (0x2000 <= v && v <= 0x200A) || v == 0x2028 || v == 0x2029 || v == 0x202F
        || v == 0x205F || v == 0x3000
}

/// Unicode general category `Cc` (control characters).
pub open spec fn spec_is_control(c: char) -> bool {
    let v = c as u32;
    v <= 0x1F || (0x7F <= v && v <= 0x9F)
}

/// Whether `c` has the Unicode `White_Space` property (what
/// `char::is_whitespace` answers).
pub fn is_whitespace(c: char) -> (b: bool)
    ensures
        b == spec_is_whitespace(c),
{
    let v = c as u32;
    (0x09 <= v && v <= 0x0D) || v == 0x20 || v == 0x85 || v == 0xA0 || v == 0x1680 || (0x2000
        <= v && v <= 0x200A) || v == 0x2028 || v == 0x2029 || v == 0x202F || v == 0x205F || v
        == 0x3000
}

/// Whether `c` is a control character, general category `Cc` (what
/// `char::is_control` answers).
pub fn is_control(c: char) -> (b: bool)
    ensures
        b == spec_is_control(c),
{
    let v = c as u32;
    v <= 0x1F || (0x7F <= v && v <= 0x9F)
}

/// Number of bytes the UTF-8 encoding of `c` takes.
pub open spec fn utf8_len(c: char) -> nat {
    let v = c as u32;
    if v < 0x80 {
        1
    } else if v < 0x800 {
        2
    } else if v < 0x10000 {
        3
    } else {
        4
    }
}

/// Byte length of the UTF-8 encoding of `s`.
pub open spec fn byte_len(s: Seq<char>) -> nat
    decreases s.len(),
{
    if s.len() == 0 {
        0
    } else {
        byte_len(s.drop_last()) + utf8_len(s.last())
    }
}

pub proof fn lemma_byte_len_bound(s: Seq<char>)
    ensures
        byte_len(s) <= 4 * s.len(),
    decreases s.len(),
{
    if s.len() > 0 {
        lemma_byte_len_bound(s.drop_last());
    }
}

pub proof fn lemma_byte_len_mono(s: Seq<char>, i: int, j: int)
    requires
        0 <= i <= j <= s.len(),
    ensures
        byte_len(s.take(i)) + (j - i) <= byte_len(s.take(j)),
    decreases j - i,
{
    if i < j {
        lemma_byte_len_mono(s, i, j - 1);
        assert(s.take(j).drop_last() =~= s.take(j - 1));
    }
}

/// The bytes up to `b` are the bytes up to `a` and those of `s[a..b]`.
pub proof fn lemma_byte_len_split(s: Seq<char>, a: int, b: int)
    requires
        0 <= a <= b <= s.len(),
    ensures
        byte_len(s.take(b)) == byte_len(s.take(a)) + byte_len(s.subrange(a, b)),
    decreases b - a,
{
    if a == b {
        assert(s.take(a) =~= s.take(b));
        assert(s.subrange(a, b) =~= Seq::<char>::empty());
    } else {
        lemma_byte_len_split(s, a, b - 1);
        assert(s.take(b).drop_last() =~= s.take(b - 1));
        assert(s.subrange(a, b).drop_last() =~= s.subrange(a, b - 1));
    }
}

/// UTF-8 width of `c` (what `char::len_utf8` returns).
pub fn char_len_utf8(c: char) -> (n: usize)
    ensures
        n == utf8_len(c),
        1 <= n <= 4,
{
    let v = c as u32;
    if v < 0x80 {
        1
    } else if v < 0x800 {
        2
    } else if v < 0x10000 {
        3
    } else {
        4
    }
}

/// Number of elements of `s` that satisfy `p`.
pub open spec fn count_where(s: Seq<char>, p: spec_fn(char) -> bool) -> nat
    decreases s.len(),
{
    if s.len() == 0 {
        0
    } else {
        count_where(s.drop_last(), p) + if p(s.last()) {
            1nat
        } else {
            0nat
        }
    }
}

pub proof fn lemma_count_where_bound(s: Seq<char>, p: spec_fn(char) -> bool)
    ensures
        count_where(s, p) <= s.len(),
    decreases s.len(),
{
    if s.len() > 0 {
        lemma_count_where_bound(s.drop_last(), p);
    }
}

/// Counting one more element extends the count of the prefix.
pub proof fn lemma_count_where_step(s: Seq<char>, p: spec_fn(char) -> bool, i: int)
    requires
        0 <= i < s.len(),
    ensures
        count_where(s.take(i + 1), p) == count_where(s.take(i), p) + if p(s[i]) {
            1nat
        } else {
            0nat
        },
{
    assert(s.take(i + 1).drop_last() =~= s.take(i));
}

/// Counting over a concatenation adds up.
pub proof fn lemma_count_where_concat(a: Seq<char>, b: Seq<char>, p: spec_fn(char) -> bool)
    ensures
        count_where(a + b, p) == count_where(a, p) + count_where(b, p),
    decreases b.len(),
{
    if b.len() == 0 {
        assert(a + b =~= a);
    } else {
        lemma_count_where_concat(a, b.drop_last(), p);
        assert((a + b).drop_last() =~= a + b.drop_last());
    }
}

/// Whether some element of `s` satisfies `p`.
pub open spec fn any_where(s: Seq<char>, p: spec_fn(char) -> bool) -> bool {
    exists|i: int| 0 <= i < s.len() && p(s[i])
}

/// `str::chars` collected into a vector. A `Vec<char>` of `n` elements
/// occupies `4 * n` bytes, and std never allocates more than
/// `isize::MAX` bytes, which bounds the length.
#[verifier::external_body]
pub(crate) fn str_chars(s: &str) -> (v: Vec<char>)
    ensures
        v@ == s@,
        4 * v@.len() <= isize::MAX,
{
    s.chars().collect()
}

/// `String::push`.
#[verifier::external_body]
pub(crate) fn string_push(s: &mut String, c: char)
    ensures
        final(s)@ == old(s)@.push(c),
{
    s.push(c)
}

/// Whether `a` and `b` hold the same characters.
pub(crate) fn str_eq(a: &str, b: &str) -> (r: bool)
    ensures
        r == (a@ == b@),
{
    let x = str_chars(a);
    let y = str_chars(b);
    if x.len() != y.len() {
        return false;
    }
    let mut i: usize = 0;
    while i < x.len()
        invariant
            i <= x.len(),
            x.len() == y.len(),
            x@ == a@,
            y@ == b@,
            forall|j: int| 0 <= j < i ==> x@[j] == y@[j],
        decreases x.len() - i,
    {
        if x[i] != y[i] {
            return false;
        }
        i += 1;
    }
    assert(x@ =~= y@);
    true
}

/// `str::strip_prefix`: `Some(rest)` exactly when `s` starts with
/// `prefix`, with `rest` the remainder.
#[verifier::external_body]
pub(crate) fn str_strip_prefix<'a>(s: &'a str, prefix: &str) -> (r: Option<&'a str>)
    ensures
        r is Some <==> prefix@.is_prefix_of(s@),
        r matches Some(rest) ==> rest@ == s@.skip(prefix@.len() as int),
{
    s.strip_prefix(prefix)
}

/// The characters of `s` collected into a `String`.
pub fn string_from_chars(s: &[char]) -> (r: String)
    ensures
        r@ == s@,
{
    let mut r = String::new();
    let mut i: usize = 0;
    while i < s.len()
        invariant
            i <= s.len(),
            r@ == s@.take(i as int),
        decreases s.len() - i,
    {
        string_push(&mut r, s[i]);
        assert(s@.take(i as int).push(s@[i as int]) =~= s@.take(i + 1));
        i += 1;
    }
    assert(s@.take(s.len() as int) =~= s@);
    r
}

/// What `str::to_lowercase` returns for a string with these characters
/// (full Unicode case mapping, context-sensitive for final sigma).
pub uninterp spec fn lowercase_of(s: Seq<char>) -> Seq<char>;

/// `str::to_lowercase`, taking and giving characters.
#[verifier::external_body]
pub(crate) fn to_lowercase(s: &[char]) -> (r: Vec<char>)
    ensures
        r@ == lowercase_of(s@),
{
    let text: String = s.iter().collect();
    text.to_lowercase().chars().collect()
}

/// What `char::to_lowercase` yields for one character.
pub uninterp spec fn char_lowercase_of(c: char) -> Seq<char>;

/// `char::to_lowercase`, collected.
#[verifier::external_body]
pub(crate) fn char_to_lowercase(c: char) -> (r: Vec<char>)
    ensures
        r@ == char_lowercase_of(c),
{
    c.to_lowercase().collect()
}

/// `Vec::len` on characters. A `Vec<char>` of `n` elements occupies
/// `4 * n` bytes, and std never allocates more than `isize::MAX` bytes.
#[verifier::external_body]
pub(crate) fn char_count(v: &Vec<char>) -> (n: usize)
    ensures
        n == v@.len(),
        4 * n <= isize::MAX,
{
    v.len()
}

/// Number of non-overlapping occurrences of `pat` in `text`, scanning
/// left to right (what `str::matches(..).count()` gives).
pub open spec fn count_matches(text: Seq<char>, pat: Seq<char>) -> nat
    decreases text.len(),
{
    if pat.len() == 0 || text.len() < pat.len() {
        0
    } else if pat.is_prefix_of(text) {
        1 + count_matches(text.skip(pat.len() as int), pat)
    } else {
        count_matches(text.drop_first(), pat)
    }
}

pub proof fn lemma_count_matches_bound(text: Seq<char>, pat: Seq<char>)
    ensures
        count_matches(text, pat) * pat.len() <= text.len(),
    decreases text.len(),
{
    if pat.len() == 0 || text.len() < pat.len() {
        assert(0 * pat.len() == 0) by (nonlinear_arith);
    } else if pat.is_prefix_of(text) {
        let rest = text.skip(pat.len() as int);
        lemma_count_matches_bound(rest, pat);
        let c = count_matches(rest, pat);
        assert((1 + c) * pat.len() == pat.len() + c * pat.len()) by (nonlinear_arith);
        assert(rest.len() == text.len() - pat.len());
        assert(count_matches(text, pat) == 1 + c);
        let t = count_matches(text, pat);
        assert(t * pat.len() == (1 + c) * pat.len()) by (nonlinear_arith) requires t == 1 + c;
    } else {
        lemma_count_matches_bound(text.drop_first(), pat);
        assert(count_matches(text, pat) == count_matches(text.drop_first(), pat));
    }
}

/// Whether `pat` occurs in `text` at index `i`.
pub fn matches_at(text: &Vec<char>, i: usize, pat: &Vec<char>) -> (b: bool)
    requires
        i <= text.len(),
    ensures
        b == pat@.is_prefix_of(text@.skip(i as int)),
{
    if text.len() - i < pat.len() {
        return false;
    }
    let mut k: usize = 0;
    while k < pat.len()
        invariant
            k <= pat.len(),
            i + pat.len() <= text.len(),
            forall|j: int| 0 <= j < k ==> pat@[j] == text@[i + j],
        decreases pat.len() - k,
    {
        if pat[k] != text[i + k] {
            return false;
        }
        k += 1;
    }
    true
}

/// Non-overlapping occurrences of `pat` in `text`.
pub fn count_occurrences(text: &Vec<char>, pat: &Vec<char>) -> (n: usize)
    ensures
        n == count_matches(text@, pat@),
{
    proof {
        lemma_count_matches_bound(text@, pat@);
        if pat@.len() > 0 {
            assert(count_matches(text@, pat@) * pat@.len() >= count_matches(text@, pat@)) by (nonlinear_arith)
                requires pat@.len() > 0;
        }
    }
    if pat.len() == 0 {
        return 0;
    }
    let mut n: usize = 0;
    let mut i: usize = 0;
    assert(text@.skip(0) =~= text@);
    while i < text.len() && text.len() - i >= pat.len()
        invariant
            i <= text.len(),
            pat.len() > 0,
            count_matches(text@, pat@) <= text.len(),
            count_matches(text@, pat@) == n + count_matches(text@.skip(i as int), pat@),
        decreases text.len() - i,
    {
        let rest = Ghost(text@.skip(i as int));
        if matches_at(text, i, pat) {
            proof {
                assert(rest@.skip(pat.len() as int) =~= text@.skip(i + pat.len()));
                lemma_count_matches_bound(rest@, pat@);
            }
            n += 1;
            i += pat.len();
        } else {
            assert(rest@.drop_first() =~= text@.skip(i + 1));
            i += 1;
        }
    }
    assert(count_matches(text@.skip(i as int), pat@) == 0);
    n
}

/// Total non-overlapping occurrences of each pattern in `text`.
pub open spec fn sum_matches(text: Seq<char>, pats: Seq<Seq<char>>) -> nat
    decreases pats.len(),
{
    if pats.len() == 0 {
        0
    } else {
        sum_matches(text, pats.drop_last()) + count_matches(text, pats.last())
    }
}

/// The views of a sequence of character vectors.
pub open spec fn views(v: Seq<Vec<char>>) -> Seq<Seq<char>> {
    v.map_values(|p: Vec<char>| p@)
}

/// Sum of the occurrence counts of patterns of at least `m` characters.
pub(crate) fn count_all(text: &Vec<char>, pats: &Vec<Vec<char>>, Ghost(m): Ghost<nat>) -> (n: usize)
    requires
        m >= 1,
        pats@.len() * text@.len() <= m * usize::MAX,
        forall|k: int| 0 <= k < pats@.len() ==> #[trigger] pats@[k]@.len() >= m,
    ensures
        n == sum_matches(text@, views(pats@)),
{
    let ghost dv = views(pats@);
    let mut n: usize = 0;
    let mut k: usize = 0;
    assert(dv.take(0) =~= Seq::<Seq<char>>::empty());
    while k < pats.len()
        invariant
            k <= pats.len(),
            dv == views(pats@),
            m >= 1,
            pats@.len() * text@.len() <= m * usize::MAX,
            forall|j: int| 0 <= j < pats@.len() ==> #[trigger] pats@[j]@.len() >= m,
            n == sum_matches(text@, dv.take(k as int)),
            n * m <= k * text@.len(),
        decreases pats.len() - k,
    {
        let c = count_occurrences(text, &pats[k]);
        proof {
            lemma_count_matches_bound(text@, pats@[k as int]@);
            let p = pats@[k as int]@.len();
            let len = text@.len();
            let kk = k as int;
            let np = pats@.len();
            assert(c * m <= c * p) by (nonlinear_arith) requires p >= m;
            assert(dv.take(k + 1).drop_last() =~= dv.take(k as int));
            assert(dv[k as int] == pats@[k as int]@);
            assert((n + c) * m == n * m + c * m) by (nonlinear_arith);
            assert((kk + 1) * len == kk * len + len) by (nonlinear_arith);
            assert((kk + 1) * len <= np * len) by (nonlinear_arith) requires kk + 1 <= np;
            assert(n + c <= usize::MAX) by (nonlinear_arith)
                requires (n + c) * m <= m * usize::MAX, m >= 1;
        }
        n = n + c;
        k += 1;
    }
    assert(dv.take(pats.len() as int) =~= dv);
    n
}

/// The characters `s[a..b]`.
pub(crate) fn copy_range(s: &Vec<char>, a: usize, b: usize) -> (r: Vec<char>)
    requires
        a <= b <= s.len(),
    ensures
        r@ == s@.subrange(a as int, b as int),
{
    let mut r: Vec<char> = Vec::new();
    let mut i: usize = a;
    while i < b
        invariant
            a <= i <= b <= s.len(),
            r@ == s@.subrange(a as int, i as int),
        decreases b - i,
    {
        r.push(s[i]);
        assert(r@ =~= s@.subrange(a as int, i + 1));
        i += 1;
    }
    r
}

} // verus!
