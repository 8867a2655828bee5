//! Per-language counters: a small map from a language tag to a count,
//! kept in key order.

use vstd::prelude::*;
use crate::text::{str_chars, str_eq, string_from_chars};

verus! {

/// A map from language tag to count, its entries in increasing order
/// of the tags (code point by code point, as `str` orders).
#[derive(Debug, Clone, Default)]
pub struct Tally {
    entries: Vec<(String, usize)>,
}

/// The map the entries describe (a later entry of the same key would
/// win; the tally never holds one).
pub open spec fn map_of(e: Seq<(String, usize)>) -> Map<Seq<char>, nat>
    decreases e.len(),
{
    if e.len() == 0 {
        Map::empty()
    } else {
        map_of(e.drop_last()).insert(e.last().0@, e.last().1 as nat)
    }
}

pub open spec fn keys_distinct(e: Seq<(String, usize)>) -> bool {
    forall|i: int, j: int| 0 <= i < j < e.len() ==> e[i].0@ != e[j].0@
}

/// `a` comes before `b` in code-point lexicographic order, the order of
/// `str`'s `Ord`.
pub open spec fn key_lt(a: Seq<char>, b: Seq<char>) -> bool
    decreases a.len(),
{
    if a.len() == 0 {
        b.len() > 0
    } else if b.len() == 0 {
        false
    } else if a[0] != b[0] {
        a[0] < b[0]
    } else {
        key_lt(a.drop_first(), b.drop_first())
    }
}

/// The keys are in strictly increasing order.
pub open spec fn keys_sorted(e: Seq<(String, usize)>) -> bool {
    forall|i: int, j: int| 0 <= i < j < e.len() ==> key_lt(#[trigger] e[i].0@, #[trigger] e[j].0@)
}

pub proof fn lemma_key_lt_irreflexive(a: Seq<char>)
    ensures
        !key_lt(a, a),
    decreases a.len(),
{
    if a.len() > 0 {
        lemma_key_lt_irreflexive(a.drop_first());
    }
}

pub proof fn lemma_key_lt_total(a: Seq<char>, b: Seq<char>)
    ensures
        a == b || key_lt(a, b) || key_lt(b, a),
    decreases a.len(),
{
    if a.len() > 0 && b.len() > 0 && a[0] == b[0] {
        lemma_key_lt_total(a.drop_first(), b.drop_first());
        if a.drop_first() == b.drop_first() {
            assert(a =~= seq![a[0]] + a.drop_first());
            assert(b =~= seq![b[0]] + b.drop_first());
        }
    } else if a.len() > 0 && b.len() > 0 {
        assert(a[0] != b[0]);
    } else if a.len() == 0 && b.len() == 0 {
        assert(a =~= b);
    }
}

pub proof fn lemma_key_lt_transitive(a: Seq<char>, b: Seq<char>, c: Seq<char>)
    requires
        key_lt(a, b),
        key_lt(b, c),
    ensures
        key_lt(a, c),
    decreases a.len(),
{
    if a.len() > 0 && b.len() > 0 && c.len() > 0 && a[0] == b[0] && b[0] == c[0] {
        lemma_key_lt_transitive(a.drop_first(), b.drop_first(), c.drop_first());
    }
}

pub proof fn lemma_key_lt_asymmetric(a: Seq<char>, b: Seq<char>)
    requires
        key_lt(a, b),
    ensures
        !key_lt(b, a),
        a != b,
{
    lemma_key_lt_irreflexive(a);
    if key_lt(b, a) {
        lemma_key_lt_transitive(a, b, a);
    }
}

fn key_less(a: &str, b: &str) -> (r: bool)
    ensures
        r == key_lt(a@, b@),
{
    let x = str_chars(a);
    let y = str_chars(b);
    let mut i: usize = 0;
    assert(x@.skip(0) =~= x@);
    assert(y@.skip(0) =~= y@);
    while i < x.len() && i < y.len() && x[i] == y[i]
        invariant
            i <= x.len(),
            i <= y.len(),
            x@ == a@,
            y@ == b@,
            key_lt(a@, b@) == key_lt(x@.skip(i as int), y@.skip(i as int)),
        decreases x.len() - i,
    {
        assert(x@.skip(i as int).drop_first() =~= x@.skip(i + 1));
        assert(y@.skip(i as int).drop_first() =~= y@.skip(i + 1));
        i += 1;
    }
    if i == x.len() {
        i < y.len()
    } else if i == y.len() {
        false
    } else {
        assert(x@.skip(i as int)[0] == x[i as int]);
        assert(y@.skip(i as int)[0] == y[i as int]);
        x[i] < y[i]
    }
}

proof fn lemma_map_of_dom(e: Seq<(String, usize)>, k: Seq<char>)
    ensures
        map_of(e).dom().contains(k) <==> exists|i: int| 0 <= i < e.len() && e[i].0@ == k,
    decreases e.len(),
{
    if e.len() > 0 {
        lemma_map_of_dom(e.drop_last(), k);
        if map_of(e).dom().contains(k) && k != e.last().0@ {
            let i = choose|i: int| 0 <= i < e.len() - 1 && e.drop_last()[i].0@ == k;
            assert(e[i].0@ == k);
        }
        if exists|i: int| 0 <= i < e.len() && e[i].0@ == k {
            let i = choose|i: int| 0 <= i < e.len() && e[i].0@ == k;
            if i < e.len() - 1 {
                assert(e.drop_last()[i].0@ == k);
            }
        }
    }
}

proof fn lemma_map_of_at(e: Seq<(String, usize)>, i: int)
    requires
        keys_distinct(e),
        0 <= i < e.len(),
    ensures
        map_of(e).dom().contains(e[i].0@),
        map_of(e)[e[i].0@] == e[i].1 as nat,
    decreases e.len(),
{
    if i < e.len() - 1 {
        lemma_map_of_at(e.drop_last(), i);
        assert(e.drop_last()[i] == e[i]);
    }
}

proof fn lemma_map_of_update(e: Seq<(String, usize)>, i: int, v: usize)
    requires
        keys_distinct(e),
        0 <= i < e.len(),
    ensures
        map_of(e.update(i, (e[i].0, v))) == map_of(e).insert(e[i].0@, v as nat),
        keys_distinct(e.update(i, (e[i].0, v))),
    decreases e.len(),
{
    let u = e.update(i, (e[i].0, v));
    if i == e.len() - 1 {
        assert(u.drop_last() =~= e.drop_last());
        assert(!map_of(e.drop_last()).dom().contains(e[i].0@)) by {
            lemma_map_of_dom(e.drop_last(), e[i].0@);
        }
        assert(map_of(u) =~= map_of(e).insert(e[i].0@, v as nat));
    } else {
        lemma_map_of_update(e.drop_last(), i, v);
        assert(u.drop_last() =~= e.drop_last().update(i, (e[i].0, v)));
        assert(e.last().0@ != e[i].0@);
        assert(map_of(u) =~= map_of(e).insert(e[i].0@, v as nat));
    }
}

proof fn lemma_map_of_insert(e: Seq<(String, usize)>, p: int, x: (String, usize))
    requires
        keys_distinct(e),
        0 <= p <= e.len(),
        !map_of(e).dom().contains(x.0@),
    ensures
        map_of(e.insert(p, x)) == map_of(e).insert(x.0@, x.1 as nat),
        keys_distinct(e.insert(p, x)),
{
    let f = e.insert(p, x);
    assert(keys_distinct(f)) by {
        assert forall|i: int, j: int| 0 <= i < j < f.len() implies f[i].0@ != f[j].0@ by {
            lemma_map_of_dom(e, x.0@);
            if i < p && j < p {
                assert(f[i] == e[i] && f[j] == e[j]);
            } else if i < p && j == p {
                assert(f[i] == e[i]);
            } else if i < p {
                assert(f[i] == e[i] && f[j] == e[j - 1]);
            } else if i == p {
                assert(f[j] == e[j - 1]);
            } else {
                assert(f[i] == e[i - 1] && f[j] == e[j - 1]);
            }
        }
    }
    let m = map_of(e).insert(x.0@, x.1 as nat);
    assert forall|k: Seq<char>| #[trigger] map_of(f).dom().contains(k) <==> m.dom().contains(k) by {
        lemma_map_of_dom(f, k);
        lemma_map_of_dom(e, k);
        if exists|i: int| 0 <= i < f.len() && f[i].0@ == k {
            let i = choose|i: int| 0 <= i < f.len() && f[i].0@ == k;
            if i < p {
                assert(e[i] == f[i]);
            } else if i > p {
                assert(e[i - 1] == f[i]);
            }
        }
        if exists|i: int| 0 <= i < e.len() && e[i].0@ == k {
            let i = choose|i: int| 0 <= i < e.len() && e[i].0@ == k;
            if i < p {
                assert(f[i] == e[i]);
            } else {
                assert(f[i + 1] == e[i]);
            }
        }
        if k == x.0@ {
            assert(f[p] == x);
        }
    }
    assert forall|k: Seq<char>| #[trigger] map_of(f).dom().contains(k) implies map_of(f)[k] == m[k] by {
        lemma_map_of_dom(f, k);
        let i = choose|i: int| 0 <= i < f.len() && f[i].0@ == k;
        lemma_map_of_at(f, i);
        if i < p {
            assert(f[i] == e[i]);
            lemma_map_of_at(e, i);
        } else if i > p {
            assert(f[i] == e[i - 1]);
            lemma_map_of_at(e, i - 1);
        } else {
            assert(f[i] == x);
        }
    }
    assert(map_of(f) =~= m);
}

impl View for Tally {
    type V = Map<Seq<char>, nat>;

    closed spec fn view(&self) -> Map<Seq<char>, nat> {
        map_of(self.entries@)
    }
}

impl Tally {
    pub closed spec fn wf(&self) -> bool {
        keys_distinct(self.entries@) && keys_sorted(self.entries@)
    }

    /// An empty tally.
    pub fn new() -> (t: Tally)
        ensures
            t.wf(),
            t@ == Map::<Seq<char>, nat>::empty(),
    {
        Tally { entries: Vec::new() }
    }

    /// Index of the entry for `key`, if any.
    fn find(&self, key: &str) -> (r: Option<usize>)
        requires
            self.wf(),
        ensures
            match r {
                Some(i) => i < self.entries@.len() && self.entries@[i as int].0@ == key@,
                None => !self@.dom().contains(key@),
            },
    {
        let mut i: usize = 0;
        while i < self.entries.len()
            invariant
                i <= self.entries@.len(),
                forall|j: int| 0 <= j < i ==> self.entries@[j].0@ != key@,
            decreases self.entries.len() - i,
        {
            if str_eq(self.entries[i].0.as_str(), key) {
                return Some(i);
            }
            i += 1;
        }
        proof {
            lemma_map_of_dom(self.entries@, key@);
        }
        None
    }

    /// The count recorded for `key`, zero when absent.
    pub fn count(&self, key: &str) -> (n: usize)
        requires
            self.wf(),
        ensures
            n == if self@.dom().contains(key@) {
                self@[key@]
            } else {
                0
            },
    {
        match self.get(key) {
            Some(c) => *c,
            None => 0,
        }
    }

    /// The count recorded for `key`.
    pub fn get(&self, key: &str) -> (r: Option<&usize>)
        requires
            self.wf(),
        ensures
            match r {
                Some(n) => self@.dom().contains(key@) && self@[key@] == *n as nat,
                None => !self@.dom().contains(key@),
            },
    {
        match self.find(key) {
            Some(i) => {
                proof {
                    lemma_map_of_at(self.entries@, i as int);
                }
                Some(&self.entries[i].1)
            },
            None => None,
        }
    }

    pub fn is_empty(&self) -> (b: bool)
        requires
            self.wf(),
        ensures
            b == (self@.dom() =~= Set::<Seq<char>>::empty()),
    {
        proof {
            if self.entries@.len() > 0 {
                lemma_map_of_at(self.entries@, 0);
            }
        }
        self.entries.len() == 0
    }

    /// Number of keys.
    pub fn len(&self) -> (n: usize)
        requires
            self.wf(),
        ensures
            n == self@.dom().len(),
    {
        proof {
            lemma_map_of_len(self.entries@);
        }
        self.entries.len()
    }

    /// The (key, count) pairs in increasing order of the keys.
    pub fn entries(&self) -> (e: &[(String, usize)])
        requires
            self.wf(),
        ensures
            map_of(e@) == self@,
            keys_sorted(e@),
            forall|i: int|
                0 <= i < e@.len() ==> self@.dom().contains(#[trigger] e@[i].0@) && self@[e@[i].0@]
                    == e@[i].1 as nat,
            forall|k: Seq<char>|
                #[trigger] self@.dom().contains(k) ==> exists|i: int| 0 <= i < e@.len() && e@[i].0@ == k,
    {
        proof {
            assert forall|i: int| 0 <= i < self.entries@.len() implies self@.dom().contains(
                #[trigger] self.entries@[i].0@,
            ) && self@[self.entries@[i].0@] == self.entries@[i].1 as nat by {
                lemma_map_of_at(self.entries@, i);
            }
            assert forall|k: Seq<char>| #[trigger] self@.dom().contains(k) implies exists|i: int|
                0 <= i < self.entries@.len() && self.entries@[i].0@ == k by {
                lemma_map_of_dom(self.entries@, k);
            }
        }
        self.entries.as_slice()
    }

    /// Set `key`'s count to `n`.
    pub fn insert(&mut self, key: &str, n: usize)
        requires
            old(self).wf(),
        ensures
            final(self).wf(),
            final(self)@ == old(self)@.insert(key@, n as nat),
    {
        let ghost e = self.entries@;
        let mut i: usize = 0;
        while i < self.entries.len() && key_less(self.entries[i].0.as_str(), key)
            invariant
                i <= self.entries@.len(),
                self.entries@ == e,
                forall|j: int| 0 <= j < i ==> key_lt(#[trigger] e[j].0@, key@),
            decreases self.entries.len() - i,
        {
            i += 1;
        }
        proof {
            lemma_map_of_dom(e, key@);
            assert forall|j: int| 0 <= j < i implies #[trigger] e[j].0@ != key@ by {
                lemma_key_lt_asymmetric(e[j].0@, key@);
            }
        }
        if i < self.entries.len() && str_eq(self.entries[i].0.as_str(), key) {
            let k = self.entries[i].0.clone();
            proof {
                lemma_map_of_update(e, i as int, n);
            }
            self.entries.set(i, (k, n));
            proof {
                let f = self.entries@;
                assert forall|x: int, y: int| 0 <= x < y < f.len() implies key_lt(
                    #[trigger] f[x].0@,
                    #[trigger] f[y].0@,
                ) by {
                    assert(f[x].0@ == e[x].0@);
                    assert(f[y].0@ == e[y].0@);
                }
            }
        } else {
            proof {
                if i < e.len() {
                    lemma_key_lt_total(e[i as int].0@, key@);
                }
                assert forall|j: int| i <= j < e.len() implies key_lt(key@, #[trigger] e[j].0@) by {
                    lemma_key_lt_total(e[i as int].0@, key@);
                    if j > i {
                        lemma_key_lt_transitive(key@, e[i as int].0@, e[j].0@);
                    }
                }
                assert forall|j: int| 0 <= j < e.len() implies #[trigger] e[j].0@ != key@ by {
                    if j >= i {
                        lemma_key_lt_asymmetric(key@, e[j].0@);
                    }
                }
            }
            let chars = str_chars(key);
            let k = string_from_chars(chars.as_slice());
            let ghost x = (k, n);
            proof {
                lemma_map_of_insert(e, i as int, x);
            }
            self.entries.insert(i, (k, n));
            proof {
                let f = self.entries@;
                assert(f == e.insert(i as int, x));
                assert forall|a: int, b: int| 0 <= a < b < f.len() implies key_lt(
                    #[trigger] f[a].0@,
                    #[trigger] f[b].0@,
                ) by {
                    if b < i {
                        assert(f[a] == e[a] && f[b] == e[b]);
                    } else if b == i {
                        assert(f[a] == e[a]);
                    } else if a < i {
                        assert(f[a] == e[a] && f[b] == e[b - 1]);
                        lemma_key_lt_transitive(e[a].0@, key@, e[b - 1].0@);
                    } else if a == i {
                        assert(f[b] == e[b - 1]);
                    } else {
                        assert(f[a] == e[a - 1] && f[b] == e[b - 1]);
                    }
                }
            }
        }
    }

    /// Add `n` to `key`'s count (absent counts start at zero).
    pub fn add(&mut self, key: &str, n: usize)
        requires
            old(self).wf(),
            old(self)@.dom().contains(key@) ==> old(self)@[key@] + n <= usize::MAX,
        ensures
            final(self).wf(),
            final(self)@ == old(self)@.insert(
                key@,
                ((if old(self)@.dom().contains(key@) {
                    old(self)@[key@]
                } else {
                    0
                }) + n) as nat,
            ),
    {
        let cur = match self.get(key) {
            Some(c) => *c,
            None => 0,
        };
        self.insert(key, cur + n);
    }
}

/// `m` holds exactly the keys where `f` is positive, with those values.
pub open spec fn tally_is(m: Map<Seq<char>, nat>, f: spec_fn(Seq<char>) -> nat) -> bool {
    &&& forall|k: Seq<char>| #[trigger] m.dom().contains(k) <==> f(k) > 0
    &&& forall|k: Seq<char>| #[trigger] m.dom().contains(k) ==> m[k] == f(k)
}

/// The count of `k` in `m`, zero when absent.
pub open spec fn count_of(m: Map<Seq<char>, nat>, k: Seq<char>) -> nat {
    if m.dom().contains(k) {
        m[k]
    } else {
        0
    }
}

/// In a tally described by `f`, every key counts `f` of it.
pub proof fn lemma_tally_count(m: Map<Seq<char>, nat>, f: spec_fn(Seq<char>) -> nat, k: Seq<char>)
    requires
        tally_is(m, f),
    ensures
        count_of(m, k) == f(k),
{
}

/// A tally described by `f` is described by any function equal to `f`.
pub proof fn lemma_tally_ext(m: Map<Seq<char>, nat>, f: spec_fn(Seq<char>) -> nat, g: spec_fn(Seq<char>) -> nat)
    requires
        tally_is(m, f),
        forall|k: Seq<char>| #[trigger] g(k) == f(k),
    ensures
        tally_is(m, g),
{
}

/// Adding `n > 0` to key `l` of a tally described by `f` gives the tally
/// described by `f` plus `n` at `l`.
pub proof fn lemma_tally_add(
    m: Map<Seq<char>, nat>,
    f: spec_fn(Seq<char>) -> nat,
    g: spec_fn(Seq<char>) -> nat,
    l: Seq<char>,
    n: nat,
)
    requires
        tally_is(m, f),
        n > 0,
        forall|k: Seq<char>| #[trigger] g(k) == f(k) + if k == l { n } else { 0nat },
    ensures
        tally_is(m.insert(l, (if m.dom().contains(l) { m[l] } else { 0 }) + n), g),
{
    let m2 = m.insert(l, (if m.dom().contains(l) { m[l] } else { 0 }) + n);
    assert forall|k: Seq<char>| #[trigger] m2.dom().contains(k) <==> g(k) > 0 by {
        assert(g(k) == f(k) + if k == l { n } else { 0nat });
    }
    assert forall|k: Seq<char>| #[trigger] m2.dom().contains(k) implies m2[k] == g(k) by {
        assert(g(k) == f(k) + if k == l { n } else { 0nat });
    }
}

proof fn lemma_map_of_len(e: Seq<(String, usize)>)
    requires
        keys_distinct(e),
    ensures
        map_of(e).dom().len() == e.len(),
        map_of(e).dom().finite(),
    decreases e.len(),
{
    if e.len() > 0 {
        lemma_map_of_len(e.drop_last());
        lemma_map_of_dom(e.drop_last(), e.last().0@);
        assert(!map_of(e.drop_last()).dom().contains(e.last().0@));
    }
}

} // verus!
