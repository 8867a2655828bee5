//! A set of words (character sequences) with lookups by bucket.

use vstd::prelude::*;

verus! {

/// Number of buckets.
pub const BUCKETS: usize = 4096;

/// The bucket a word belongs in, from its first and last characters.
pub open spec fn bucket_of(w: Seq<char>) -> int {
    if w.len() == 0 {
        0
    } else {
        ((w[0] as u32) as int * 31 + (w.last() as u32) as int) % (BUCKETS as int)
    }
}

fn bucket(w: &[char]) -> (b: usize)
    ensures
        b == bucket_of(w@),
        b < BUCKETS,
{
    if w.len() == 0 {
        0
    } else {
        let first = w[0] as u32 as u64;
        let last = w[w.len() - 1] as u32 as u64;
        ((first * 31 + last) % (BUCKETS as u64)) as usize
    }
}

/// Whether two character slices are equal.
pub fn chars_eq(a: &[char], b: &[char]) -> (r: bool)
    ensures
        r == (a@ == b@),
{
    if a.len() != b.len() {
        return false;
    }
    let mut i: usize = 0;
    while i < a.len()
        invariant
            i <= a.len(),
            a.len() == b.len(),
            forall|j: int| 0 <= j < i ==> a@[j] == b@[j],
        decreases a.len() - i,
    {
        if a[i] != b[i] {
            return false;
        }
        i += 1;
    }
    assert(a@ =~= b@);
    true
}

/// A set of words.
#[derive(Debug, Clone)]
pub struct WordSet {
    buckets: Vec<Vec<Vec<char>>>,
}

impl View for WordSet {
    type V = Set<Seq<char>>;

    closed spec fn view(&self) -> Set<Seq<char>> {
        Set::new(
            |w: Seq<char>|
                exists|i: int, j: int|
                    0 <= i < self.buckets@.len() && 0 <= j < self.buckets@[i]@.len()
                        && #[trigger] self.buckets@[i]@[j]@ == w,
        )
    }
}

impl WordSet {
    /// Every word sits in its own bucket.
    pub closed spec fn wf(&self) -> bool {
        &&& self.buckets@.len() == BUCKETS
        &&& forall|i: int, j: int|
            0 <= i < self.buckets@.len() && 0 <= j < self.buckets@[i]@.len() ==> bucket_of(
                #[trigger] self.buckets@[i]@[j]@,
            ) == i
    }

    /// The empty set.
    pub fn new() -> (s: WordSet)
        ensures
            s.wf(),
            s@ == Set::<Seq<char>>::empty(),
    {
        let mut buckets: Vec<Vec<Vec<char>>> = Vec::new();
        let mut i: usize = 0;
        while i < BUCKETS
            invariant
                i <= BUCKETS,
                buckets@.len() == i,
                forall|k: int| 0 <= k < i ==> (#[trigger] buckets@[k])@.len() == 0,
            decreases BUCKETS - i,
        {
            buckets.push(Vec::new());
            i += 1;
        }
        let s = WordSet { buckets };
        assert(s@ =~= Set::<Seq<char>>::empty());
        s
    }

    /// Whether `w` is in the set.
    pub fn contains(&self, w: &[char]) -> (b: bool)
        requires
            self.wf(),
        ensures
            b == self@.contains(w@),
    {
        let b = bucket(w);
        let row = &self.buckets[b];
        let mut j: usize = 0;
        while j < row.len()
            invariant
                j <= row@.len(),
                row == self.buckets@[b as int],
                b < self.buckets@.len(),
                forall|k: int| 0 <= k < j ==> row@[k]@ != w@,
            decreases row.len() - j,
        {
            if chars_eq(row[j].as_slice(), w) {
                assert(self.buckets@[b as int]@[j as int]@ == w@);
                return true;
            }
            j += 1;
        }
        proof {
            if self@.contains(w@) {
                let (i, k) = choose|i: int, k: int|
                    0 <= i < self.buckets@.len() && 0 <= k < self.buckets@[i]@.len()
                        && #[trigger] self.buckets@[i]@[k]@ == w@;
                assert(bucket_of(self.buckets@[i]@[k]@) == i);
                assert(row@[k]@ == w@);
            }
        }
        false
    }

    /// Add `w` to the set.
    pub fn insert(&mut self, w: Vec<char>)
        requires
            old(self).wf(),
        ensures
            final(self).wf(),
            final(self)@ == old(self)@.insert(w@),
    {
        if self.contains(w.as_slice()) {
            return;
        }
        let b = bucket(w.as_slice());
        let ghost wv = w@;
        let mut row: Vec<Vec<char>> = Vec::new();
        std::mem::swap(&mut row, &mut self.buckets[b]);
        let ghost old_row = row@;
        row.push(w);
        self.buckets.set(b, row);
        proof {
            assert forall|i: int, j: int|
                0 <= i < self.buckets@.len() && 0 <= j < self.buckets@[i]@.len() implies bucket_of(
                #[trigger] self.buckets@[i]@[j]@,
            ) == i by {
                if i == b as int {
                    if j < old_row.len() {
                        assert(self.buckets@[i]@[j] == old(self).buckets@[i]@[j]);
                    }
                } else {
                    assert(self.buckets@[i] == old(self).buckets@[i]);
                }
            }
            assert forall|x: Seq<char>| #[trigger] self@.contains(x) <==> old(self)@.insert(wv).contains(x) by {
                if self@.contains(x) {
                    let (i, j) = choose|i: int, j: int|
                        0 <= i < self.buckets@.len() && 0 <= j < self.buckets@[i]@.len()
                            && #[trigger] self.buckets@[i]@[j]@ == x;
                    if i == b as int && j == old_row.len() {
                    } else if i == b as int {
                        assert(old(self).buckets@[i]@[j]@ == x);
                    } else {
                        assert(old(self).buckets@[i]@[j]@ == x);
                    }
                }
                if old(self)@.contains(x) {
                    let (i, j) = choose|i: int, j: int|
                        0 <= i < old(self).buckets@.len() && 0 <= j < old(self).buckets@[i]@.len()
                            && #[trigger] old(self).buckets@[i]@[j]@ == x;
                    if i == b as int {
                        assert(self.buckets@[i]@[j]@ == x);
                    } else {
                        assert(self.buckets@[i]@[j]@ == x);
                    }
                }
                if x == wv {
                    assert(self.buckets@[b as int]@[old_row.len() as int]@ == x);
                }
            }
            assert(self@ =~= old(self)@.insert(wv));
        }
    }
}

} // verus!
