//! The visited set of a crawl run: normalized URLs, append-only, in the
//! order in which they were first visited.
use vstd::prelude::*;

verus! {

pub struct Frontier {
    visited: Vec<Vec<char>>,
}

/// Whether two keys are equal.
fn same_key(a: &Vec<char>, b: &Vec<char>) -> (r: bool)
    ensures
        r == (a@ == b@),
{
    if a.len() != b.len() {
        return false;
    }
    let mut i: usize = 0;
    while i < a.len()
        invariant
            a@.len() == b@.len(),
            i <= a@.len(),
            forall|j: int| 0 <= j < i ==> a@[j] == b@[j],
        decreases a@.len() - i,
    {
        if a[i] != b[i] {
            return false;
        }
        i = i + 1;
    }
    assert(a@ =~= b@);
    true
}

impl Frontier {
    /// The visited keys, oldest first.
    pub closed spec fn view(&self) -> Seq<Seq<char>> {
        self.visited@.map_values(|k: Vec<char>| k@)
    }

    /// No key is held twice.
    pub open spec fn wf(&self) -> bool {
        self@.no_duplicates()
    }

    pub fn new() -> (f: Frontier)
        ensures
            f@ == Seq::<Seq<char>>::empty(),
            f.wf(),
    {
        let f = Frontier { visited: Vec::new() };
        assert(f@ =~= Seq::<Seq<char>>::empty());
        f
    }

    pub fn len(&self) -> (n: usize)
        ensures
            n == self@.len(),
    {
        self.visited.len()
    }

    /// Whether `key` has been visited.
    pub fn contains(&self, key: &Vec<char>) -> (r: bool)
        ensures
            r == self@.contains(key@),
    {
        let mut i: usize = 0;
        while i < self.visited.len()
            invariant
                i <= self@.len(),
                self@.len() == self.visited@.len(),
                forall|j: int| 0 <= j < i ==> self@[j] != key@,
            decreases self.visited@.len() - i,
        {
            if same_key(&self.visited[i], key) {
                assert(self@[i as int] == key@);
                return true;
            }
            i = i + 1;
        }
        false
    }

    /// Check and insert in one step: marks `key` visited and returns `true`
    /// if it was not; returns `false` and changes nothing if it was.
    pub fn try_visit(&mut self, key: Vec<char>) -> (r: bool)
        requires
            old(self).wf(),
        ensures
            final(self).wf(),
            r == !old(self)@.contains(key@),
            r ==> final(self)@ == old(self)@.push(key@),
            !r ==> final(self)@ == old(self)@,
    {
        if self.contains(&key) {
            false
        } else {
            let ghost k = key@;
            self.visited.push(key);
            assert(self@ =~= old(self)@.push(k));
            assert(self@.no_duplicates()) by {
                assert forall|i: int, j: int|
                    0 <= i < self@.len() && 0 <= j < self@.len() && i != j implies self@[i]
                    != self@[j] by {
                    if i < old(self)@.len() && j < old(self)@.len() {
                    } else if i == old(self)@.len() {
                        assert(old(self)@[j] == self@[j]);
                    } else {
                        assert(old(self)@[i] == self@[i]);
                    }
                }
            }
            true
        }
    }
}

} // verus!
