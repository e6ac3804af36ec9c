//! Content-hash sets.
//!
//! A branch or a commit is identified by the set of content hashes it touches.
//! The all-zero hash is git's sentinel for "no content on this side" and never
//! belongs to a content set.

use vstd::prelude::*;
use vstd::string::*;

verus! {

/// True when every character of `s` is `'0'`. The empty sequence counts as
/// all zeroes. Git prints an all-zero hash where one side of a change has no
/// content (a deleted or newly added file).
pub open spec fn all_zeroes(s: Seq<char>) -> bool {
    forall|i: int| 0 <= i < s.len() ==> s[i] == '0'
}

/// Decides `all_zeroes` for a string slice.
pub fn string_all_zeroes(s: &str) -> (b: bool)
    ensures
        b == all_zeroes(s@),
{
    let n = s.unicode_len();
    let mut i: usize = 0;
    while i < n
        invariant
            n == s@.len(),
            0 <= i <= n,
            forall|j: int| 0 <= j < i ==> s@[j] == '0',
        decreases n - i,
    {
        if s.get_char(i) != '0' {
            return false;
        }
        i = i + 1;
    }
    true
}

/// A deduplicated, order-irrelevant set of content-hash strings.
///
/// Invariant (`wf`): the backing vector holds no duplicates and never holds
/// the all-zero sentinel hash.
pub struct ContentSet {
    pub hashes: Vec<String>,
}

impl View for ContentSet {
    type V = Set<Seq<char>>;

    open spec fn view(&self) -> Set<Seq<char>> {
        self.hashes.deep_view().to_set()
    }
}

impl DeepView for ContentSet {
    type V = Set<Seq<char>>;

    open spec fn deep_view(&self) -> Set<Seq<char>> {
        self.view()
    }
}

impl ContentSet {
    /// Well-formedness: no duplicate entries, and no all-zero entry.
    pub open spec fn wf(&self) -> bool {
        &&& forall|i: int, j: int|
            0 <= i < j < self.hashes.deep_view().len() ==> self.hashes.deep_view()[i]
                != self.hashes.deep_view()[j]
        &&& forall|i: int|
            0 <= i < self.hashes.deep_view().len() ==> !all_zeroes(self.hashes.deep_view()[i])
    }

    /// The empty content set.
    pub fn new() -> (r: ContentSet)
        ensures
            r@ == Set::<Seq<char>>::empty(),
            r.wf(),
    {
        let r = ContentSet { hashes: Vec::new() };
        proof {
            assert(r@ =~= Set::<Seq<char>>::empty());
        }
        r
    }

    /// Membership test.
    pub fn contains(&self, h: &String) -> (b: bool)
        ensures
            b == self@.contains(h@),
    {
        let ghost dv = self.hashes.deep_view();
        let mut i: usize = 0;
        while i < self.hashes.len()
            invariant
                dv == self.hashes.deep_view(),
                0 <= i <= self.hashes.len(),
                forall|j: int| 0 <= j < i ==> dv[j] != h@,
            decreases self.hashes.len() - i,
        {
            if self.hashes[i] == *h {
                proof {
                    assert(dv[i as int] == h@);
                    assert(self.hashes.deep_view().contains(h@));
                }
                return true;
            }
            i = i + 1;
        }
        proof {
            assert(!self.hashes.deep_view().contains(h@));
        }
        false
    }

    /// Inserts a hash, keeping the invariant: a duplicate is ignored, and so
    /// is the all-zero sentinel.
    pub fn insert(&mut self, h: String)
        requires
            old(self).wf(),
        ensures
            final(self).wf(),
            final(self)@ == if all_zeroes(h@) {
                old(self)@
            } else {
                old(self)@.insert(h@)
            },
    {
        if string_all_zeroes(h.as_str()) {
            return ;
        }
        if self.contains(&h) {
            proof {
                assert(old(self)@.insert(h@) =~= old(self)@);
            }
            return ;
        }
        let ghost old_dv = self.hashes.deep_view();
        self.hashes.push(h);
        proof {
            assert(self.hashes.deep_view() =~= old_dv.push(h@));
            assert forall|x: Seq<char>| #[trigger] self@.contains(x) implies old(
                self,
            )@.insert(h@).contains(x) by {
                let k = choose|k: int|
                    0 <= k < self.hashes.deep_view().len() && self.hashes.deep_view()[k] == x;
                if k < old_dv.len() {
                    assert(old_dv.contains(x));
                }
            }
            assert forall|x: Seq<char>| #[trigger] old(self)@.insert(h@).contains(x) implies
                self@.contains(x) by {
                if x == h@ {
                    assert(self.hashes.deep_view()[old_dv.len() as int] == x);
                } else {
                    let k = choose|k: int| 0 <= k < old_dv.len() && old_dv[k] == x;
                    assert(self.hashes.deep_view()[k] == x);
                }
            }
            assert(final(self)@ =~= old(self)@.insert(h@));
            assert forall|i: int, j: int|
                0 <= i < j < self.hashes.deep_view().len() implies self.hashes.deep_view()[i]
                != self.hashes.deep_view()[j] by {
                if j == old_dv.len() {
                    assert(!old_dv.contains(h@));
                }
            }
        }
    }

    /// True when every hash of `self` is also in `other`.
    pub fn is_subset_of(&self, other: &ContentSet) -> (b: bool)
        ensures
            b == self@.subset_of(other@),
    {
        let ghost dv = self.hashes.deep_view();
        let mut i: usize = 0;
        while i < self.hashes.len()
            invariant
                dv == self.hashes.deep_view(),
                0 <= i <= self.hashes.len(),
                forall|j: int| 0 <= j < i ==> other@.contains(dv[j]),
            decreases self.hashes.len() - i,
        {
            if !other.contains(&self.hashes[i]) {
                proof {
                    assert(self@.contains(dv[i as int]));
                }
                return false;
            }
            i = i + 1;
        }
        proof {
            assert forall|x: Seq<char>| #[trigger] self@.contains(x) implies other@.contains(
                x,
            ) by {
                let k = choose|k: int| 0 <= k < dv.len() && dv[k] == x;
            }
        }
        true
    }

    /// The number of hashes in the set.
    pub fn len(&self) -> (n: usize)
        requires
            self.wf(),
        ensures
            n == self@.len(),
    {
        proof {
            self.hashes.deep_view().unique_seq_to_set();
        }
        self.hashes.len()
    }
}

} // verus!
