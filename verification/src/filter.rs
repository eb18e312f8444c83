//! The character filter: an optional set of admissible codepoints.
//!
//! An absent filter admits every codepoint; an active filter admits exactly
//! its members. The set is stored sorted in strictly ascending order, so a
//! dump of the filter lists its characters in ascending codepoint order.

use crate::convert::scalar_to_char;
use vstd::prelude::*;
use vstd::utf8::char_is_scalar;
use vstd::utf8::is_scalar;

verus! {

/// The codepoint values of a character sequence, as a set.
pub open spec fn chars_code_set(s: Seq<char>) -> Set<u32> {
    s.map_values(|c: char| c as u32).to_set()
}

/// A set of codepoints, stored sorted in strictly ascending order.
pub struct CharSet {
    pub codes: Vec<u32>,
}

impl CharSet {
    /// Well-formed: strictly ascending (hence duplicate-free), every element
    /// a Unicode scalar value.
    pub open spec fn wf(&self) -> bool {
        &&& forall|i: int, j: int|
            0 <= i < j < self.codes@.len() ==> self.codes@[i] < self.codes@[j]
        &&& forall|i: int| 0 <= i < self.codes@.len() ==> is_scalar(self.codes@[i])
    }

    /// The set of codepoints held.
    pub open spec fn set_view(&self) -> Set<u32> {
        self.codes@.to_set()
    }

    /// An empty set.
    pub fn new() -> (r: Self)
        ensures
            r.wf(),
            r.set_view() == Set::<u32>::empty(),
    {
        let r = CharSet { codes: Vec::new() };
        proof {
            assert(r.codes@.to_set() =~= Set::<u32>::empty());
        }
        r
    }

    /// Membership in the set.
    pub fn contains(&self, u: u32) -> (b: bool)
        ensures
            b == self.set_view().contains(u),
    {
        let n = self.codes.len();
        let mut i: usize = 0;
        while i < n
            invariant
                i <= n,
                n == self.codes@.len(),
                forall|j: int| 0 <= j < i ==> self.codes@[j] != u,
            decreases n - i,
        {
            if self.codes[i] == u {
                assert(self.codes@.contains(u));
                return true;
            }
            i += 1;
        }
        proof {
            assert(!self.codes@.contains(u));
        }
        false
    }

    /// Adds `u` to the set, keeping the ascending order.
    pub fn insert(&mut self, u: u32)
        requires
            old(self).wf(),
            is_scalar(u),
        ensures
            final(self).wf(),
            final(self).set_view() == old(self).set_view().insert(u),
    {
        let n = self.codes.len();
        let mut i: usize = 0;
        while i < n && self.codes[i] < u
            invariant
                i <= n,
                n == self.codes@.len(),
                self == old(self),
                forall|j: int| 0 <= j < i ==> self.codes@[j] < u,
            decreases n - i,
        {
            i += 1;
        }
        if i < n && self.codes[i] == u {
            proof {
                assert(self.codes@.contains(u));
                assert(old(self).set_view().insert(u) =~= old(self).set_view());
            }
            return;
        }
        let ghost old_codes = self.codes@;
        self.codes.insert(i, u);
        proof {
            let new_codes = self.codes@;
            assert forall|p: int, q: int|
                0 <= p < q < new_codes.len() implies new_codes[p] < new_codes[q] by {
                if p < i && q < i {
                } else if p < i && q == i {
                } else if p < i && q > i {
                    assert(new_codes[q] == old_codes[q - 1]);
                } else if p == i {
                    assert(new_codes[q] == old_codes[q - 1]);
                    assert(old_codes[q - 1] >= u);
                    assert(old_codes[q - 1] != u);
                } else {
                    assert(new_codes[p] == old_codes[p - 1]);
                    assert(new_codes[q] == old_codes[q - 1]);
                }
            }
            assert forall|x: u32| final(self).set_view().contains(x) <==> old(
                self,
            ).set_view().insert(u).contains(x) by {
                if new_codes.contains(x) {
                    let k = choose|k: int| 0 <= k < new_codes.len() && new_codes[k] == x;
                    if k < i {
                        assert(old_codes[k] == x);
                        assert(old_codes.contains(x));
                    } else if k == i {
                    } else {
                        assert(old_codes[k - 1] == x);
                        assert(old_codes.contains(x));
                    }
                }
                if old_codes.contains(x) {
                    let k = choose|k: int| 0 <= k < old_codes.len() && old_codes[k] == x;
                    if k < i {
                        assert(new_codes[k] == x);
                    } else {
                        assert(new_codes[k + 1] == x);
                    }
                    assert(new_codes.contains(x));
                }
                if x == u {
                    assert(new_codes[i as int] == u);
                    assert(new_codes.contains(u));
                }
            }
            assert(final(self).set_view() =~= old(self).set_view().insert(u));
        }
    }

    /// Adds the codepoint of every character of `chars` to the set.
    pub fn add_chars(&mut self, chars: &Vec<char>)
        requires
            old(self).wf(),
        ensures
            final(self).wf(),
            final(self).set_view() == old(self).set_view().union(chars_code_set(chars@)),
    {
        broadcast use char_is_scalar;

        let n = chars.len();
        let mut i: usize = 0;
        proof {
            assert(self.set_view() =~= old(self).set_view().union(
                chars_code_set(chars@.take(0)),
            ));
        }
        while i < n
            invariant
                i <= n,
                n == chars@.len(),
                self.wf(),
                self.set_view() == old(self).set_view().union(chars_code_set(chars@.take(i as int))),
            decreases n - i,
        {
            let c = chars[i];
            proof {
                char_is_scalar(c);
            }
            let u = c as u32;
            let ghost before = self.set_view();
            self.insert(u);
            proof {
                let prev = chars@.take(i as int);
                let next = chars@.take(i as int + 1);
                assert(next.map_values(|c: char| c as u32) =~= prev.map_values(
                    |c: char| c as u32,
                ).push(u));
                assert forall|x: u32|
                    before.insert(u).contains(x) <==> old(self).set_view().union(
                        chars_code_set(next),
                    ).contains(x) by {
                    let nm = next.map_values(|c: char| c as u32);
                    let pm = prev.map_values(|c: char| c as u32);
                    if nm.contains(x) {
                        let k = choose|k: int| 0 <= k < nm.len() && nm[k] == x;
                        if k < pm.len() {
                            assert(pm[k] == x);
                            assert(pm.contains(x));
                        }
                    }
                    if pm.contains(x) {
                        let k = choose|k: int| 0 <= k < pm.len() && pm[k] == x;
                        assert(nm[k] == x);
                        assert(nm.contains(x));
                    }
                    if x == u {
                        assert(nm[nm.len() - 1] == u);
                        assert(nm.contains(u));
                    }
                }
                assert(self.set_view() =~= old(self).set_view().union(chars_code_set(next)));
            }
            i += 1;
        }
        proof {
            assert(chars@.take(n as int) =~= chars@);
        }
    }

    /// The characters of the set, in ascending codepoint order.
    pub fn dump_chars(&self) -> (r: Vec<char>)
        requires
            self.wf(),
        ensures
            r@.len() == self.codes@.len(),
            forall|j: int| 0 <= j < r@.len() ==> r@[j] as u32 == self.codes@[j],
    {
        let n = self.codes.len();
        let mut r: Vec<char> = Vec::new();
        let mut i: usize = 0;
        while i < n
            invariant
                i <= n,
                n == self.codes@.len(),
                self.wf(),
                r@.len() == i,
                forall|j: int| 0 <= j < i ==> r@[j] as u32 == self.codes@[j],
            decreases n - i,
        {
            r.push(scalar_to_char(self.codes[i]));
            i += 1;
        }
        r
    }
}

/// The optional filter: absent admits everything; active admits its members.
pub enum CharFilter {
    Absent,
    Active(CharSet),
}

/// What an optional codepoint set admits: absence admits every codepoint.
pub open spec fn spec_admits(f: Option<Set<u32>>, u: u32) -> bool {
    match f {
        Option::None => true,
        Option::Some(s) => s.contains(u),
    }
}

impl CharFilter {
    /// Well-formed: an active filter holds a well-formed set.
    pub open spec fn wf(&self) -> bool {
        match self {
            CharFilter::Absent => true,
            CharFilter::Active(s) => s.wf(),
        }
    }

    /// The filter as an optional set of codepoints.
    pub open spec fn model(&self) -> Option<Set<u32>> {
        match self {
            CharFilter::Absent => Option::None,
            CharFilter::Active(s) => Option::Some(s.set_view()),
        }
    }

    /// Whether the filter admits `u`.
    pub fn admits(&self, u: u32) -> (b: bool)
        ensures
            b == spec_admits(self.model(), u),
    {
        match self {
            CharFilter::Absent => true,
            CharFilter::Active(s) => s.contains(u),
        }
    }

    /// Makes the filter active, with an empty set if it was absent.
    pub fn activate(&mut self)
        requires
            old(self).wf(),
        ensures
            final(self).wf(),
            final(self).model() == Some(activated_set(old(self).model())),
    {
        match self {
            CharFilter::Absent => {
                *self = CharFilter::Active(CharSet::new());
            },
            CharFilter::Active(_) => {
            },
        }
    }

    /// Adds the codepoints of `chars` to the filter, activating it first.
    pub fn absorb_chars(&mut self, chars: &Vec<char>)
        requires
            old(self).wf(),
        ensures
            final(self).wf(),
            final(self).model() == Some(
                activated_set(old(self).model()).union(chars_code_set(chars@)),
            ),
    {
        self.activate();
        match self {
            CharFilter::Absent => {
                proof {
                    assert(false);
                }
            },
            CharFilter::Active(s) => {
                s.add_chars(chars);
            },
        }
    }
}

/// The set that activation leaves in the filter: the old one, or empty.
pub open spec fn activated_set(f: Option<Set<u32>>) -> Set<u32> {
    match f {
        Option::None => Set::empty(),
        Option::Some(s) => s,
    }
}

/// Round trip: dumping a well-formed filter and reading the dumped
/// characters back reproduces exactly the filter's set of codepoints,
/// whatever order the characters are read in.
pub proof fn lemma_dump_round_trip(codes: Seq<u32>, dumped: Seq<char>)
    requires
        dumped.len() == codes.len(),
        forall|j: int| 0 <= j < dumped.len() ==> dumped[j] as u32 == codes[j],
    ensures
        chars_code_set(dumped) == codes.to_set(),
{
    let m = dumped.map_values(|c: char| c as u32);
    assert(m =~= codes);
    assert(chars_code_set(dumped) =~= codes.to_set());
}

} // verus!
