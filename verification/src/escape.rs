//! The bounded search for the first iteration at which an orbit bails out.

use vstd::prelude::*;

verus! {

/// The number of iterations after which an orbit that has not bailed out is
/// taken to stay bounded.
pub const MAX_ITERATIONS: u32 = 1000;

/// How the search for one point ended.
#[derive(Clone, Copy, Debug, PartialEq, Eq, Structural)]
pub enum Verdict {
    /// The bailout test first held after the iteration with this index
    /// (counted from zero).
    Escaped(u32),
    /// The bailout test held after none of the `MAX_ITERATIONS` iterations.
    Bounded,
}

/// `flags[k]` is the outcome of the bailout test after iteration `k`.
/// The orbit escapes at `i` when `i` is the first index below the bound at
/// which the test held.
pub open spec fn escapes_at(flags: Seq<bool>, i: int) -> bool {
    &&& 0 <= i < flags.len()
    &&& i < MAX_ITERATIONS
    &&& flags[i]
    &&& forall|j: int| 0 <= j < i ==> !flags[j]
}

/// The bailout test held somewhere within the bound.
pub open spec fn escapes(flags: Seq<bool>) -> bool {
    exists|i: int| escapes_at(flags, i)
}

/// The index at which the orbit escapes, where it does.
pub open spec fn escape_index(flags: Seq<bool>) -> int {
    choose|i: int| escapes_at(flags, i)
}

/// What is decided once the bailout tests `flags` have been observed, in
/// order: the escape, if one of the first `MAX_ITERATIONS` tests held;
/// `Bounded`, if all of them were observed and none held; nothing yet
/// otherwise.
pub open spec fn verdict_of(flags: Seq<bool>) -> Option<Verdict> {
    if escapes(flags) {
        Some(Verdict::Escaped(escape_index(flags) as u32))
    } else if flags.len() >= MAX_ITERATIONS {
        Some(Verdict::Bounded)
    } else {
        None
    }
}

/// An orbit escapes at one index at most, and that index is the one the
/// verdict reports.
pub proof fn lemma_escape_decides(flags: Seq<bool>, i: int)
    requires
        escapes_at(flags, i),
    ensures
        escapes(flags),
        escape_index(flags) == i,
        verdict_of(flags) == Some(Verdict::Escaped(i as u32)),
{
    let k = escape_index(flags);
    assert(escapes_at(flags, k));
    if k < i {
        assert(!flags[k]);
    }
    if i < k {
        assert(!flags[i]);
    }
}

impl Verdict {
    /// The score in thousandths of the full scale: the index of the escaping
    /// iteration out of the `MAX_ITERATIONS` allowed, and zero for an orbit
    /// that stays bounded.
    pub open spec fn score_per_mille_spec(self) -> nat {
        match self {
            Verdict::Escaped(i) => i as nat,
            Verdict::Bounded => 0,
        }
    }

    /// The score in thousandths of the full scale. An orbit that escapes at
    /// once scores as one that stays bounded: both give zero.
    pub fn score_per_mille(&self) -> (score: u32)
        ensures
            score == self.score_per_mille_spec(),
    {
        match self {
            Verdict::Escaped(i) => *i,
            Verdict::Bounded => 0,
        }
    }
}

/// The search for one point, fed with the outcome of the bailout test after
/// each iteration of the orbit.
///
/// Its view is the sequence of outcomes observed so far.
pub struct EscapeSearch {
    /// Before an escape, how many outcomes count so far (at most the bound);
    /// after one, the index of the escaping iteration.
    counted: u32,
    escaped: bool,
    history: Ghost<Seq<bool>>,
}

impl View for EscapeSearch {
    type V = Seq<bool>;

    closed spec fn view(&self) -> Seq<bool> {
        self.history@
    }
}

impl EscapeSearch {
    #[verifier::type_invariant]
    spec fn well_formed(self) -> bool {
        if self.escaped {
            escapes_at(self.history@, self.counted as int)
        } else {
            &&& self.counted <= MAX_ITERATIONS
            &&& self.counted <= self.history@.len()
            &&& self.counted < MAX_ITERATIONS ==> self.counted == self.history@.len()
            &&& forall|j: int| 0 <= j < self.counted ==> !self.history@[j]
        }
    }

    /// A search that has observed nothing yet.
    pub fn new() -> (search: Self)
        ensures
            search@ == Seq::<bool>::empty(),
    {
        EscapeSearch { counted: 0, escaped: false, history: Ghost(Seq::empty()) }
    }

    /// What the outcomes observed so far decide: `None` while the orbit has to
    /// be iterated further.
    pub fn verdict(&self) -> (verdict: Option<Verdict>)
        ensures
            verdict == verdict_of(self@),
    {
        proof {
            use_type_invariant(self);
            if self.escaped {
                lemma_escape_decides(self@, self.counted as int);
            } else {
                assert forall|i: int| !escapes_at(self@, i) by {
                    if 0 <= i < self@.len() && i < MAX_ITERATIONS {
                        assert(!self@[i]);
                    }
                }
            }
        }
        if self.escaped {
            Some(Verdict::Escaped(self.counted))
        } else if self.counted == MAX_ITERATIONS {
            Some(Verdict::Bounded)
        } else {
            None
        }
    }

    /// Takes in the outcome of the bailout test after the next iteration and
    /// says what is decided by then. Once a verdict is reached, further
    /// outcomes are recorded and change nothing.
    pub fn observe(&mut self, bailout: bool) -> (verdict: Option<Verdict>)
        ensures
            final(self)@ == old(self)@.push(bailout),
            verdict == verdict_of(final(self)@),
    {
        proof {
            use_type_invariant(&*self);
        }
        let ghost before = self.history@;
        let ghost after = before.push(bailout);
        let running = !self.escaped && self.counted < MAX_ITERATIONS;
        let escaped = self.escaped || (running && bailout);
        let counted: u32 = if running && !bailout {
            self.counted + 1
        } else {
            self.counted
        };
        proof {
            assert forall|j: int| 0 <= j < before.len() implies after[j] == before[j] by {}
            assert(after[before.len() as int] == bailout);
        }
        *self = EscapeSearch { counted, escaped, history: Ghost(after) };
        self.verdict()
    }
}

} // verus!
