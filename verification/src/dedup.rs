//! Suppression of redundant key transitions.
//!
//! Several devices (or driver quirks) may report the same logical key
//! transition more than once. The deduplicator remembers, per key, the most
//! recently accepted press/release state; an incoming transition equal to
//! that state is discarded, and an accepted one replaces the remembered
//! state for its key.

use vstd::prelude::*;

verus! {

/// Remembered key states: at most one entry per key.
pub struct Deduplicator {
    pub states: Vec<(u32, bool)>,
}

/// The remembered state of `code` in an entry list: the first (and, under
/// `Deduplicator::wf`, only) entry for that key.
pub open spec fn seq_state_of(s: Seq<(u32, bool)>, code: u32) -> Option<bool>
    decreases s.len(),
{
    if s.len() == 0 {
        None
    } else if s[0].0 == code {
        Some(s[0].1)
    } else {
        seq_state_of(s.skip(1), code)
    }
}

/// What one call of `Deduplicator::accept` does: the transition is accepted
/// exactly when it differs from the remembered state of its key; afterwards
/// that state is remembered, and every other key keeps its state.
pub open spec fn accepts(
    pre: Deduplicator,
    post: Deduplicator,
    code: u32,
    pressed: bool,
    accepted: bool,
) -> bool {
    &&& accepted == (pre.state_of(code) != Some(pressed))
    &&& post.state_of(code) == Some(pressed)
    &&& forall|c: u32| c != code ==> post.state_of(c) == pre.state_of(c)
}

impl Deduplicator {
    /// Each key holds at most one entry.
    pub open spec fn wf(self) -> bool {
        forall|i: int, j: int|
            0 <= i < j < self.states@.len() ==> (#[trigger] self.states@[i]).0 != (
            #[trigger] self.states@[j]).0
    }

    /// The remembered state of `code`, if any.
    pub open spec fn state_of(self, code: u32) -> Option<bool> {
        seq_state_of(self.states@, code)
    }

    /// An empty deduplicator: no key has a remembered state.
    pub fn new() -> (r: Self)
        ensures
            r.wf(),
            forall|c: u32| r.state_of(c) is None,
    {
        let r = Deduplicator { states: Vec::new() };
        proof {
            assert forall|c: u32| r.state_of(c) is None by {
                lemma_state_of_absent(r.states@, c);
            }
        }
        r
    }

    /// Accepts or discards one transition, updating the remembered state.
    pub fn accept(&mut self, code: u32, pressed: bool) -> (r: bool)
        requires
            old(self).wf(),
        ensures
            final(self).wf(),
            accepts(*old(self), *final(self), code, pressed, r),
            !r ==> *final(self) == *old(self),
    {
        let n = self.states.len();
        let mut i: usize = 0;
        while i < n
            invariant
                *self == *old(self),
                old(self).wf(),
                n == self.states@.len(),
                i <= n,
                forall|j: int| 0 <= j < i ==> (#[trigger] self.states@[j]).0 != code,
            decreases n - i,
        {
            let entry = self.states[i];
            if entry.0 == code {
                proof {
                    lemma_state_of_found(self.states@, code, i as int);
                }
                if entry.1 == pressed {
                    return false;
                } else {
                    let ghost pre = self.states@;
                    self.states[i] = (code, pressed);
                    proof {
                        lemma_state_of_found(self.states@, code, i as int);
                        assert forall|c: u32| c != code implies seq_state_of(self.states@, c)
                            == seq_state_of(pre, c) by {
                            lemma_state_of_update_other(pre, i as int, (code, pressed), c);
                        }
                        assert forall|p: int, q: int|
                            0 <= p < q < self.states@.len() implies (
                        #[trigger] self.states@[p]).0 != (#[trigger] self.states@[q]).0 by {
                            assert(pre[p].0 != pre[q].0);
                        }
                    }
                    return true;
                }
            }
            i += 1;
        }
        proof {
            lemma_state_of_absent(self.states@, code);
        }
        let ghost pre = self.states@;
        self.states.push((code, pressed));
        proof {
            assert forall|c: u32| #![auto] seq_state_of(self.states@, c) == (if c == code {
                Some(pressed)
            } else {
                seq_state_of(pre, c)
            }) by {
                lemma_state_of_push(pre, (code, pressed), c);
            }
        }
        true
    }
}

/// A key with no entry has no remembered state.
proof fn lemma_state_of_absent(s: Seq<(u32, bool)>, code: u32)
    requires
        forall|j: int| 0 <= j < s.len() ==> (#[trigger] s[j]).0 != code,
    ensures
        seq_state_of(s, code) is None,
    decreases s.len(),
{
    if s.len() > 0 {
        lemma_state_of_absent(s.skip(1), code);
    }
}

/// The remembered state comes from the first entry of the key.
proof fn lemma_state_of_found(s: Seq<(u32, bool)>, code: u32, k: int)
    requires
        0 <= k < s.len(),
        s[k].0 == code,
        forall|j: int| 0 <= j < k ==> (#[trigger] s[j]).0 != code,
    ensures
        seq_state_of(s, code) == Some(s[k].1),
    decreases k,
{
    if k > 0 {
        lemma_state_of_found(s.skip(1), code, k - 1);
    }
}

/// Updating an entry of another key leaves a key's remembered state alone.
proof fn lemma_state_of_update_other(s: Seq<(u32, bool)>, i: int, e: (u32, bool), c: u32)
    requires
        0 <= i < s.len(),
        s[i].0 != c,
        e.0 != c,
    ensures
        seq_state_of(s.update(i, e), c) == seq_state_of(s, c),
    decreases s.len(),
{
    let s2 = s.update(i, e);
    if i == 0 {
        assert(s2.skip(1) =~= s.skip(1));
    } else {
        if s[0].0 != c {
            lemma_state_of_update_other(s.skip(1), i - 1, e, c);
            assert(s2.skip(1) =~= s.skip(1).update(i - 1, e));
        }
    }
}

/// Appending an entry only gives a state to a key that had none.
proof fn lemma_state_of_push(s: Seq<(u32, bool)>, e: (u32, bool), c: u32)
    ensures
        seq_state_of(s.push(e), c) == (if seq_state_of(s, c) is Some {
            seq_state_of(s, c)
        } else if e.0 == c {
            Some(e.1)
        } else {
            None
        }),
    decreases s.len(),
{
    reveal_with_fuel(seq_state_of, 3);
    if s.len() == 0 {
        assert(s.push(e)[0] == e);
        assert(s.push(e).skip(1) =~= Seq::<(u32, bool)>::empty());
    } else {
        assert(s.push(e)[0] == s[0]);
        lemma_state_of_push(s.skip(1), e, c);
        assert(s.push(e).skip(1) =~= s.skip(1).push(e));
    }
}

/// Deduplication idempotence: of two identical transitions in a row, the
/// second is always discarded; the first passes exactly when the key's
/// remembered state differed, so a fresh key passes once and only once.
pub proof fn lemma_duplicate_discarded(
    d0: Deduplicator,
    d1: Deduplicator,
    d2: Deduplicator,
    code: u32,
    pressed: bool,
    a1: bool,
    a2: bool,
)
    requires
        accepts(d0, d1, code, pressed, a1),
        accepts(d1, d2, code, pressed, a2),
    ensures
        !a2,
        a1 == (d0.state_of(code) != Some(pressed)),
{
}

/// Opposite-state reset: a press, then a release, then a press of the same
/// key are all accepted — remembering one state never suppresses the
/// opposite transition that follows it.
pub proof fn lemma_opposite_state_resets(
    d0: Deduplicator,
    d1: Deduplicator,
    d2: Deduplicator,
    d3: Deduplicator,
    code: u32,
    a1: bool,
    a2: bool,
    a3: bool,
)
    requires
        d0.state_of(code) != Some(true),
        accepts(d0, d1, code, true, a1),
        accepts(d1, d2, code, false, a2),
        accepts(d2, d3, code, true, a3),
    ensures
        a1,
        a2,
        a3,
{
}

} // verus!
