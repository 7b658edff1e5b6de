//! Edge-triggered chord matching.
//!
//! The key state machine tracks which keys are currently held and which
//! bindings are currently active. A binding activates when the trigger of one
//! of its chords is pressed while the chord's remaining keys are already
//! held, and deactivates when any key of one of its chords is released while
//! the binding is active. Activation is tracked per binding, so alternative
//! chords of one binding never double-fire, and a binding never re-fires
//! while it is held.

use vstd::prelude::*;

verus! {

/// The named hotkey actions. Bindings may exist for every variant, but only
/// the first seven produce a protocol command; the rest are recognized and
/// ignored by the dispatcher.
#[derive(Clone, Copy, Debug, PartialEq, Eq, Structural)]
pub enum Hotkey {
    SplitKey,
    ResetKey,
    SkipKey,
    UndoKey,
    PauseKey,
    SwitchComparisonNext,
    SwitchComparisonPrevious,
    ToggleGlobalHotkeys,
}

/// A chord: keys that must all be held simultaneously, one of which is the
/// trigger whose press fires the activation edge.
pub struct Chord {
    pub keys: Vec<u32>,
    pub trigger: u32,
}

impl Chord {
    /// The trigger is one of the chord's keys, so the chord is non-empty.
    pub open spec fn wf(self) -> bool {
        self.keys@.contains(self.trigger)
    }

    /// All of the chord's keys are held.
    pub open spec fn held_in(self, held: Set<u32>) -> bool {
        forall|i: int| 0 <= i < self.keys@.len() ==> held.contains(#[trigger] self.keys@[i])
    }

    /// Builds a chord, checking that the trigger is one of its keys.
    pub fn new(keys: Vec<u32>, trigger: u32) -> (r: Option<Chord>)
        ensures
            match r {
                Some(c) => c.keys == keys && c.trigger == trigger && c.wf(),
                None => !keys@.contains(trigger),
            },
    {
        if contains_key_code(&keys, trigger) {
            Some(Chord { keys, trigger })
        } else {
            None
        }
    }
}

/// Whether `x` occurs in `v`.
fn contains_key_code(v: &Vec<u32>, x: u32) -> (r: bool)
    ensures
        r == v@.contains(x),
{
    let mut i: usize = 0;
    while i < v.len()
        invariant
            i <= v@.len(),
            forall|j: int| 0 <= j < i ==> v@[j] != x,
        decreases v@.len() - i,
    {
        if v[i] == x {
            return true;
        }
        i += 1;
    }
    false
}

/// Whether `h` occurs in `v`.
fn contains_hotkey(v: &Vec<Hotkey>, h: Hotkey) -> (r: bool)
    ensures
        r == v@.contains(h),
{
    let mut i: usize = 0;
    while i < v.len()
        invariant
            i <= v@.len(),
            forall|j: int| 0 <= j < i ==> v@[j] != h,
        decreases v@.len() - i,
    {
        if v[i] == h {
            return true;
        }
        i += 1;
    }
    false
}

/// Whether every key of the chord is in `pressed`.
fn chord_keys_held(c: &Chord, pressed: &Vec<u32>) -> (r: bool)
    ensures
        r == c.held_in(pressed@.to_set()),
{
    let mut i: usize = 0;
    while i < c.keys.len()
        invariant
            i <= c.keys@.len(),
            forall|j: int| 0 <= j < i ==> pressed@.to_set().contains(#[trigger] c.keys@[j]),
        decreases c.keys@.len() - i,
    {
        if !contains_key_code(pressed, c.keys[i]) {
            return false;
        }
        i += 1;
    }
    true
}

/// Adds `x` to a duplicate-free key list, as a set insertion.
fn insert_key_code(v: &mut Vec<u32>, x: u32)
    requires
        old(v)@.no_duplicates(),
    ensures
        final(v)@.no_duplicates(),
        final(v)@.to_set() == old(v)@.to_set().insert(x),
{
    if !contains_key_code(v, x) {
        let ghost pre = v@;
        v.push(x);
        proof {
            pre.lemma_push_to_set_commute(x);
            assert forall|p: int, q: int|
                0 <= p < q < v@.len() implies v@[p] != v@[q] by {
                if q < pre.len() {
                    assert(pre[p] != pre[q]);
                } else {
                    assert(v@[q] == x);
                    assert(pre.contains(pre[p]));
                }
            }
        }
    } else {
        proof {
            assert(v@.to_set() =~= v@.to_set().insert(x));
        }
    }
}

/// Removes `x` from a duplicate-free key list, as a set removal.
fn remove_key_code(v: &mut Vec<u32>, x: u32)
    requires
        old(v)@.no_duplicates(),
    ensures
        final(v)@.no_duplicates(),
        final(v)@.to_set() == old(v)@.to_set().remove(x),
{
    let mut i: usize = 0;
    while i < v.len()
        invariant
            v@ == old(v)@,
            old(v)@.no_duplicates(),
            i <= old(v)@.len(),
            forall|j: int| 0 <= j < i ==> old(v)@[j] != x,
        decreases old(v)@.len() - i,
    {
        if v[i] == x {
            proof {
                lemma_remove_unique_to_set_u32(old(v)@, i as int);
            }
            v.remove(i);
            return;
        }
        i += 1;
    }
    proof {
        assert(!old(v)@.contains(x));
        assert(v@.to_set() =~= v@.to_set().remove(x));
    }
}

/// Removes `h` from a duplicate-free hotkey list, as a set removal.
fn remove_hotkey(v: &mut Vec<Hotkey>, h: Hotkey)
    requires
        old(v)@.no_duplicates(),
    ensures
        final(v)@.no_duplicates(),
        final(v)@.to_set() == old(v)@.to_set().remove(h),
{
    let mut i: usize = 0;
    while i < v.len()
        invariant
            v@ == old(v)@,
            old(v)@.no_duplicates(),
            i <= old(v)@.len(),
            forall|j: int| 0 <= j < i ==> old(v)@[j] != h,
        decreases old(v)@.len() - i,
    {
        if v[i] == h {
            proof {
                lemma_remove_unique_to_set_hotkey(old(v)@, i as int);
            }
            v.remove(i);
            return;
        }
        i += 1;
    }
    proof {
        assert(!old(v)@.contains(h));
        assert(v@.to_set() =~= v@.to_set().remove(h));
    }
}

/// Removing the only occurrence of an element removes exactly it from the
/// sequence's set of elements.
proof fn lemma_remove_unique_to_set_u32(s: Seq<u32>, i: int)
    requires
        s.no_duplicates(),
        0 <= i < s.len(),
    ensures
        s.remove(i).no_duplicates(),
        s.remove(i).to_set() == s.to_set().remove(s[i]),
{
    s.remove_ensures(i);
    let s2 = s.remove(i);
    assert forall|p: int, q: int| 0 <= p < q < s2.len() implies s2[p] != s2[q] by {
        let p0: int = if p < i { p } else { p + 1 };
        let q0: int = if q < i { q } else { q + 1 };
        assert(s2[p] == s[p0] && s2[q] == s[q0]);
    }
    assert forall|a: u32| s2.to_set().contains(a) == s.to_set().remove(s[i]).contains(a) by {
        if s2.contains(a) {
            let k = choose|k: int| 0 <= k < s2.len() && s2[k] == a;
            let k0: int = if k < i { k } else { k + 1 };
            assert(s[k0] == a);
            assert(a != s[i]);
        }
        if s.contains(a) && a != s[i] {
            let k0 = choose|k0: int| 0 <= k0 < s.len() && s[k0] == a;
            let k: int = if k0 < i { k0 } else { k0 - 1 };
            assert(s2[k] == a);
        }
    }
    assert(s2.to_set() =~= s.to_set().remove(s[i]));
}

/// Removing the only occurrence of an element removes exactly it from the
/// sequence's set of elements.
proof fn lemma_remove_unique_to_set_hotkey(s: Seq<Hotkey>, i: int)
    requires
        s.no_duplicates(),
        0 <= i < s.len(),
    ensures
        s.remove(i).no_duplicates(),
        s.remove(i).to_set() == s.to_set().remove(s[i]),
{
    s.remove_ensures(i);
    let s2 = s.remove(i);
    assert forall|p: int, q: int| 0 <= p < q < s2.len() implies s2[p] != s2[q] by {
        let p0: int = if p < i { p } else { p + 1 };
        let q0: int = if q < i { q } else { q + 1 };
        assert(s2[p] == s[p0] && s2[q] == s[q0]);
    }
    assert forall|a: Hotkey| s2.to_set().contains(a) == s.to_set().remove(s[i]).contains(a) by {
        if s2.contains(a) {
            let k = choose|k: int| 0 <= k < s2.len() && s2[k] == a;
            let k0: int = if k < i { k } else { k + 1 };
            assert(s[k0] == a);
            assert(a != s[i]);
        }
        if s.contains(a) && a != s[i] {
            let k0 = choose|k0: int| 0 <= k0 < s.len() && s[k0] == a;
            let k: int = if k0 < i { k0 } else { k0 - 1 };
            assert(s2[k] == a);
        }
    }
    assert(s2.to_set() =~= s.to_set().remove(s[i]));
}

/// The activation edges emitted while processing a press of `code`: bindings
/// are visited in configuration order; one whose chord is triggered by
/// `code`, fully held, and not yet active emits `(hotkey, true)` and becomes
/// active. `held` already includes the pressed key.
pub open spec fn press_steps(
    bindings: Seq<(Hotkey, Chord)>,
    held: Set<u32>,
    active: Set<Hotkey>,
    code: u32,
) -> (Set<Hotkey>, Seq<(Hotkey, bool)>)
    decreases bindings.len(),
{
    if bindings.len() == 0 {
        (active, Seq::empty())
    } else {
        let h = bindings[0].0;
        let c = bindings[0].1;
        if c.trigger == code && c.held_in(held) && !active.contains(h) {
            let rest = press_steps(bindings.skip(1), held, active.insert(h), code);
            (rest.0, seq![(h, true)] + rest.1)
        } else {
            press_steps(bindings.skip(1), held, active, code)
        }
    }
}

/// The deactivation edges emitted while processing a release of `code`:
/// bindings are visited in configuration order; an active binding one of
/// whose chord's keys is `code` emits `(hotkey, false)` and stops being
/// active.
pub open spec fn release_steps(
    bindings: Seq<(Hotkey, Chord)>,
    active: Set<Hotkey>,
    code: u32,
) -> (Set<Hotkey>, Seq<(Hotkey, bool)>)
    decreases bindings.len(),
{
    if bindings.len() == 0 {
        (active, Seq::empty())
    } else {
        let h = bindings[0].0;
        let c = bindings[0].1;
        if active.contains(h) && c.keys@.contains(code) {
            let rest = release_steps(bindings.skip(1), active.remove(h), code);
            (rest.0, seq![(h, false)] + rest.1)
        } else {
            release_steps(bindings.skip(1), active, code)
        }
    }
}

/// Tracks held keys and active bindings, and turns key transitions into
/// activation and deactivation edges.
pub struct KeyState {
    /// The configured bindings; a hotkey may own several alternative chords,
    /// one entry each.
    pub bindings: Vec<(Hotkey, Chord)>,
    /// The keys currently believed held.
    pub pressed: Vec<u32>,
    /// The bindings currently active.
    pub active: Vec<Hotkey>,
}

impl KeyState {
    /// Key and activation lists are duplicate-free and every chord is
    /// well-formed.
    pub open spec fn wf(self) -> bool {
        &&& self.pressed@.no_duplicates()
        &&& self.active@.no_duplicates()
        &&& forall|i: int|
            0 <= i < self.bindings@.len() ==> (#[trigger] self.bindings@[i]).1.wf()
    }

    /// The set of keys currently held.
    pub open spec fn held(self) -> Set<u32> {
        self.pressed@.to_set()
    }

    /// The set of bindings currently active.
    pub open spec fn active_set(self) -> Set<Hotkey> {
        self.active@.to_set()
    }

    /// What one transition does: the resulting held-key set, the resulting
    /// active-binding set, and the emitted edges, in order.
    pub open spec fn spec_step(self, code: u32, is_press: bool) -> (
        Set<u32>,
        Set<Hotkey>,
        Seq<(Hotkey, bool)>,
    ) {
        if is_press {
            let held = self.held().insert(code);
            let r = press_steps(self.bindings@, held, self.active_set(), code);
            (held, r.0, r.1)
        } else {
            let r = release_steps(self.bindings@, self.active_set(), code);
            (self.held().remove(code), r.0, r.1)
        }
    }

    /// A fresh state: nothing held, nothing active.
    pub fn new(bindings: Vec<(Hotkey, Chord)>) -> (r: Self)
        requires
            forall|i: int| 0 <= i < bindings@.len() ==> (#[trigger] bindings@[i]).1.wf(),
        ensures
            r.wf(),
            r.bindings == bindings,
            r.held() == Set::<u32>::empty(),
            r.active_set() == Set::<Hotkey>::empty(),
    {
        let r = KeyState { bindings, pressed: Vec::new(), active: Vec::new() };
        proof {
            assert(r.held() =~= Set::<u32>::empty());
            assert(r.active_set() =~= Set::<Hotkey>::empty());
        }
        r
    }

    /// Consumes one key transition and returns the activation edges it
    /// fires, in configuration order.
    pub fn handle_key(&mut self, code: u32, is_press: bool) -> (r: Vec<(Hotkey, bool)>)
        requires
            old(self).wf(),
        ensures
            key_step(*old(self), *final(self), code, is_press, r@),
    {
        let ghost pre = *self;
        let mut out: Vec<(Hotkey, bool)> = Vec::new();
        if is_press {
            insert_key_code(&mut self.pressed, code);
            let ghost bindings0 = self.bindings@;
            let ghost held = self.pressed@.to_set();
            let ghost pressed1 = self.pressed@;
            let ghost active0 = self.active@.to_set();
            let n = self.bindings.len();
            let mut i: usize = 0;
            proof {
                assert(bindings0.skip(0) =~= bindings0);
                assert(Seq::<(Hotkey, bool)>::empty() + press_steps(bindings0, held, active0, code).1
                    =~= press_steps(bindings0, held, active0, code).1);
            }
            while i < n
                invariant
                    pre.wf(),
                    self.bindings == pre.bindings,
                    n == bindings0.len(),
                    bindings0 == self.bindings@,
                    i <= n,
                    self.pressed@ == pressed1,
                    pressed1.no_duplicates(),
                    held == pressed1.to_set(),
                    self.active@.no_duplicates(),
                    press_steps(bindings0, held, active0, code).0 == press_steps(
                        bindings0.skip(i as int),
                        held,
                        self.active@.to_set(),
                        code,
                    ).0,
                    press_steps(bindings0, held, active0, code).1 == out@ + press_steps(
                        bindings0.skip(i as int),
                        held,
                        self.active@.to_set(),
                        code,
                    ).1,
                decreases n - i,
            {
                let h = self.bindings[i].0;
                let ghost cur = self.active@.to_set();
                proof {
                    assert(bindings0.skip(i as int)[0] == bindings0[i as int]);
                    assert(bindings0.skip(i as int).skip(1) =~= bindings0.skip(i as int + 1));
                }
                let fire = self.bindings[i].1.trigger == code && !contains_hotkey(&self.active, h)
                    && chord_keys_held(&self.bindings[i].1, &self.pressed);
                if fire {
                    let ghost active_pre = self.active@;
                    let ghost out_pre = out@;
                    self.active.push(h);
                    out.push((h, true));
                    proof {
                        active_pre.lemma_push_to_set_commute(h);
                        assert forall|p: int, q: int|
                            0 <= p < q < self.active@.len() implies self.active@[p]
                            != self.active@[q] by {
                            if q < active_pre.len() {
                                assert(active_pre[p] != active_pre[q]);
                            } else {
                                assert(active_pre.contains(active_pre[p]));
                            }
                        }
                        let rest = press_steps(bindings0.skip(i as int + 1), held, cur.insert(h), code);
                        assert(out@ =~= out_pre + seq![(h, true)]);
                        assert(out_pre + (seq![(h, true)] + rest.1) =~= (out_pre + seq![(h, true)])
                            + rest.1);
                    }
                }
                i += 1;
            }
            proof {
                assert(bindings0.skip(n as int) =~= Seq::<(Hotkey, Chord)>::empty());
                assert(out@ + Seq::<(Hotkey, bool)>::empty() =~= out@);
            }
        } else {
            remove_key_code(&mut self.pressed, code);
            let ghost bindings0 = self.bindings@;
            let ghost pressed1 = self.pressed@;
            let ghost active0 = self.active@.to_set();
            let n = self.bindings.len();
            let mut i: usize = 0;
            proof {
                assert(bindings0.skip(0) =~= bindings0);
                assert(Seq::<(Hotkey, bool)>::empty() + release_steps(bindings0, active0, code).1
                    =~= release_steps(bindings0, active0, code).1);
            }
            while i < n
                invariant
                    pre.wf(),
                    self.bindings == pre.bindings,
                    n == bindings0.len(),
                    bindings0 == self.bindings@,
                    i <= n,
                    self.pressed@ == pressed1,
                    pressed1.no_duplicates(),
                    self.active@.no_duplicates(),
                    release_steps(bindings0, active0, code).0 == release_steps(
                        bindings0.skip(i as int),
                        self.active@.to_set(),
                        code,
                    ).0,
                    release_steps(bindings0, active0, code).1 == out@ + release_steps(
                        bindings0.skip(i as int),
                        self.active@.to_set(),
                        code,
                    ).1,
                decreases n - i,
            {
                let h = self.bindings[i].0;
                let ghost cur = self.active@.to_set();
                proof {
                    assert(bindings0.skip(i as int)[0] == bindings0[i as int]);
                    assert(bindings0.skip(i as int).skip(1) =~= bindings0.skip(i as int + 1));
                }
                let fire = contains_hotkey(&self.active, h) && contains_key_code(
                    &self.bindings[i].1.keys,
                    code,
                );
                if fire {
                    let ghost out_pre = out@;
                    remove_hotkey(&mut self.active, h);
                    out.push((h, false));
                    proof {
                        let rest = release_steps(bindings0.skip(i as int + 1), cur.remove(h), code);
                        assert(out@ =~= out_pre + seq![(h, false)]);
                        assert(out_pre + (seq![(h, false)] + rest.1) =~= (out_pre + seq![(h, false)])
                            + rest.1);
                    }
                }
                i += 1;
            }
            proof {
                assert(bindings0.skip(n as int) =~= Seq::<(Hotkey, Chord)>::empty());
                assert(out@ + Seq::<(Hotkey, bool)>::empty() =~= out@);
            }
        }
        out
    }
}

/// What one call of `KeyState::handle_key` does, as a relation between the
/// state before, the state after, and the emitted edges.
pub open spec fn key_step(
    pre: KeyState,
    post: KeyState,
    code: u32,
    is_press: bool,
    out: Seq<(Hotkey, bool)>,
) -> bool {
    &&& post.wf()
    &&& post.bindings == pre.bindings
    &&& post.held() == pre.spec_step(code, is_press).0
    &&& post.active_set() == pre.spec_step(code, is_press).1
    &&& out == pre.spec_step(code, is_press).2
}

/// A press of a key that triggers no chord emits nothing and activates
/// nothing.
proof fn lemma_press_steps_no_trigger(
    bindings: Seq<(Hotkey, Chord)>,
    held: Set<u32>,
    active: Set<Hotkey>,
    code: u32,
)
    requires
        forall|i: int| 0 <= i < bindings.len() ==> (#[trigger] bindings[i]).1.trigger != code,
    ensures
        press_steps(bindings, held, active, code).0 == active,
        press_steps(bindings, held, active, code).1 == Seq::<(Hotkey, bool)>::empty(),
    decreases bindings.len(),
{
    if bindings.len() > 0 {
        lemma_press_steps_no_trigger(bindings.skip(1), held, active, code);
    }
}

/// A release of a key that no chord contains emits nothing and deactivates
/// nothing.
proof fn lemma_release_steps_no_member(
    bindings: Seq<(Hotkey, Chord)>,
    active: Set<Hotkey>,
    code: u32,
)
    requires
        forall|i: int|
            0 <= i < bindings.len() ==> !(#[trigger] bindings[i]).1.keys@.contains(code),
    ensures
        release_steps(bindings, active, code).0 == active,
        release_steps(bindings, active, code).1 == Seq::<(Hotkey, bool)>::empty(),
    decreases bindings.len(),
{
    if bindings.len() > 0 {
        lemma_release_steps_no_member(bindings.skip(1), active, code);
    }
}

/// Unknown key is a no-op: a transition of a key that appears in no
/// configured chord emits no edge and leaves the active bindings alone.
pub proof fn lemma_unknown_key_emits_nothing(ks: KeyState, code: u32, is_press: bool)
    requires
        ks.wf(),
        forall|i: int|
            0 <= i < ks.bindings@.len() ==> !(#[trigger] ks.bindings@[i]).1.keys@.contains(code),
    ensures
        ks.spec_step(code, is_press).2 == Seq::<(Hotkey, bool)>::empty(),
        ks.spec_step(code, is_press).1 == ks.active_set(),
{
    if is_press {
        assert forall|i: int|
            0 <= i < ks.bindings@.len() implies (#[trigger] ks.bindings@[i]).1.trigger
            != code by {
            assert(ks.bindings@[i].1.wf());
        }
        lemma_press_steps_no_trigger(ks.bindings@, ks.held().insert(code), ks.active_set(), code);
    } else {
        lemma_release_steps_no_member(ks.bindings@, ks.active_set(), code);
    }
}

/// Edge-triggered chord activation, on a single binding whose chord is
/// `{a, b}` with trigger `b`: pressing `a` then `b` activates exactly once;
/// pressing an unrelated key while both are held does not re-activate;
/// releasing `a` deactivates; pressing `a` again without releasing `b` does
/// not re-activate, because the edge fires only on the trigger.
pub proof fn lemma_edge_triggered_chord(
    ks0: KeyState,
    ks1: KeyState,
    ks2: KeyState,
    ks3: KeyState,
    ks4: KeyState,
    ks5: KeyState,
    h: Hotkey,
    c: Chord,
    a: u32,
    b: u32,
    u: u32,
    out1: Seq<(Hotkey, bool)>,
    out2: Seq<(Hotkey, bool)>,
    out3: Seq<(Hotkey, bool)>,
    out4: Seq<(Hotkey, bool)>,
    out5: Seq<(Hotkey, bool)>,
)
    requires
        ks0.wf(),
        ks0.bindings@ == seq![(h, c)],
        c.keys@ == seq![a, b],
        c.trigger == b,
        a != b,
        u != a,
        u != b,
        ks0.held() == Set::<u32>::empty(),
        ks0.active_set() == Set::<Hotkey>::empty(),
        key_step(ks0, ks1, a, true, out1),
        key_step(ks1, ks2, b, true, out2),
        key_step(ks2, ks3, u, true, out3),
        key_step(ks3, ks4, a, false, out4),
        key_step(ks4, ks5, a, true, out5),
    ensures
        out1 == Seq::<(Hotkey, bool)>::empty(),
        out2 == seq![(h, true)],
        out3 == Seq::<(Hotkey, bool)>::empty(),
        out4 == seq![(h, false)],
        out5 == Seq::<(Hotkey, bool)>::empty(),
{
    reveal_with_fuel(press_steps, 3);
    reveal_with_fuel(release_steps, 3);
    let bs = ks0.bindings@;
    assert(bs.skip(1) =~= Seq::<(Hotkey, Chord)>::empty());
    assert(bs[0] == (h, c));

    // Press a: the trigger is b, so nothing fires.
    assert(out1 =~= Seq::<(Hotkey, bool)>::empty());
    assert(ks1.held() == Set::<u32>::empty().insert(a));
    assert(ks1.active_set() == Set::<Hotkey>::empty());
    assert(ks1.bindings@ == bs);

    // Press b: both keys are now held and the binding is inactive, so it
    // fires exactly once.
    let held2 = ks1.held().insert(b);
    assert(held2.contains(a) && held2.contains(b));
    assert(c.held_in(held2));
    assert(out2 == seq![(h, true)] + Seq::<(Hotkey, bool)>::empty());
    assert(out2 =~= seq![(h, true)]);
    assert(ks2.active_set() == Set::<Hotkey>::empty().insert(h));
    assert(ks2.bindings@ == bs);

    // Press an unrelated key: the binding is already active, so nothing
    // fires even though the chord stays held.
    assert(out3 =~= Seq::<(Hotkey, bool)>::empty());
    assert(ks3.active_set() == ks2.active_set());
    assert(ks3.bindings@ == bs);

    // Release a: the binding is active and a is one of its keys, so it
    // deactivates.
    assert(ks3.active_set().contains(h));
    assert(c.keys@.contains(a));
    assert(out4 == seq![(h, false)] + Seq::<(Hotkey, bool)>::empty());
    assert(out4 =~= seq![(h, false)]);
    assert(ks4.active_set() == ks3.active_set().remove(h));
    assert(ks4.bindings@ == bs);

    // Press a again while b stays held: the edge fires only on the trigger
    // b, so nothing fires.
    assert(out5 =~= Seq::<(Hotkey, bool)>::empty());
}

} // verus!
