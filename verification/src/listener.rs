//! The consumer core of the listener.
//!
//! One listener owns the whole per-event pipeline: deduplication, chord
//! matching and command dispatch, in that order, processing strictly one
//! event at a time. The surrounding program reads devices and the settings
//! file, feeds normalized transitions in, and writes the returned commands
//! to the server connection in order.

use vstd::prelude::*;
use crate::chord::{Chord, Hotkey, KeyState, key_step, lemma_unknown_key_emits_nothing};
use crate::dedup::{Deduplicator, accepts};
use crate::dispatch::{
    Command, Dispatcher, enabled_comparisons, initial_comparison_index, spec_dispatch_edges,
    spec_enabled_comparisons, spec_initial_comparison_index,
};

verus! {

/// Deduplicator, chord state machine and dispatcher, fused in pipeline
/// order.
pub struct HotkeyListener {
    pub dedup: Deduplicator,
    pub keys: KeyState,
    pub dispatcher: Dispatcher,
}

impl HotkeyListener {
    /// Every stage is well-formed.
    pub open spec fn wf(self) -> bool {
        &&& self.dedup.wf()
        &&& self.keys.wf()
        &&& self.dispatcher.wf()
    }

    /// Builds a listener from the configured bindings, the comparison
    /// enabled flags in configuration order, and the last-used comparison
    /// name, if the settings hold one (absent, it counts as
    /// "Personal Best"). Nothing is held, nothing is active, nothing is
    /// remembered, and the pause flag is clear.
    pub fn new(
        bindings: Vec<(Hotkey, Chord)>,
        comparison_flags: &Vec<(String, bool)>,
        last_comparison: &Option<String>,
    ) -> (r: Self)
        requires
            forall|i: int| 0 <= i < bindings@.len() ==> (#[trigger] bindings@[i]).1.wf(),
        ensures
            r.wf(),
            r.keys.bindings == bindings,
            r.keys.held() == Set::<u32>::empty(),
            r.keys.active_set() == Set::<Hotkey>::empty(),
            forall|c: u32| r.dedup.state_of(c) is None,
            !r.dispatcher.paused,
            r.dispatcher.enabled@ == spec_enabled_comparisons(comparison_flags@),
            r.dispatcher.comparison_index == spec_initial_comparison_index(
                spec_enabled_comparisons(comparison_flags@),
                (match last_comparison {
                    Some(s) => s@,
                    None => "Personal Best"@,
                }),
            ),
    {
        let enabled = enabled_comparisons(comparison_flags);
        let start = match last_comparison {
            Some(s) => initial_comparison_index(&enabled, s),
            None => {
                let pb = "Personal Best".to_owned();
                initial_comparison_index(&enabled, &pb)
            },
        };
        HotkeyListener {
            dedup: Deduplicator::new(),
            keys: KeyState::new(bindings),
            dispatcher: Dispatcher::new(enabled, start),
        }
    }

    /// Consumes one key transition: a duplicate of the key's remembered
    /// state is discarded whole; an accepted one runs through the chord
    /// state machine, and the activation edges it fires are dispatched to
    /// commands, in order.
    pub fn process_event(&mut self, code: u32, pressed: bool) -> (cmds: Vec<Command>)
        requires
            old(self).wf(),
        ensures
            final(self).wf(),
            old(self).dedup.state_of(code) == Some(pressed) ==> *final(self) == *old(self)
                && cmds@ == Seq::<Command>::empty(),
            old(self).dedup.state_of(code) != Some(pressed) ==> ({
                let edges = old(self).keys.spec_step(code, pressed).2;
                &&& accepts(old(self).dedup, final(self).dedup, code, pressed, true)
                &&& key_step(old(self).keys, final(self).keys, code, pressed, edges)
                &&& final(self).dispatcher == spec_dispatch_edges(old(self).dispatcher, edges).0
                &&& cmds@ == spec_dispatch_edges(old(self).dispatcher, edges).1
            }),
    {
        let mut cmds: Vec<Command> = Vec::new();
        if !self.dedup.accept(code, pressed) {
            return cmds;
        }
        let edges = self.keys.handle_key(code, pressed);
        let ghost mid = *self;
        let ghost edges_seq = edges@;
        let ghost d0 = self.dispatcher;
        let n = edges.len();
        let mut i: usize = 0;
        proof {
            assert(edges_seq.skip(0) =~= edges_seq);
            assert(Seq::<Command>::empty() + spec_dispatch_edges(d0, edges_seq).1
                =~= spec_dispatch_edges(d0, edges_seq).1);
        }
        while i < n
            invariant
                n == edges@.len(),
                i <= n,
                edges@ == edges_seq,
                *self == (HotkeyListener { dispatcher: self.dispatcher, ..mid }),
                self.dispatcher.wf(),
                spec_dispatch_edges(d0, edges_seq).0 == spec_dispatch_edges(
                    self.dispatcher,
                    edges_seq.skip(i as int),
                ).0,
                spec_dispatch_edges(d0, edges_seq).1 == cmds@ + spec_dispatch_edges(
                    self.dispatcher,
                    edges_seq.skip(i as int),
                ).1,
            decreases n - i,
        {
            proof {
                assert(edges_seq.skip(i as int)[0] == edges_seq[i as int]);
                assert(edges_seq.skip(i as int).skip(1) =~= edges_seq.skip(i as int + 1));
            }
            let edge = edges[i];
            let h = edge.0;
            let activated = edge.1;
            if activated {
                let c = self.dispatcher.dispatch(h);
                match c {
                    Some(cmd) => {
                        let ghost cmds_pre = cmds@;
                        cmds.push(cmd);
                        proof {
                            let rest = spec_dispatch_edges(
                                self.dispatcher,
                                edges_seq.skip(i as int + 1),
                            );
                            assert(cmds@ =~= cmds_pre + seq![cmd]);
                            assert(cmds_pre + (seq![cmd] + rest.1) =~= (cmds_pre + seq![cmd])
                                + rest.1);
                        }
                    },
                    None => {
                        proof {
                            let rest = spec_dispatch_edges(
                                self.dispatcher,
                                edges_seq.skip(i as int + 1),
                            );
                            assert(Seq::<Command>::empty() + rest.1 =~= rest.1);
                        }
                    },
                }
            }
            i += 1;
        }
        proof {
            assert(edges_seq.skip(n as int) =~= Seq::<(Hotkey, bool)>::empty());
            assert(cmds@ + Seq::<Command>::empty() =~= cmds@);
        }
        cmds
    }
}

/// Unknown key is a no-op end to end: a transition of a key that appears in
/// no configured chord fires no edge, so the dispatcher emits no command for
/// it.
pub proof fn lemma_unknown_key_no_commands(l: HotkeyListener, code: u32, pressed: bool)
    requires
        l.wf(),
        forall|i: int|
            0 <= i < l.keys.bindings@.len() ==> !(#[trigger] l.keys.bindings@[i]).1.keys@.contains(
                code,
            ),
    ensures
        spec_dispatch_edges(l.dispatcher, l.keys.spec_step(code, pressed).2).1 == Seq::<
            Command,
        >::empty(),
{
    lemma_unknown_key_emits_nothing(l.keys, code, pressed);
}

} // verus!
