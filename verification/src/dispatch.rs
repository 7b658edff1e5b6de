//! Command dispatch.
//!
//! Activated hotkeys become protocol commands: fixed literals for split,
//! reset, skip and undo; a pause/resume toggle driven by a flag the remote
//! server does not echo back; and cyclic selection within the enabled
//! comparison list. Commands are line-oriented ASCII, each terminated by
//! CRLF.

use vstd::prelude::*;
use vstd::string::StringExecFns;
use crate::chord::Hotkey;

verus! {

/// How many comparisons the fixed catalog holds.
pub const COMPARISON_COUNT: usize = 8;

/// The catalog position of "Personal Best", which is always enabled.
pub const PERSONAL_BEST: usize = 7;

/// The fixed comparison catalog, by position.
pub open spec fn spec_comparison_name(i: int) -> Seq<char> {
    if i == 0 {
        "Best Segments"@
    } else if i == 1 {
        "Best Split Times"@
    } else if i == 2 {
        "Average Segments"@
    } else if i == 3 {
        "Median Segments"@
    } else if i == 4 {
        "Worst Segments"@
    } else if i == 5 {
        "Balanced PB"@
    } else if i == 6 {
        "Latest Run"@
    } else {
        "Personal Best"@
    }
}

/// The name of the comparison at catalog position `i` (positions outside
/// the catalog fall back to "Personal Best", as the catalog spec does).
pub fn comparison_name(i: usize) -> (r: &'static str)
    ensures
        r@ == spec_comparison_name(i as int),
{
    if i == 0 {
        "Best Segments"
    } else if i == 1 {
        "Best Split Times"
    } else if i == 2 {
        "Average Segments"
    } else if i == 3 {
        "Median Segments"
    } else if i == 4 {
        "Worst Segments"
    } else if i == 5 {
        "Balanced PB"
    } else if i == 6 {
        "Latest Run"
    } else {
        "Personal Best"
    }
}

/// Whether a string equals a literal, by contents.
fn string_eq_str(a: &String, b: &str) -> (r: bool)
    ensures
        r == (a@ == b@),
{
    let bs = b.to_owned();
    a.eq(&bs)
}

/// The enabled flag recorded for `name`: of several entries for one name,
/// the last wins; an absent name is disabled.
pub open spec fn spec_flag_of(flags: Seq<(String, bool)>, name: Seq<char>) -> bool
    decreases flags.len(),
{
    if flags.len() == 0 {
        false
    } else if flags.last().0@ == name {
        flags.last().1
    } else {
        spec_flag_of(flags.drop_last(), name)
    }
}

/// The enabled flag recorded for `name` in configuration order.
fn flag_of(flags: &Vec<(String, bool)>, name: &str) -> (r: bool)
    ensures
        r == spec_flag_of(flags@, name@),
{
    let mut i: usize = flags.len();
    proof {
        assert(flags@.take(flags@.len() as int) =~= flags@);
    }
    while i > 0
        invariant
            i <= flags@.len(),
            spec_flag_of(flags@, name@) == spec_flag_of(flags@.take(i as int), name@),
        decreases i,
    {
        i -= 1;
        let ghost prefix = flags@.take(i as int + 1);
        proof {
            assert(prefix.last() == flags@[i as int]);
            assert(prefix.drop_last() =~= flags@.take(i as int));
        }
        if string_eq_str(&flags[i].0, name) {
            return flags[i].1;
        }
    }
    false
}

/// The catalog positions of the enabled comparisons among the first `n`
/// catalog entries, in catalog order.
pub open spec fn spec_enabled_prefix(flags: Seq<(String, bool)>, n: int) -> Seq<usize>
    decreases n,
{
    if n <= 0 {
        Seq::empty()
    } else {
        let rest = spec_enabled_prefix(flags, n - 1);
        if spec_flag_of(flags, spec_comparison_name(n - 1)) {
            rest.push((n - 1) as usize)
        } else {
            rest
        }
    }
}

/// The enabled comparison list: the catalog entries whose flag is set, in
/// catalog order, with "Personal Best" appended unconditionally (so it can
/// occur twice when it is also enabled by flag).
pub open spec fn spec_enabled_comparisons(flags: Seq<(String, bool)>) -> Seq<usize> {
    spec_enabled_prefix(flags, COMPARISON_COUNT as int).push(PERSONAL_BEST)
}

/// Builds the enabled comparison list from the configured flags.
pub fn enabled_comparisons(flags: &Vec<(String, bool)>) -> (r: Vec<usize>)
    ensures
        r@ == spec_enabled_comparisons(flags@),
        r@.len() > 0,
        forall|j: int| 0 <= j < r@.len() ==> r@[j] < COMPARISON_COUNT,
{
    let mut r: Vec<usize> = Vec::new();
    let mut i: usize = 0;
    while i < COMPARISON_COUNT
        invariant
            i <= COMPARISON_COUNT,
            r@ == spec_enabled_prefix(flags@, i as int),
            forall|j: int| 0 <= j < r@.len() ==> r@[j] < COMPARISON_COUNT,
        decreases COMPARISON_COUNT - i,
    {
        if flag_of(flags, comparison_name(i)) {
            r.push(i);
        }
        i += 1;
    }
    r.push(PERSONAL_BEST);
    r
}

/// Where the first occurrence of `name` stands in the enabled list, if it
/// stands anywhere.
pub open spec fn spec_name_position(enabled: Seq<usize>, name: Seq<char>) -> Option<int>
    decreases enabled.len(),
{
    if enabled.len() == 0 {
        None
    } else if spec_comparison_name(enabled[0] as int) == name {
        Some(0int)
    } else {
        match spec_name_position(enabled.skip(1), name) {
            Some(p) => Some(p + 1),
            None => None,
        }
    }
}

/// Where the comparison cycle starts: at the first enabled entry whose name
/// is the last-used comparison, or at the head of the list if no entry
/// matches.
pub open spec fn spec_initial_comparison_index(enabled: Seq<usize>, name: Seq<char>) -> int {
    match spec_name_position(enabled, name) {
        Some(p) => p,
        None => 0,
    }
}

/// The position is found where the first match stands.
proof fn lemma_name_position_found(enabled: Seq<usize>, name: Seq<char>, k: int)
    requires
        0 <= k < enabled.len(),
        spec_comparison_name(enabled[k] as int) == name,
        forall|j: int| 0 <= j < k ==> spec_comparison_name(#[trigger] enabled[j] as int) != name,
    ensures
        spec_name_position(enabled, name) == Some(k),
    decreases k,
{
    if k > 0 {
        lemma_name_position_found(enabled.skip(1), name, k - 1);
    }
}

/// No match, no position.
proof fn lemma_name_position_absent(enabled: Seq<usize>, name: Seq<char>)
    requires
        forall|j: int|
            0 <= j < enabled.len() ==> spec_comparison_name(#[trigger] enabled[j] as int) != name,
    ensures
        spec_name_position(enabled, name) is None,
    decreases enabled.len(),
{
    if enabled.len() > 0 {
        lemma_name_position_absent(enabled.skip(1), name);
    }
}

/// Seeds the comparison cycle from the last-used comparison name.
pub fn initial_comparison_index(enabled: &Vec<usize>, last: &String) -> (r: usize)
    requires
        forall|j: int| 0 <= j < enabled@.len() ==> enabled@[j] < COMPARISON_COUNT,
    ensures
        r == spec_initial_comparison_index(enabled@, last@),
        enabled@.len() > 0 ==> r < enabled@.len(),
{
    let mut p: usize = 0;
    while p < enabled.len()
        invariant
            p <= enabled@.len(),
            forall|j: int| 0 <= j < enabled@.len() ==> enabled@[j] < COMPARISON_COUNT,
            forall|j: int|
                0 <= j < p ==> spec_comparison_name(#[trigger] enabled@[j] as int) != last@,
        decreases enabled@.len() - p,
    {
        let name = comparison_name(enabled[p]);
        if string_eq_str(last, name) {
            proof {
                lemma_name_position_found(enabled@, last@, p as int);
            }
            return p;
        }
        p += 1;
    }
    proof {
        lemma_name_position_absent(enabled@, last@);
    }
    0
}

/// A protocol command for the timer server.
#[derive(Clone, Copy, Debug, PartialEq, Eq, Structural)]
pub enum Command {
    StartOrSplit,
    Reset,
    SkipSplit,
    Unsplit,
    Pause,
    Resume,
    /// Selects the comparison at the given catalog position.
    SetComparison(usize),
}

impl Command {
    /// A set-comparison command points into the catalog.
    pub open spec fn wf(self) -> bool {
        match self {
            Command::SetComparison(i) => i < COMPARISON_COUNT,
            _ => true,
        }
    }
}

/// The wire text of a command: one ASCII line, CRLF-terminated.
pub open spec fn spec_command_text(c: Command) -> Seq<char> {
    match c {
        Command::StartOrSplit => "startorsplit\r\n"@,
        Command::Reset => "reset\r\n"@,
        Command::SkipSplit => "skipsplit\r\n"@,
        Command::Unsplit => "unsplit\r\n"@,
        Command::Pause => "pause\r\n"@,
        Command::Resume => "resume\r\n"@,
        Command::SetComparison(i) => "setcomparison "@ + spec_comparison_name(i as int) + "\r\n"@,
    }
}

/// Renders a command as the line sent to the server.
pub fn command_text(c: &Command) -> (r: String)
    ensures
        r@ == spec_command_text(*c),
{
    match c {
        Command::StartOrSplit => "startorsplit\r\n".to_owned(),
        Command::Reset => "reset\r\n".to_owned(),
        Command::SkipSplit => "skipsplit\r\n".to_owned(),
        Command::Unsplit => "unsplit\r\n".to_owned(),
        Command::Pause => "pause\r\n".to_owned(),
        Command::Resume => "resume\r\n".to_owned(),
        Command::SetComparison(i) => {
            let mut s = "setcomparison ".to_owned();
            s.append(comparison_name(*i));
            s.append("\r\n");
            s
        },
    }
}

/// The dispatcher's own state: the pause flag and the cyclic position in the
/// enabled comparison list, neither of which the server reports back.
pub struct Dispatcher {
    pub paused: bool,
    pub comparison_index: usize,
    pub enabled: Vec<usize>,
}

impl Dispatcher {
    /// The enabled list is non-empty, the cycle position stays inside it,
    /// and every entry points into the catalog.
    pub open spec fn wf(self) -> bool {
        &&& self.enabled@.len() > 0
        &&& self.enabled@.len() <= usize::MAX
        &&& self.comparison_index < self.enabled@.len()
        &&& forall|j: int| 0 <= j < self.enabled@.len() ==> self.enabled@[j] < COMPARISON_COUNT
    }

    /// A dispatcher that is not paused, starting its cycle at `start`.
    pub fn new(enabled: Vec<usize>, start: usize) -> (r: Self)
        requires
            enabled@.len() > 0,
            start < enabled@.len(),
            forall|j: int| 0 <= j < enabled@.len() ==> enabled@[j] < COMPARISON_COUNT,
        ensures
            r.wf(),
            r == (Dispatcher { paused: false, comparison_index: start, enabled: enabled }),
    {
        let n = enabled.len();
        proof {
            assert(enabled@.len() == n);
        }
        Dispatcher { paused: false, comparison_index: start, enabled }
    }

    /// Turns one activated hotkey into its command, if it has one, updating
    /// the pause flag or the cycle position on the way.
    pub fn dispatch(&mut self, h: Hotkey) -> (r: Option<Command>)
        requires
            old(self).wf(),
        ensures
            final(self).wf(),
            *final(self) == spec_dispatch(*old(self), h).0,
            r == spec_dispatch(*old(self), h).1,
    {
        match h {
            Hotkey::SplitKey => Some(Command::StartOrSplit),
            Hotkey::ResetKey => Some(Command::Reset),
            Hotkey::SkipKey => Some(Command::SkipSplit),
            Hotkey::UndoKey => Some(Command::Unsplit),
            Hotkey::PauseKey => {
                let c = if self.paused {
                    Command::Resume
                } else {
                    Command::Pause
                };
                self.paused = !self.paused;
                Some(c)
            },
            Hotkey::SwitchComparisonNext => {
                let n = self.enabled.len();
                proof {
                    assert(self.comparison_index < n);
                    assert(0 <= (self.comparison_index + 1) % (n as int) < n);
                }
                self.comparison_index = (self.comparison_index + 1) % n;
                Some(Command::SetComparison(self.enabled[self.comparison_index]))
            },
            Hotkey::SwitchComparisonPrevious => {
                if self.comparison_index == 0 {
                    self.comparison_index = self.enabled.len() - 1;
                } else {
                    self.comparison_index = self.comparison_index - 1;
                }
                Some(Command::SetComparison(self.enabled[self.comparison_index]))
            },
            Hotkey::ToggleGlobalHotkeys => None,
        }
    }
}

/// What one dispatch does: the dispatcher afterwards and the command sent,
/// if any. Split, reset, skip and undo map to fixed commands; Pause emits
/// pause or resume by the current flag and flips it; the comparison hotkeys
/// move the cycle position one step with wrap-around and select the entry
/// now at that position; every other hotkey does nothing.
pub open spec fn spec_dispatch(d: Dispatcher, h: Hotkey) -> (Dispatcher, Option<Command>) {
    match h {
        Hotkey::SplitKey => (d, Some(Command::StartOrSplit)),
        Hotkey::ResetKey => (d, Some(Command::Reset)),
        Hotkey::SkipKey => (d, Some(Command::SkipSplit)),
        Hotkey::UndoKey => (d, Some(Command::Unsplit)),
        Hotkey::PauseKey => (
            Dispatcher { paused: !d.paused, comparison_index: d.comparison_index, enabled: d.enabled },
            Some(if d.paused { Command::Resume } else { Command::Pause }),
        ),
        Hotkey::SwitchComparisonNext => {
            let i = ((d.comparison_index + 1) % (d.enabled@.len() as int)) as usize;
            (
                Dispatcher { paused: d.paused, comparison_index: i, enabled: d.enabled },
                Some(Command::SetComparison(d.enabled@[i as int])),
            )
        },
        Hotkey::SwitchComparisonPrevious => {
            let i: usize = if d.comparison_index == 0 {
                (d.enabled@.len() - 1) as usize
            } else {
                (d.comparison_index - 1) as usize
            };
            (
                Dispatcher { paused: d.paused, comparison_index: i, enabled: d.enabled },
                Some(Command::SetComparison(d.enabled@[i as int])),
            )
        },
        Hotkey::ToggleGlobalHotkeys => (d, None),
    }
}

/// The commands produced by a sequence of activation edges, in order:
/// deactivation edges are skipped, activation edges are dispatched one by
/// one against the evolving dispatcher state.
pub open spec fn spec_dispatch_edges(d: Dispatcher, edges: Seq<(Hotkey, bool)>) -> (
    Dispatcher,
    Seq<Command>,
)
    decreases edges.len(),
{
    if edges.len() == 0 {
        (d, Seq::empty())
    } else {
        let h = edges[0].0;
        let activated = edges[0].1;
        if activated {
            let step = spec_dispatch(d, h);
            let rest = spec_dispatch_edges(step.0, edges.skip(1));
            (
                rest.0,
                (match step.1 {
                    Some(c) => seq![c],
                    None => Seq::<Command>::empty(),
                }) + rest.1,
            )
        } else {
            spec_dispatch_edges(d, edges.skip(1))
        }
    }
}

/// Dispatching preserves the dispatcher's well-formedness, and every command
/// it emits is well-formed.
pub proof fn lemma_dispatch_preserves_wf(d: Dispatcher, h: Hotkey)
    requires
        d.wf(),
    ensures
        spec_dispatch(d, h).0.wf(),
        (spec_dispatch(d, h).1 matches Some(c) ==> c.wf()),
{
}

/// Pause toggling: a Pause activation emits pause when the flag is clear and
/// resume when it is set, and flips the flag, so consecutive Pause
/// activations alternate pause, resume, pause, ... from the unpaused start.
pub proof fn lemma_pause_toggles(d: Dispatcher)
    ensures
        spec_dispatch(d, Hotkey::PauseKey).1 == Some(
            if d.paused {
                Command::Resume
            } else {
                Command::Pause
            },
        ),
        spec_dispatch(d, Hotkey::PauseKey).0.paused == !d.paused,
{
}

/// No other hotkey touches the pause flag, so the alternation of pause and
/// resume holds whatever is dispatched in between.
pub proof fn lemma_pause_untouched_by_others(d: Dispatcher, h: Hotkey)
    requires
        h != Hotkey::PauseKey,
    ensures
        spec_dispatch(d, h).0.paused == d.paused,
{
}

/// How many Pause activation edges a sequence holds.
pub open spec fn pause_activations(edges: Seq<(Hotkey, bool)>) -> int
    decreases edges.len(),
{
    if edges.len() == 0 {
        0
    } else {
        (if edges[0] == (Hotkey::PauseKey, true) {
            1int
        } else {
            0int
        }) + pause_activations(edges.skip(1))
    }
}

/// Pause toggling holds over whole event streams: after any sequence of
/// edges the pause flag is the starting flag, flipped once per Pause
/// activation, whatever other hotkeys stand in between — so by
/// `lemma_pause_toggles` the emitted pause and resume commands strictly
/// alternate.
pub proof fn lemma_pause_alternation(d: Dispatcher, edges: Seq<(Hotkey, bool)>)
    ensures
        spec_dispatch_edges(d, edges).0.paused == (if pause_activations(edges) % 2 == 0 {
            d.paused
        } else {
            !d.paused
        }),
    decreases edges.len(),
{
    if edges.len() > 0 {
        let h = edges[0].0;
        if edges[0].1 {
            lemma_pause_alternation(spec_dispatch(d, h).0, edges.skip(1));
        } else {
            lemma_pause_alternation(d, edges.skip(1));
        }
    }
}

/// Comparison cycling wraps: the next-comparison hotkey advances the cycle
/// position by one modulo the enabled list's length, the previous-comparison
/// hotkey retreats it by one wrapping from the head to the tail, and each
/// emits the set-comparison command of the entry now at the position.
pub proof fn lemma_comparison_cycling(d: Dispatcher)
    requires
        d.wf(),
    ensures
        spec_dispatch(d, Hotkey::SwitchComparisonNext).0.comparison_index == (d.comparison_index
            + 1) % (d.enabled@.len() as int),
        spec_dispatch(d, Hotkey::SwitchComparisonNext).1 == Some(
            Command::SetComparison(
                d.enabled@[(d.comparison_index + 1) % (d.enabled@.len() as int)],
            ),
        ),
        d.comparison_index == 0 ==> spec_dispatch(d, Hotkey::SwitchComparisonPrevious).0.comparison_index
            == d.enabled@.len() - 1,
        d.comparison_index > 0 ==> spec_dispatch(d, Hotkey::SwitchComparisonPrevious).0.comparison_index
            == d.comparison_index - 1,
        spec_dispatch(d, Hotkey::SwitchComparisonPrevious).1 == Some(
            Command::SetComparison(
                d.enabled@[spec_dispatch(d, Hotkey::SwitchComparisonPrevious).0.comparison_index as int],
            ),
        ),
{
    let n = d.enabled@.len() as int;
    assert(0 <= (d.comparison_index + 1) % n < n);
}

} // verus!
