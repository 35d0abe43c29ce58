//! Two sample units: a counter driven by text commands, and a cell that keeps
//! the largest integer it has seen.
use vstd::prelude::*;

use crate::effect::{effect_views, ConsiderResult, Effect, EffectView};
use crate::engine::{Action, Consider};
use crate::gadget::Gadget;
use crate::text::{format_i32, int_text, same_text};

verus! {

/// A unit that keeps the largest value it has received.
pub struct MaxCell {
    value: i32,
    outbox: Vec<Effect>,
}

/// The value a cell holding `value` keeps after receiving `data`.
pub open spec fn max_next(value: i32, data: i32) -> i32 {
    if data > value {
        data
    } else {
        value
    }
}

/// The effect a cell holding `value` emits on receiving `data`.
pub open spec fn max_effect(value: i32, data: i32) -> EffectView {
    if data > value {
        EffectView::Changed(int_text(data as int))
    } else {
        EffectView::Noop
    }
}

impl MaxCell {
    pub fn new(initial: i32) -> (r: Self)
        ensures
            r.state() == initial,
            r.delivered() == Seq::<EffectView>::empty(),
    {
        MaxCell { value: initial, outbox: Vec::new() }
    }

    /// The effects delivered so far, oldest first.
    pub fn emitted(&self) -> (r: &Vec<Effect>)
        ensures
            effect_views(r@) == self.delivered(),
    {
        &self.outbox
    }
}

impl Gadget for MaxCell {
    type State = i32;

    type Incoming = i32;

    closed spec fn state(&self) -> i32 {
        self.value
    }

    closed spec fn delivered(&self) -> Seq<EffectView> {
        effect_views(self.outbox@)
    }

    closed spec fn updated(&self, state: i32) -> Self {
        MaxCell { value: state, ..*self }
    }

    open spec fn receives(&self, data: i32, after: Self) -> bool {
        &&& after.state() == max_next(self.state(), data)
        &&& after.delivered() == self.delivered().push(max_effect(self.state(), data))
    }

    open spec fn emits(&self, effect: EffectView, after: Self) -> bool {
        &&& after.state() == self.state()
        &&& after.delivered() == self.delivered().push(effect)
    }

    proof fn lemma_updated(&self, state: i32) {
    }

    fn current(&self) -> (r: i32) {
        self.value
    }

    fn update(&mut self, state: i32) {
        self.value = state;
    }

    fn receive(&mut self, data: i32) {
        if data > self.value {
            self.value = data;
            self.emit(Effect::Changed(format_i32(data)));
        } else {
            self.emit(Effect::Noop);
        }
    }

    fn emit(&mut self, effect: Effect) {
        let ghost before = self.outbox@;
        self.outbox.push(effect);
        assert(effect_views(self.outbox@) =~= effect_views(before).push(effect@));
    }
}

/// The commands a counter reacts to.
pub enum CounterCommand {
    Increment,
    Decrement,
    Reset,
    Other,
}

/// The command that the text `cmd` stands for.
pub open spec fn counter_command(cmd: Seq<char>) -> CounterCommand {
    if cmd == "increment"@ {
        CounterCommand::Increment
    } else if cmd == "decrement"@ {
        CounterCommand::Decrement
    } else if cmd == "reset"@ {
        CounterCommand::Reset
    } else {
        CounterCommand::Other
    }
}

/// The count after `cmd`; it wraps around at the ends of the `i32` range.
pub open spec fn counter_next(count: i32, cmd: Seq<char>) -> i32 {
    match counter_command(cmd) {
        CounterCommand::Increment => if count == i32::MAX {
            i32::MIN
        } else {
            (count + 1) as i32
        },
        CounterCommand::Decrement => if count == i32::MIN {
            i32::MAX
        } else {
            (count - 1) as i32
        },
        CounterCommand::Reset => 0,
        CounterCommand::Other => count,
    }
}

/// The effect a counter at `count` emits on `cmd`.
pub open spec fn counter_effect(count: i32, cmd: Seq<char>) -> EffectView {
    match counter_command(cmd) {
        CounterCommand::Other => EffectView::Noop,
        _ => EffectView::Changed(int_text(counter_next(count, cmd) as int)),
    }
}

/// A unit that counts `increment` and `decrement` commands and goes back to
/// zero on `reset`.
pub struct Counter {
    count: i32,
    outbox: Vec<Effect>,
}

impl Counter {
    pub fn new() -> (r: Self)
        ensures
            r.state() == 0,
            r.delivered() == Seq::<EffectView>::empty(),
    {
        Counter { count: 0, outbox: Vec::new() }
    }

    /// The effects delivered so far, oldest first.
    pub fn emitted(&self) -> (r: &Vec<Effect>)
        ensures
            effect_views(r@) == self.delivered(),
    {
        &self.outbox
    }
}

impl Gadget for Counter {
    type State = i32;

    type Incoming = String;

    closed spec fn state(&self) -> i32 {
        self.count
    }

    closed spec fn delivered(&self) -> Seq<EffectView> {
        effect_views(self.outbox@)
    }

    closed spec fn updated(&self, state: i32) -> Self {
        Counter { count: state, ..*self }
    }

    open spec fn receives(&self, data: String, after: Self) -> bool {
        &&& after.state() == counter_next(self.state(), data@)
        &&& after.delivered() == self.delivered().push(counter_effect(self.state(), data@))
    }

    open spec fn emits(&self, effect: EffectView, after: Self) -> bool {
        &&& after.state() == self.state()
        &&& after.delivered() == self.delivered().push(effect)
    }

    proof fn lemma_updated(&self, state: i32) {
    }

    fn current(&self) -> (r: i32) {
        self.count
    }

    fn update(&mut self, state: i32) {
        self.count = state;
    }

    fn receive(&mut self, data: String) {
        proof {
            reveal_strlit("increment");
            reveal_strlit("decrement");
            reveal_strlit("reset");
        }
        if same_text(data.as_str(), "increment") {
            self.count = if self.count == i32::MAX {
                i32::MIN
            } else {
                self.count + 1
            };
            self.emit(Effect::Changed(format_i32(self.count)));
        } else if same_text(data.as_str(), "decrement") {
            self.count = if self.count == i32::MIN {
                i32::MAX
            } else {
                self.count - 1
            };
            self.emit(Effect::Changed(format_i32(self.count)));
        } else if same_text(data.as_str(), "reset") {
            self.count = 0;
            self.emit(Effect::Changed(format_i32(self.count)));
        } else {
            self.emit(Effect::Noop);
        }
    }

    fn emit(&mut self, effect: Effect) {
        let ghost before = self.outbox@;
        self.outbox.push(effect);
        assert(effect_views(self.outbox@) =~= effect_views(before).push(effect@));
    }
}


/// The value of a cell that starts at `init` and receives `inputs` in turn.
pub open spec fn max_run(init: i32, inputs: Seq<i32>) -> i32
    decreases inputs.len(),
{
    if inputs.len() == 0 {
        init
    } else {
        max_next(max_run(init, inputs.drop_last()), inputs.last())
    }
}

/// After any run of inputs a cell holds the largest of its initial value and
/// all the values it received.
pub proof fn lemma_max_run(init: i32, inputs: Seq<i32>)
    ensures
        max_run(init, inputs) >= init,
        forall|i: int| 0 <= i < inputs.len() ==> inputs[i] <= max_run(init, inputs),
        max_run(init, inputs) == init || exists|i: int|
            0 <= i < inputs.len() && inputs[i] == max_run(init, inputs),
    decreases inputs.len(),
{
    if inputs.len() > 0 {
        let prev = inputs.drop_last();
        lemma_max_run(init, prev);
        assert forall|i: int| 0 <= i < inputs.len() implies inputs[i] <= max_run(init, inputs) by {
            if i < inputs.len() - 1 {
                assert(inputs[i] == prev[i]);
            }
        }
        if max_run(init, inputs) != init {
            if max_run(init, inputs) == inputs.last() {
                assert(inputs[inputs.len() - 1] == max_run(init, inputs));
            } else {
                let j = choose|j: int| 0 <= j < prev.len() && prev[j] == max_run(init, prev);
                assert(inputs[j] == max_run(init, inputs));
            }
        }
    }
}

/// The count of a counter that starts at `init` and receives `cmds` in turn.
pub open spec fn counter_run(init: i32, cmds: Seq<Seq<char>>) -> i32
    decreases cmds.len(),
{
    if cmds.len() == 0 {
        init
    } else {
        counter_next(counter_run(init, cmds.drop_last()), cmds.last())
    }
}

/// The sum of +1 for each `increment` and -1 for each `decrement` after the
/// last `reset` in `cmds` (or from the start, if there is none).
pub open spec fn net_since_reset(cmds: Seq<Seq<char>>) -> int
    decreases cmds.len(),
{
    if cmds.len() == 0 {
        0
    } else {
        let prev = net_since_reset(cmds.drop_last());
        match counter_command(cmds.last()) {
            CounterCommand::Increment => prev + 1,
            CounterCommand::Decrement => prev - 1,
            CounterCommand::Reset => 0,
            CounterCommand::Other => prev,
        }
    }
}

/// A fresh counter holds the net sum of the commands since the last reset,
/// while that sum stays within the `i32` range along the way.
pub proof fn lemma_counter_run(cmds: Seq<Seq<char>>)
    requires
        forall|k: int|
            0 <= k <= cmds.len() ==> i32::MIN <= #[trigger] net_since_reset(cmds.take(k))
                <= i32::MAX,
    ensures
        counter_run(0, cmds) == net_since_reset(cmds),
    decreases cmds.len(),
{
    if cmds.len() > 0 {
        let prev = cmds.drop_last();
        assert forall|k: int| 0 <= k <= prev.len() implies i32::MIN <= #[trigger] net_since_reset(
            prev.take(k),
        ) <= i32::MAX by {
            assert(prev.take(k) =~= cmds.take(k));
        }
        lemma_counter_run(prev);
        assert(cmds.take(cmds.len() as int) =~= cmds);
        assert(cmds.take(prev.len() as int) =~= prev);
    }
}


/// The decision step of a counter built on the engine: a recognized command
/// names the action of the same name; anything else decides nothing.
pub struct CounterRules;

impl Consider<i32, String> for CounterRules {
    open spec fn decide(&self, state: i32, data: String) -> Option<Seq<char>> {
        match counter_command(data@) {
            CounterCommand::Other => None,
            _ => Some(data@),
        }
    }

    fn consider(&self, state: &i32, data: &String) -> (r: ConsiderResult) {
        proof {
            reveal_strlit("increment");
            reveal_strlit("decrement");
            reveal_strlit("reset");
        }
        if same_text(data.as_str(), "increment") || same_text(data.as_str(), "decrement")
            || same_text(data.as_str(), "reset") {
            ConsiderResult::Action(data.clone())
        } else {
            ConsiderResult::Nothing
        }
    }
}

/// The actions of a counter built on the engine.
pub enum CounterStep {
    Increment,
    Decrement,
    Reset,
}

/// The command text that `step` carries out.
pub open spec fn step_command(step: CounterStep) -> Seq<char> {
    match step {
        CounterStep::Increment => "increment"@,
        CounterStep::Decrement => "decrement"@,
        CounterStep::Reset => "reset"@,
    }
}

impl Action<i32, String> for CounterStep {
    open spec fn next(&self, state: i32, data: String) -> i32 {
        counter_next(state, step_command(*self))
    }

    open spec fn outcome(&self, state: i32, data: String) -> EffectView {
        EffectView::Changed(int_text(counter_next(state, step_command(*self)) as int))
    }

    fn act(&self, state: &mut i32, data: &String) -> (e: Effect) {
        proof {
            reveal_strlit("increment");
            reveal_strlit("decrement");
            reveal_strlit("reset");
        }
        assert("decrement"@[0] != "increment"@[0]);
        assert("reset"@.len() != "increment"@.len());
        assert("reset"@.len() != "decrement"@.len());
        let v = *state;
        *state = match self {
            CounterStep::Increment => if v == i32::MAX {
                i32::MIN
            } else {
                v + 1
            },
            CounterStep::Decrement => if v == i32::MIN {
                i32::MAX
            } else {
                v - 1
            },
            CounterStep::Reset => 0,
        };
        Effect::Changed(format_i32(*state))
    }
}

} // verus!
