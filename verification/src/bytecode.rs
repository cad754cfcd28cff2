//! The engine: a run-loop that drives instruction dispatch.
//!
//! The engine owns one execution state and one instruction sequence and
//! repeatedly dispatches the instruction at the current program counter
//! until a return instruction halts the run, the counter walks off the end
//! of the sequence, or an instruction fails. The whole run is the spec
//! function [`run_spec`]; that every run settles is proved by a
//! lexicographic measure over the loop controller and the counter.

use vstd::prelude::*;

use crate::commands::{step, Instruction, InstrView};
use crate::errors::{ErrorKind, ErrorView, NoCodeError, NoReturnCommandError, RuntimeError};
use crate::simpleloop::counter_dec;
use crate::state::{State, StateView};

verus! {

/// The instruction sequence an engine runs.
pub type CodeType = Vec<Instruction>;

/// The views of the instructions of a sequence.
pub open spec fn code_view(code: Seq<Instruction>) -> Seq<InstrView> {
    code.map_values(|i: Instruction| i@)
}

/// Whether dispatch must stop: the run has halted or the counter points
/// past the end of the sequence.
pub open spec fn at_end(code: Seq<InstrView>, s: StateView) -> bool {
    s.ret || s.command_pointer >= code.len()
}

/// Dispatches up to `fuel` instructions from `s`. The settled outcome of
/// the run — the halted state, or the failure that aborted it — or none
/// when the fuel ran out first.
pub open spec fn run_from(code: Seq<InstrView>, s: StateView, fuel: nat) -> Option<
    Result<StateView, ErrorView>,
>
    decreases fuel,
{
    if s.ret {
        Some(Ok(s))
    } else if s.command_pointer >= code.len() {
        Some(Err(ErrorView { kind: ErrorKind::NoReturnCommand, line: Seq::empty() }))
    } else if fuel == 0 {
        None
    } else {
        match step(code[s.command_pointer as int], s) {
            Ok(s2) => run_from(code, s2, (fuel - 1) as nat),
            Err(e) => Some(Err(e)),
        }
    }
}

/// Whether the run from `s` settles within some finite number of steps.
pub open spec fn terminates(code: Seq<InstrView>, s: StateView) -> bool {
    exists|n: nat| run_from(code, s, n) is Some
}

/// The outcome the run from `s` settles on: the halted state, or the
/// failure that aborted it.
pub open spec fn run_spec(code: Seq<InstrView>, s: StateView) -> Result<StateView, ErrorView>
    recommends
        terminates(code, s),
{
    match run_from(code, s, choose|n: nat| run_from(code, s, n) is Some) {
        Some(out) => out,
        None => Err(ErrorView { kind: ErrorKind::NoCode, line: Seq::empty() }),
    }
}

/// The program result surfaced from a halted state: the stack top, or
/// nothing when the stack is empty.
pub open spec fn final_result(fs: StateView) -> Option<i32> {
    if fs.stack.len() > 0 {
        Some(fs.stack.last())
    } else {
        None
    }
}

/// The state left behind after the result is popped from a halted state.
pub open spec fn final_state(fs: StateView) -> StateView {
    if fs.stack.len() > 0 {
        StateView { stack: fs.stack.drop_last(), ..fs }
    } else {
        fs
    }
}

/// More fuel never changes a settled outcome.
pub proof fn lemma_run_from_monotone(code: Seq<InstrView>, s: StateView, n1: nat, n2: nat)
    requires
        n1 <= n2,
        run_from(code, s, n1) is Some,
    ensures
        run_from(code, s, n2) == run_from(code, s, n1),
    decreases n1,
{
    if !at_end(code, s) {
        match step(code[s.command_pointer as int], s) {
            Ok(s2) => {
                lemma_run_from_monotone(code, s2, (n1 - 1) as nat, (n2 - 1) as nat);
            },
            Err(_) => {},
        }
    }
}

/// Any fuel that settles the run settles it on the one outcome.
pub proof fn lemma_run_from_settles(code: Seq<InstrView>, s: StateView, n: nat)
    requires
        run_from(code, s, n) is Some,
    ensures
        terminates(code, s),
        run_from(code, s, n) == Some(run_spec(code, s)),
{
    assert(terminates(code, s));
    let m = choose|m: nat| run_from(code, s, m) is Some;
    if m <= n {
        lemma_run_from_monotone(code, s, m, n);
    } else {
        lemma_run_from_monotone(code, s, n, m);
    }
}

/// The state reached after exactly `k` successful dispatches from `s`, or
/// none when the run settles or fails within them.
pub open spec fn advance(code: Seq<InstrView>, s: StateView, k: nat) -> Option<StateView>
    decreases k,
{
    if k == 0 {
        Some(s)
    } else if at_end(code, s) {
        None
    } else {
        match step(code[s.command_pointer as int], s) {
            Ok(s2) => advance(code, s2, (k - 1) as nat),
            Err(_) => None,
        }
    }
}

/// One more successful dispatch extends an advance by one step.
pub proof fn lemma_advance_snoc(
    code: Seq<InstrView>,
    s: StateView,
    k: nat,
    s1: StateView,
    s2: StateView,
)
    requires
        advance(code, s, k) == Some(s1),
        !at_end(code, s1),
        step(code[s1.command_pointer as int], s1) == Ok::<StateView, ErrorView>(s2),
    ensures
        advance(code, s, k + 1) == Some(s2),
    decreases k,
{
    if k == 0 {
        assert(s == s1);
        assert(advance(code, s, 1) == advance(code, s2, 0));
        assert(advance(code, s2, 0) == Some(s2));
    } else {
        match step(code[s.command_pointer as int], s) {
            Ok(sm) => {
                lemma_advance_snoc(code, sm, (k - 1) as nat, s1, s2);
                assert(advance(code, s, k + 1) == advance(code, sm, k));
            },
            Err(_) => {
                assert(false);
            },
        }
    }
}

/// Successful dispatches compose: steps to a midpoint followed by steps
/// from it are the combined steps.
pub proof fn lemma_advance_compose(
    code: Seq<InstrView>,
    s: StateView,
    k1: nat,
    s1: StateView,
    k2: nat,
    s2: StateView,
)
    requires
        advance(code, s, k1) == Some(s1),
        advance(code, s1, k2) == Some(s2),
    ensures
        advance(code, s, k1 + k2) == Some(s2),
    decreases k1,
{
    if k1 > 0 {
        match step(code[s.command_pointer as int], s) {
            Ok(sm) => {
                lemma_advance_compose(code, sm, (k1 - 1) as nat, s1, k2, s2);
            },
            Err(_) => {
                assert(false);
            },
        }
    }
}

/// A run is the steps already taken followed by the run from the state
/// they reached.
pub proof fn lemma_advance_run_from(
    code: Seq<InstrView>,
    s: StateView,
    k: nat,
    s1: StateView,
    m: nat,
)
    requires
        advance(code, s, k) == Some(s1),
    ensures
        run_from(code, s, k + m) == run_from(code, s1, m),
    decreases k,
{
    if k > 0 {
        match step(code[s.command_pointer as int], s) {
            Ok(sm) => {
                lemma_advance_run_from(code, sm, (k - 1) as nat, s1, m);
            },
            Err(_) => {
                assert(false);
            },
        }
    }
}

/// Whether a loop is active in the state.
pub open spec fn loop_running(s: StateView) -> bool {
    match s.loop_instance {
        Some(lv) => lv.is_active(),
        None => false,
    }
}

/// The re-entry index of the active loop, zero when none is active.
pub open spec fn loop_reentry(s: StateView) -> nat {
    match s.loop_instance {
        Some(lv) => match lv.start_pointer {
            Some(sp) => sp,
            None => 0,
        },
        None => 0,
    }
}

/// The counter of the active loop, zero when none is active.
pub open spec fn loop_counter(s: StateView) -> i32 {
    match s.loop_instance {
        Some(lv) => match lv.counter {
            Some(c) => c,
            None => 0,
        },
        None => 0,
    }
}

/// How many wrapped countdown steps a counter is away from exactly zero.
pub open spec fn counter_distance(c: i32) -> nat {
    if c >= 1 {
        c as nat
    } else {
        (c + 0x1_0000_0000) as nat
    }
}

/// The smallest index the counter can sit at or return to: the re-entry
/// index of the active loop if it is below the counter, else the counter.
pub open spec fn measure_base(s: StateView) -> nat {
    if loop_running(s) && loop_reentry(s) <= s.command_pointer {
        loop_reentry(s)
    } else {
        s.command_pointer
    }
}

/// Outermost measure component: how far the base can still move right.
pub open spec fn measure_outer(code_len: nat, s: StateView) -> nat {
    if measure_base(s) <= code_len {
        (code_len - measure_base(s)) as nat
    } else {
        0
    }
}

/// Middle measure component: the countdown of the active loop.
pub open spec fn measure_counter(s: StateView) -> nat {
    if loop_running(s) {
        counter_distance(loop_counter(s))
    } else {
        0
    }
}

/// Innermost measure component: how far the counter can still move right.
pub open spec fn measure_inner(code_len: nat, s: StateView) -> nat {
    if s.command_pointer <= code_len {
        (code_len - s.command_pointer) as nat
    } else {
        0
    }
}

/// Every successful dispatch strictly shrinks the measure triple in
/// lexicographic order; this is why every run settles.
proof fn lemma_step_decreases(code: Seq<InstrView>, s: StateView, s2: StateView)
    requires
        !s.ret,
        s.command_pointer < code.len(),
        step(code[s.command_pointer as int], s) == Ok::<StateView, ErrorView>(s2),
    ensures
        ({
            let len = code.len();
            ||| measure_outer(len, s2) < measure_outer(len, s)
            ||| (measure_outer(len, s2) == measure_outer(len, s) && measure_counter(s2)
                < measure_counter(s))
            ||| (measure_outer(len, s2) == measure_outer(len, s) && measure_counter(s2)
                == measure_counter(s) && measure_inner(len, s2) < measure_inner(len, s))
        }),
{
    let i = code[s.command_pointer as int];
    let len = code.len();
    match i {
        InstrView::EndLoop { .. } => {
            match s.loop_instance {
                Some(lv) => {
                    match (lv.start_pointer, lv.counter) {
                        (Some(sp), Some(c)) => {
                            let c2 = counter_dec(c);
                            if c2 == 0 {
                            } else {
                                if sp <= s.command_pointer {
                                    assert(counter_distance(c2) < counter_distance(c));
                                }
                            }
                        },
                        _ => {
                            assert(false);
                        },
                    }
                },
                None => {
                    assert(false);
                },
            }
        },
        _ => {},
    }
}

/// Every run settles: from any state, dispatch reaches a halt or a
/// failure within finitely many steps. The wrapped countdown of the loop
/// counter is what rules a diverging loop out.
pub proof fn lemma_run_settles(code: Seq<InstrView>, s: StateView)
    ensures
        terminates(code, s),
    decreases measure_outer(code.len(), s), measure_counter(s), measure_inner(code.len(), s),
{
    if at_end(code, s) {
        assert(run_from(code, s, 0) is Some);
    } else {
        match step(code[s.command_pointer as int], s) {
            Ok(s2) => {
                lemma_step_decreases(code, s, s2);
                lemma_run_settles(code, s2);
                let n = choose|n: nat| run_from(code, s2, n) is Some;
                assert(run_from(code, s, n + 1) == run_from(code, s2, n));
            },
            Err(_) => {
                assert(run_from(code, s, 1) is Some);
            },
        }
    }
}

/// The engine: exclusive owner of one execution state and one instruction
/// sequence for the duration of a run.
pub struct ByteCode {
    state: State,
    code: CodeType,
}

/// The mathematical content of an engine.
pub ghost struct ByteCodeView {
    pub code: Seq<InstrView>,
    pub state: StateView,
}

impl View for ByteCode {
    type V = ByteCodeView;

    closed spec fn view(&self) -> ByteCodeView {
        ByteCodeView { code: code_view(self.code@), state: self.state@ }
    }
}

impl ByteCode {
    /// The execution state keeps its variable store well formed.
    pub closed spec fn wf(self) -> bool {
        self.state.wf()
    }

    /// An engine over the given state and instruction sequence.
    pub fn new(state: State, code: CodeType) -> (r: ByteCode)
        requires
            state.wf(),
        ensures
            r.wf(),
            r@ == (ByteCodeView { code: code_view(code@), state: state@ }),
    {
        ByteCode { state, code }
    }

    /// Replaces the instruction sequence; the state is kept.
    pub fn set_code(&mut self, code: CodeType)
        requires
            old(self).wf(),
        ensures
            final(self).wf(),
            final(self)@ == (ByteCodeView { code: code_view(code@), state: old(self)@.state }),
    {
        self.code = code;
    }

    /// Dispatches instructions until the run settles. An empty sequence
    /// fails at once with `NoCode`. Otherwise the run ends exactly as
    /// [`run_spec`] says: on a failure that failure is returned; on a halt
    /// the stack top is popped and returned as the program result (an empty
    /// stack is the valid "no result" outcome); a sequence that ran out
    /// without halting is the `NoReturnCommand` failure.
    pub fn run(&mut self) -> (r: Result<Option<i32>, RuntimeError>)
        requires
            old(self).wf(),
        ensures
            final(self).wf(),
            final(self)@.code == old(self)@.code,
            old(self)@.code.len() == 0 ==> (r matches Err(e) && e@ == (ErrorView {
                kind: ErrorKind::NoCode,
                line: Seq::<char>::empty(),
            }) && final(self)@ == old(self)@),
            old(self)@.code.len() != 0 ==> ({
                let code = old(self)@.code;
                let s0 = old(self)@.state;
                &&& terminates(code, s0)
                &&& match run_spec(code, s0) {
                    Ok(fs) => r matches Ok(v) && v == final_result(fs) && final(self)@.state
                        == final_state(fs),
                    Err(ev) => r matches Err(e) && e@ == ev,
                }
            }),
    {
        if self.code.len() == 0 {
            return Err(RuntimeError::from(NoCodeError));
        }
        let ghost code = code_view(self.code@);
        let ghost s0 = self.state@;
        let ghost mut steps: nat = 0;
        while self.state.get_command_pointer() < self.code.len() && !self.state.get_ret_status()
            invariant
                self.wf(),
                code == code_view(self.code@),
                code == old(self)@.code,
                advance(code, s0, steps) == Some(self.state@),
                s0 == old(self)@.state,
            decreases
                    measure_outer(code.len(), self.state@),
                    measure_counter(self.state@),
                    measure_inner(code.len(), self.state@),
        {
            let pc = self.state.get_command_pointer();
            let ghost prev = self.state@;
            let instruction = &self.code[pc];
            proof {
                assert(code[pc as int] == self.code@[pc as int]@);
            }
            let res = instruction.execute(&mut self.state);
            match res {
                Ok(_) => {
                    proof {
                        lemma_advance_snoc(code, s0, steps, prev, self.state@);
                        steps = steps + 1;
                        lemma_step_decreases(code, prev, self.state@);
                    }
                },
                Err(e) => {
                    proof {
                        lemma_advance_run_from(code, s0, steps, prev, 1);
                        lemma_run_from_settles(code, s0, steps + 1);
                    }
                    return Err(e);
                },
            }
        }
        proof {
            lemma_advance_run_from(code, s0, steps, self.state@, 0);
            lemma_run_from_settles(code, s0, steps);
        }
        if !self.state.get_ret_status() {
            return Err(RuntimeError::from(NoReturnCommandError));
        }
        Ok(self.state.pop_from_stack_option())
    }
}

} // verus!
