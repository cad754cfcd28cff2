//! The instruction set: a closed sum of operation kinds.
//!
//! Every variant is known at translation time, so the instructions form one
//! enum dispatched by pattern matching. Each instruction mutates the
//! execution state and advances (or, for a loop end, redirects) the program
//! counter, or fails with a typed error and leaves the run aborted. The
//! whole effect of one dispatch is the spec function [`step`].

use vstd::prelude::*;

use crate::errors::{
    EmptyStackError, ErrorKind, ErrorView, IntegerOverflowError, LoopInitError, NestedLoopsError,
    NoLoopInstanceError, RuntimeError, UnknownVariableLoadingError,
};
use crate::simpleloop::{counter_dec, LoopView};
use crate::state::{State, StateView};

verus! {

/// One instruction, as mathematics: the operation kind, its literal
/// operands, and the source line it carries for diagnostics.
pub ghost enum InstrView {
    LoadValue { value: i32, line: Seq<char> },
    Add { line: Seq<char> },
    Sub { line: Seq<char> },
    Mul { line: Seq<char> },
    Div { line: Seq<char> },
    WriteVariable { variable_name: Seq<char>, line: Seq<char> },
    ReadVariable { variable_name: Seq<char>, line: Seq<char> },
    Return { line: Seq<char> },
    StartLoop { amount_of_repeats: i32, line: Seq<char> },
    EndLoop { line: Seq<char> },
}

/// One instruction, immutable once constructed: the operation kind, its
/// literal operands, and the diagnostic line used in error messages.
#[derive(Debug)]
pub enum Instruction {
    LoadValue { value: i32, line: String },
    Add { line: String },
    Sub { line: String },
    Mul { line: String },
    Div { line: String },
    WriteVariable { variable_name: String, line: String },
    ReadVariable { variable_name: String, line: String },
    Return { line: String },
    StartLoop { amount_of_repeats: i32, line: String },
    EndLoop { line: String },
}

impl View for Instruction {
    type V = InstrView;

    open spec fn view(&self) -> InstrView {
        match self {
            Instruction::LoadValue { value, line } => InstrView::LoadValue {
                value: *value,
                line: line@,
            },
            Instruction::Add { line } => InstrView::Add { line: line@ },
            Instruction::Sub { line } => InstrView::Sub { line: line@ },
            Instruction::Mul { line } => InstrView::Mul { line: line@ },
            Instruction::Div { line } => InstrView::Div { line: line@ },
            Instruction::WriteVariable { variable_name, line } => InstrView::WriteVariable {
                variable_name: variable_name@,
                line: line@,
            },
            Instruction::ReadVariable { variable_name, line } => InstrView::ReadVariable {
                variable_name: variable_name@,
                line: line@,
            },
            Instruction::Return { line } => InstrView::Return { line: line@ },
            Instruction::StartLoop { amount_of_repeats, line } => InstrView::StartLoop {
                amount_of_repeats: *amount_of_repeats,
                line: line@,
            },
            Instruction::EndLoop { line } => InstrView::EndLoop { line: line@ },
        }
    }
}

/// Addition on 32-bit signed values; none when the sum leaves the range.
pub open spec fn checked_add_spec(a: i32, b: i32) -> Option<i32> {
    if a + b > i32::MAX || a + b < i32::MIN {
        None
    } else {
        Some((a + b) as i32)
    }
}

/// Subtraction on 32-bit signed values; none when the difference leaves
/// the range.
pub open spec fn checked_sub_spec(a: i32, b: i32) -> Option<i32> {
    if a - b > i32::MAX || a - b < i32::MIN {
        None
    } else {
        Some((a - b) as i32)
    }
}

/// Multiplication on 32-bit signed values; none when the product leaves
/// the range.
pub open spec fn checked_mul_spec(a: i32, b: i32) -> Option<i32> {
    if a * b > i32::MAX || a * b < i32::MIN {
        None
    } else {
        Some((a * b) as i32)
    }
}

/// The quotient of integer division truncated toward zero.
pub open spec fn truncated_quotient(x: int, d: int) -> int
    recommends
        d != 0,
{
    if x == 0 {
        0
    } else if x > 0 && d > 0 {
        x / d
    } else if x < 0 && d < 0 {
        ((x * -1) / (d * -1))
    } else if x < 0 {
        ((x * -1) / d) * -1
    } else {
        (x / (d * -1)) * -1
    }
}

/// Division truncated toward zero; none for a zero divisor and none when
/// the quotient leaves the range (only the minimum divided by minus one).
pub open spec fn checked_div_spec(a: i32, b: i32) -> Option<i32> {
    if b == 0 {
        None
    } else {
        let q = truncated_quotient(a as int, b as int);
        if q > i32::MAX || q < i32::MIN {
            None
        } else {
            Some(q as i32)
        }
    }
}

/// The diagnostic line an instruction carries.
pub open spec fn instr_line(i: InstrView) -> Seq<char> {
    match i {
        InstrView::LoadValue { line, .. } => line,
        InstrView::Add { line } => line,
        InstrView::Sub { line } => line,
        InstrView::Mul { line } => line,
        InstrView::Div { line } => line,
        InstrView::WriteVariable { line, .. } => line,
        InstrView::ReadVariable { line, .. } => line,
        InstrView::Return { line } => line,
        InstrView::StartLoop { line, .. } => line,
        InstrView::EndLoop { line } => line,
    }
}

/// The value an arithmetic instruction pushes for operands `a` and `b`,
/// or none on overflow or undefined division.
pub open spec fn binop_result(i: InstrView, a: i32, b: i32) -> Option<i32> {
    match i {
        InstrView::Add { .. } => checked_add_spec(a, b),
        InstrView::Sub { .. } => checked_sub_spec(a, b),
        InstrView::Mul { .. } => checked_mul_spec(a, b),
        InstrView::Div { .. } => checked_div_spec(a, b),
        _ => None,
    }
}

/// The effect of an arithmetic instruction: pop `b`, pop `a`, push the
/// result of `a` combined with `b`, advance the counter.
pub open spec fn step_arith(i: InstrView, s: StateView) -> Result<StateView, ErrorView> {
    if s.stack.len() < 2 {
        Err(ErrorView { kind: ErrorKind::EmptyStack, line: instr_line(i) })
    } else {
        let b = s.stack.last();
        let a = s.stack[s.stack.len() - 2];
        match binop_result(i, a, b) {
            Some(v) => Ok(StateView {
                stack: s.stack.drop_last().drop_last().push(v),
                command_pointer: s.command_pointer + 1,
                ..s
            }),
            None => Err(ErrorView { kind: ErrorKind::IntegerOverflow, line: instr_line(i) }),
        }
    }
}

/// The whole effect of dispatching one instruction on one state: the next
/// state, or the typed failure that aborts the run.
pub open spec fn step(i: InstrView, s: StateView) -> Result<StateView, ErrorView> {
    match i {
        InstrView::LoadValue { value, line } => Ok(StateView {
            stack: s.stack.push(value),
            command_pointer: s.command_pointer + 1,
            ..s
        }),
        InstrView::Add { .. } => step_arith(i, s),
        InstrView::Sub { .. } => step_arith(i, s),
        InstrView::Mul { .. } => step_arith(i, s),
        InstrView::Div { .. } => step_arith(i, s),
        InstrView::WriteVariable { variable_name, line } => {
            if s.stack.len() == 0 {
                Err(ErrorView { kind: ErrorKind::EmptyStack, line })
            } else {
                Ok(StateView {
                    stack: s.stack.drop_last(),
                    memory: s.memory.insert(variable_name, s.stack.last()),
                    command_pointer: s.command_pointer + 1,
                    ..s
                })
            }
        },
        InstrView::ReadVariable { variable_name, line } => {
            if s.memory.dom().contains(variable_name) {
                Ok(StateView {
                    stack: s.stack.push(s.memory[variable_name]),
                    command_pointer: s.command_pointer + 1,
                    ..s
                })
            } else {
                Err(ErrorView { kind: ErrorKind::UnknownVariableLoading, line })
            }
        },
        InstrView::Return { .. } => Ok(StateView {
            ret: true,
            command_pointer: s.command_pointer + 1,
            ..s
        }),
        InstrView::StartLoop { amount_of_repeats, line } => match s.loop_instance {
            None => Err(ErrorView { kind: ErrorKind::NoLoopInstance, line: Seq::empty() }),
            Some(lv) => {
                if lv.is_active() {
                    Err(ErrorView { kind: ErrorKind::NestedLoops, line })
                } else {
                    Ok(StateView {
                        loop_instance: Some(LoopView {
                            start_pointer: Some(s.command_pointer + 1),
                            counter: Some(amount_of_repeats),
                        }),
                        command_pointer: s.command_pointer + 1,
                        ..s
                    })
                }
            },
        },
        InstrView::EndLoop { line } => match s.loop_instance {
            None => Err(ErrorView { kind: ErrorKind::LoopInit, line }),
            Some(lv) => match (lv.start_pointer, lv.counter) {
                (Some(sp), Some(c)) => {
                    let c2 = counter_dec(c);
                    if c2 == 0 {
                        Ok(StateView {
                            loop_instance: Some(LoopView { start_pointer: None, counter: None }),
                            command_pointer: s.command_pointer + 1,
                            ..s
                        })
                    } else {
                        Ok(StateView {
                            loop_instance: Some(LoopView {
                                start_pointer: Some(sp),
                                counter: Some(c2),
                            }),
                            command_pointer: sp,
                            ..s
                        })
                    }
                },
                _ => Err(ErrorView { kind: ErrorKind::LoopInit, line }),
            },
        },
    }
}

/// The state an instruction leaves behind when it fails. Operand pops
/// happen before any other mutation, so an arithmetic instruction that
/// failed reading an operand has consumed the pops that already succeeded
/// (both, when the failure was overflow), and no failure touches anything
/// beyond those pops: the store, the counter, the halted flag and the
/// loop controller all keep their values.
pub open spec fn failed_state(i: InstrView, s: StateView) -> StateView {
    match i {
        InstrView::Add { .. } => failed_arith_state(s),
        InstrView::Sub { .. } => failed_arith_state(s),
        InstrView::Mul { .. } => failed_arith_state(s),
        InstrView::Div { .. } => failed_arith_state(s),
        _ => s,
    }
}

/// The state a failed arithmetic instruction leaves behind: with no
/// operands nothing was consumed, with one the failing second pop had
/// already consumed it, and on overflow both operands were popped.
pub open spec fn failed_arith_state(s: StateView) -> StateView {
    if s.stack.len() == 0 {
        s
    } else if s.stack.len() == 1 {
        StateView { stack: s.stack.drop_last(), ..s }
    } else {
        StateView { stack: s.stack.drop_last().drop_last(), ..s }
    }
}

impl Instruction {
    /// Dispatches this instruction on the given state. On success the state
    /// changes exactly as [`step`] says and the counter has advanced or
    /// been redirected; on failure the error is exactly the one [`step`]
    /// names, the run is aborted, and the state is exactly
    /// [`failed_state`]: the pops already consumed are gone and nothing
    /// else has changed.
    pub fn execute(&self, state: &mut State) -> (r: Result<(), RuntimeError>)
        requires
            old(state).wf(),
            old(state)@.command_pointer < usize::MAX,
        ensures
            final(state).wf(),
            match step(self@, old(state)@) {
                Ok(sv) => r is Ok && final(state)@ == sv,
                Err(ev) => r matches Err(e) && e@ == ev && final(state)@ == failed_state(
                    self@,
                    old(state)@,
                ),
            },
    {
        match self {
            Instruction::LoadValue { value, .. } => {
                state.push_to_stack(*value);
                state.inc_command_pointer();
                Ok(())
            },
            Instruction::Add { line } => {
                let second = match state.pop_from_stack(line.as_str()) {
                    Ok(v) => v,
                    Err(e) => {
                        return Err(RuntimeError::from(e));
                    },
                };
                let first = match state.pop_from_stack(line.as_str()) {
                    Ok(v) => v,
                    Err(e) => {
                        return Err(RuntimeError::from(e));
                    },
                };
                let result = match first.checked_add(second) {
                    Some(v) => v,
                    None => {
                        return Err(RuntimeError::from(IntegerOverflowError::new(line.as_str())));
                    },
                };
                state.push_to_stack(result);
                state.inc_command_pointer();
                Ok(())
            },
            Instruction::Sub { line } => {
                let second = match state.pop_from_stack(line.as_str()) {
                    Ok(v) => v,
                    Err(e) => {
                        return Err(RuntimeError::from(e));
                    },
                };
                let first = match state.pop_from_stack(line.as_str()) {
                    Ok(v) => v,
                    Err(e) => {
                        return Err(RuntimeError::from(e));
                    },
                };
                let result = match first.checked_sub(second) {
                    Some(v) => v,
                    None => {
                        return Err(RuntimeError::from(IntegerOverflowError::new(line.as_str())));
                    },
                };
                state.push_to_stack(result);
                state.inc_command_pointer();
                Ok(())
            },
            Instruction::Mul { line } => {
                let second = match state.pop_from_stack(line.as_str()) {
                    Ok(v) => v,
                    Err(e) => {
                        return Err(RuntimeError::from(e));
                    },
                };
                let first = match state.pop_from_stack(line.as_str()) {
                    Ok(v) => v,
                    Err(e) => {
                        return Err(RuntimeError::from(e));
                    },
                };
                let result = match first.checked_mul(second) {
                    Some(v) => v,
                    None => {
                        return Err(RuntimeError::from(IntegerOverflowError::new(line.as_str())));
                    },
                };
                state.push_to_stack(result);
                state.inc_command_pointer();
                Ok(())
            },
            Instruction::Div { line } => {
                let second = match state.pop_from_stack(line.as_str()) {
                    Ok(v) => v,
                    Err(e) => {
                        return Err(RuntimeError::from(e));
                    },
                };
                let first = match state.pop_from_stack(line.as_str()) {
                    Ok(v) => v,
                    Err(e) => {
                        return Err(RuntimeError::from(e));
                    },
                };
                let result = match first.checked_div(second) {
                    Some(v) => v,
                    None => {
                        return Err(RuntimeError::from(IntegerOverflowError::new(line.as_str())));
                    },
                };
                state.push_to_stack(result);
                state.inc_command_pointer();
                Ok(())
            },
            Instruction::WriteVariable { variable_name, line } => {
                let value = match state.pop_from_stack(line.as_str()) {
                    Ok(v) => v,
                    Err(e) => {
                        return Err(RuntimeError::from(e));
                    },
                };
                state.memory_insert(variable_name.clone(), value);
                state.inc_command_pointer();
                Ok(())
            },
            Instruction::ReadVariable { variable_name, line } => {
                let value = match state.memory_get(variable_name, line.as_str()) {
                    Ok(v) => v,
                    Err(e) => {
                        return Err(RuntimeError::from(e));
                    },
                };
                state.push_to_stack(value);
                state.inc_command_pointer();
                Ok(())
            },
            Instruction::Return { .. } => {
                state.set_ret_status(true);
                state.inc_command_pointer();
                Ok(())
            },
            Instruction::StartLoop { amount_of_repeats, line } => {
                let pointer = state.get_command_pointer();
                let repeats = *amount_of_repeats;
                let simpleloop_slot = state.get_loop();
                match simpleloop_slot {
                    None => Err(RuntimeError::from(NoLoopInstanceError)),
                    Some(simpleloop) => {
                        if simpleloop.is_active() {
                            Err(RuntimeError::from(NestedLoopsError::new(line.as_str())))
                        } else {
                            simpleloop.activate(pointer + 1, repeats);
                            state.inc_command_pointer();
                            Ok(())
                        }
                    },
                }
            },
            Instruction::EndLoop { line } => {
                let simpleloop_slot = state.get_loop();
                match simpleloop_slot {
                    None => Err(RuntimeError::from(LoopInitError::new(line.as_str()))),
                    Some(simpleloop) => {
                        if !simpleloop.is_active() {
                            return Err(RuntimeError::from(LoopInitError::new(line.as_str())));
                        }
                        let start_pointer = simpleloop.get_start_pointer().unwrap();
                        simpleloop.dec_counter();
                        if simpleloop.is_counter_eq_zero() {
                            simpleloop.desactivate();
                            state.inc_command_pointer();
                        } else {
                            state.set_command_pointer(start_pointer);
                        }
                        Ok(())
                    },
                }
            },
        }
    }
}

} // verus!
