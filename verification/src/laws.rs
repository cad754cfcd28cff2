//! General laws of the machine, stated and proved once for all inputs.
//!
//! Each law is a public proof function: its parameters are the inputs the
//! law speaks about, its `requires` only what the law assumes, and its
//! `ensures` the law itself, over the spec functions the engine's own
//! contracts use.

use vstd::prelude::*;

use crate::bytecode::{
    advance, at_end, final_result, lemma_advance_compose, lemma_run_from_settles, run_from,
    run_spec, terminates,
};
use crate::commands::{step, truncated_quotient, InstrView};
use crate::errors::{ErrorKind, ErrorView};
use crate::simpleloop::LoopView;
use crate::state::StateView;

verus! {

/// The state with the two topmost stack values exchanged.
pub open spec fn swap_top(s: StateView) -> StateView
    recommends
        s.stack.len() >= 2,
{
    StateView {
        stack: s.stack.update(s.stack.len() - 1, s.stack[s.stack.len() - 2]).update(
            s.stack.len() - 2,
            s.stack.last(),
        ),
        ..s
    }
}

/// Addition is commutative: exchanging the two operands changes nothing
/// about the step, neither the state it yields nor the failure it raises.
pub proof fn lemma_add_commutative(line: Seq<char>, s: StateView)
    requires
        s.stack.len() >= 2,
    ensures
        step(InstrView::Add { line }, s) == step(InstrView::Add { line }, swap_top(s)),
{
    let t = swap_top(s);
    assert(t.stack.last() == s.stack[s.stack.len() - 2]);
    assert(t.stack[t.stack.len() - 2] == s.stack.last());
    assert(t.stack.drop_last().drop_last() =~= s.stack.drop_last().drop_last());
}

/// Multiplication is commutative in the same sense.
pub proof fn lemma_mul_commutative(line: Seq<char>, s: StateView)
    requires
        s.stack.len() >= 2,
    ensures
        step(InstrView::Mul { line }, s) == step(InstrView::Mul { line }, swap_top(s)),
{
    let t = swap_top(s);
    assert(t.stack.last() == s.stack[s.stack.len() - 2]);
    assert(t.stack[t.stack.len() - 2] == s.stack.last());
    assert(t.stack.drop_last().drop_last() =~= s.stack.drop_last().drop_last());
}

/// Subtraction is anti-commutative: when neither difference overflows,
/// exchanging the operands negates the pushed result.
pub proof fn lemma_sub_anti_commutative(line: Seq<char>, s: StateView)
    requires
        s.stack.len() >= 2,
        -0x7fff_ffff <= s.stack[s.stack.len() - 2] - s.stack.last() <= 0x7fff_ffff,
    ensures
        ({
            let r1 = step(InstrView::Sub { line }, s);
            let r2 = step(InstrView::Sub { line }, swap_top(s));
            &&& r1 matches Ok(f1) && (r2 matches Ok(f2) && f1.stack.last() + f2.stack.last() == 0)
        }),
{
    let t = swap_top(s);
    assert(t.stack.last() == s.stack[s.stack.len() - 2]);
    assert(t.stack[t.stack.len() - 2] == s.stack.last());
}

/// Division truncates toward zero: the magnitude of the quotient is the
/// magnitude of the dividend divided by the magnitude of the divisor, and
/// the quotient is negative exactly when the signs differ (and the
/// quotient is not zero).
pub proof fn lemma_div_truncates(a: int, b: int)
    requires
        b != 0,
    ensures
        b > 0 && a >= 0 ==> truncated_quotient(a, b) == a / b,
        truncated_quotient(a, b) == (if (a < 0) == (b < 0) {
            abs_of(a) / abs_of(b)
        } else {
            -(abs_of(a) / abs_of(b))
        }),
{
    if a == 0 {
        assert(0int / abs_of(b) == 0) by (nonlinear_arith)
            requires
                abs_of(b) >= 1,
        ;
    }
}

/// The magnitude of an integer.
pub open spec fn abs_of(x: int) -> int {
    if x >= 0 {
        x
    } else {
        -x
    }
}

/// With a nonzero divisor, and short of the one quotient the range cannot
/// hold (the minimum divided by minus one), a division step succeeds and
/// pushes the quotient truncated toward zero.
pub proof fn lemma_div_defined(line: Seq<char>, s: StateView)
    requires
        s.stack.len() >= 2,
        s.stack.last() != 0,
        !(s.stack[s.stack.len() - 2] == i32::MIN && s.stack.last() == -1int),
    ensures
        ({
            let a = s.stack[s.stack.len() - 2] as int;
            let b = s.stack.last() as int;
            step(InstrView::Div { line }, s) matches Ok(f) && f.stack.len() > 0
                && f.stack.last() == truncated_quotient(a, b)
        }),
{
    let a = s.stack[s.stack.len() - 2] as int;
    let b = s.stack.last() as int;
    let am = abs_of(a);
    let bm = abs_of(b);
    vstd::arithmetic::div_mod::lemma_div_pos_is_pos(am, bm);
    vstd::arithmetic::div_mod::lemma_div_nonincreasing(am, bm);
    if bm == 1 {
        vstd::arithmetic::div_mod::lemma_div_basics(am);
    } else {
        vstd::arithmetic::div_mod::lemma_div_is_ordered(am, 0x8000_0000, bm);
        vstd::arithmetic::div_mod::lemma_div_is_ordered_by_denominator(0x8000_0000, 2, bm);
    }
    lemma_div_truncates(a, b);
}

/// Writing a variable and then reading it back yields the value written.
pub proof fn lemma_variable_round_trip(
    name: Seq<char>,
    write_line: Seq<char>,
    read_line: Seq<char>,
    s: StateView,
)
    requires
        s.stack.len() > 0,
    ensures
        ({
            let w = step(InstrView::WriteVariable { variable_name: name, line: write_line }, s);
            w matches Ok(s1) && ({
                let r = step(InstrView::ReadVariable { variable_name: name, line: read_line }, s1);
                r matches Ok(s2) && s2.stack.len() > 0 && s2.stack.last() == s.stack.last()
            })
        }),
{
}

/// Reading a name that was never written fails with `UnknownVariableLoading`.
pub proof fn lemma_read_unset_fails(name: Seq<char>, line: Seq<char>, s: StateView)
    requires
        !s.memory.dom().contains(name),
    ensures
        step(InstrView::ReadVariable { variable_name: name, line }, s) == Err::<
            StateView,
            ErrorView,
        >(ErrorView { kind: ErrorKind::UnknownVariableLoading, line }),
{
}

/// A second loop activation before the first deactivates fails with
/// `NestedLoops`, whatever count it asks for.
pub proof fn lemma_nested_loop_rejected(count: i32, line: Seq<char>, s: StateView, lv: LoopView)
    requires
        s.loop_instance == Some(lv),
        lv.is_active(),
    ensures
        step(InstrView::StartLoop { amount_of_repeats: count, line }, s) == Err::<
            StateView,
            ErrorView,
        >(ErrorView { kind: ErrorKind::NestedLoops, line }),
{
}

/// A loop end with no active loop to match it fails with `LoopInit`,
/// whether the controller is absent, empty, or only half set.
pub proof fn lemma_end_loop_unmatched_fails(line: Seq<char>, s: StateView)
    requires
        match s.loop_instance {
            Some(lv) => !lv.is_active(),
            None => true,
        },
    ensures
        step(InstrView::EndLoop { line }, s) == Err::<StateView, ErrorView>(
            ErrorView { kind: ErrorKind::LoopInit, line },
        ),
{
}

/// A program with no return instruction never halts a run that started
/// unhalted: no amount of fuel settles it on a success.
pub proof fn lemma_no_return_never_succeeds(code: Seq<InstrView>, s: StateView, n: nat)
    requires
        !s.ret,
        forall|j: int| 0 <= j < code.len() ==> !(#[trigger] code[j] matches InstrView::Return { .. }),
    ensures
        !(run_from(code, s, n) matches Some(Ok(_))),
    decreases n,
{
    if !at_end(code, s) && n > 0 {
        match step(code[s.command_pointer as int], s) {
            Ok(s2) => {
                assert(!s2.ret);
                lemma_no_return_never_succeeds(code, s2, (n - 1) as nat);
            },
            Err(_) => {},
        }
    }
}

/// Whenever a run of a program with no return instruction settles, it
/// settles on a failure.
pub proof fn lemma_no_return_fails(code: Seq<InstrView>, s: StateView)
    requires
        !s.ret,
        forall|j: int| 0 <= j < code.len() ==> !(#[trigger] code[j] matches InstrView::Return { .. }),
        terminates(code, s),
    ensures
        run_spec(code, s) is Err,
{
    let n = choose|n: nat| run_from(code, s, n) is Some;
    lemma_run_from_settles(code, s, n);
    lemma_no_return_never_succeeds(code, s, n);
}

/// Arithmetic on a stack with fewer than two operands fails with
/// `EmptyStack`.
pub proof fn lemma_arith_needs_two_operands(i: InstrView, s: StateView)
    requires
        s.stack.len() < 2,
        i matches InstrView::Add { .. } || i matches InstrView::Sub { .. } || i
            matches InstrView::Mul { .. } || i matches InstrView::Div { .. },
    ensures
        step(i, s) == Err::<StateView, ErrorView>(
            ErrorView { kind: ErrorKind::EmptyStack, line: crate::commands::instr_line(i) },
        ),
{
}

/// An addition whose exact sum leaves the 32-bit signed range fails with
/// `IntegerOverflow`.
pub proof fn lemma_add_overflow(line: Seq<char>, s: StateView)
    requires
        s.stack.len() >= 2,
        s.stack[s.stack.len() - 2] + s.stack.last() > i32::MAX || s.stack[s.stack.len() - 2]
            + s.stack.last() < i32::MIN,
    ensures
        step(InstrView::Add { line }, s) == Err::<StateView, ErrorView>(
            ErrorView { kind: ErrorKind::IntegerOverflow, line },
        ),
{
}

/// On an engine with no loop controller a loop start fails with
/// `NoLoopInstance` (and a loop end, having no active loop to match,
/// with `LoopInit`).
pub proof fn lemma_loop_without_support_fails(count: i32, line: Seq<char>, s: StateView)
    requires
        s.loop_instance is None,
    ensures
        step(InstrView::StartLoop { amount_of_repeats: count, line }, s) == Err::<
            StateView,
            ErrorView,
        >(ErrorView { kind: ErrorKind::NoLoopInstance, line: Seq::<char>::empty() }),
        step(InstrView::EndLoop { line }, s) == Err::<StateView, ErrorView>(
            ErrorView { kind: ErrorKind::LoopInit, line },
        ),
{
}

/// From position `j`, the remaining loads and the final return halt the
/// run with the remaining values pushed in order.
proof fn lemma_loads_run(code: Seq<InstrView>, s: StateView, values: Seq<i32>, j: int)
    requires
        !s.ret,
        code.len() == values.len() + 1,
        forall|k: int|
            0 <= k < values.len() ==> (#[trigger] code[k] matches InstrView::LoadValue {
                value,
                ..
            } && value == values[k]),
        code[values.len() as int] matches InstrView::Return { .. },
        0 <= j <= values.len(),
        s.command_pointer == j,
    ensures
        run_from(code, s, (values.len() - j + 1) as nat) == Some(Ok::<StateView, ErrorView>(
            StateView {
                stack: s.stack + values.skip(j),
                command_pointer: code.len(),
                ret: true,
                ..s
            },
        )),
    decreases values.len() - j,
{
    let fuel = (values.len() - j + 1) as nat;
    if j == values.len() {
        let s2 = StateView { ret: true, command_pointer: s.command_pointer + 1, ..s };
        assert(step(code[j], s) == Ok::<StateView, ErrorView>(s2));
        assert(run_from(code, s, fuel) == run_from(code, s2, (fuel - 1) as nat));
        assert(run_from(code, s2, (fuel - 1) as nat) == Some(Ok::<StateView, ErrorView>(s2)));
        assert(s.stack + values.skip(j) =~= s.stack);
    } else {
        assert(code[j] matches InstrView::LoadValue { value, .. } && value == values[j]);
        let s2 = StateView { stack: s.stack.push(values[j]), command_pointer: (j + 1) as nat, ..s };
        assert(step(code[j], s) == Ok::<StateView, ErrorView>(s2));
        assert(run_from(code, s, fuel) == run_from(code, s2, (fuel - 1) as nat));
        lemma_loads_run(code, s2, values, j + 1);
        assert(s.stack.push(values[j]) + values.skip(j + 1) =~= s.stack + values.skip(j));
    }
}

/// The stack is last in, first out: a program of loads followed by a
/// return halts with every value pushed in order and the last loaded
/// value as its result.
pub proof fn lemma_stack_is_lifo(code: Seq<InstrView>, s: StateView, values: Seq<i32>)
    requires
        !s.ret,
        s.command_pointer == 0,
        values.len() > 0,
        code.len() == values.len() + 1,
        forall|k: int|
            0 <= k < values.len() ==> (#[trigger] code[k] matches InstrView::LoadValue {
                value,
                ..
            } && value == values[k]),
        code[values.len() as int] matches InstrView::Return { .. },
    ensures
        terminates(code, s),
        run_spec(code, s) matches Ok(fs) && fs.stack == s.stack + values && final_result(fs)
            == Some(values.last()),
{
    lemma_loads_run(code, s, values, 0);
    assert(values.skip(0) =~= values);
    lemma_run_from_settles(code, s, (values.len() + 1) as nat);
}

/// The stack and store after a net effect is applied a number of times.
pub open spec fn iterate_effect(
    effect: spec_fn(Seq<i32>, Map<Seq<char>, i32>) -> (Seq<i32>, Map<Seq<char>, i32>),
    k: nat,
    stack: Seq<i32>,
    memory: Map<Seq<char>, i32>,
) -> (Seq<i32>, Map<Seq<char>, i32>)
    decreases k,
{
    if k == 0 {
        (stack, memory)
    } else {
        let once = effect(stack, memory);
        iterate_effect(effect, (k - 1) as nat, once.0, once.1)
    }
}

/// Whether a state stands at the re-entry index of the active loop,
/// ready for one pass through its body.
pub open spec fn at_loop_body(reentry: nat, u: StateView) -> bool {
    &&& !u.ret
    &&& u.command_pointer == reentry
    &&& match u.loop_instance {
        Some(lv) => lv.start_pointer == Some(reentry) && lv.counter is Some,
        None => false,
    }
}

/// The state after one pass through the body: the net effect applied to
/// stack and store, the counter at the loop end, the controller and the
/// halted flag untouched.
pub open spec fn body_exit(
    effect: spec_fn(Seq<i32>, Map<Seq<char>, i32>) -> (Seq<i32>, Map<Seq<char>, i32>),
    end: nat,
    u: StateView,
) -> StateView {
    StateView {
        stack: effect(u.stack, u.memory).0,
        memory: effect(u.stack, u.memory).1,
        command_pointer: end,
        ret: false,
        loop_instance: u.loop_instance,
    }
}

/// Whether the loop body between `reentry` and `end` acts as the given
/// net effect: from every state at the re-entry index that satisfies the
/// invariant, dispatch reaches the loop end with the effect applied to
/// stack and store and nothing else changed.
pub open spec fn body_acts_as(
    code: Seq<InstrView>,
    reentry: nat,
    end: nat,
    effect: spec_fn(Seq<i32>, Map<Seq<char>, i32>) -> (Seq<i32>, Map<Seq<char>, i32>),
    inv: spec_fn(Seq<i32>, Map<Seq<char>, i32>) -> bool,
) -> bool {
    forall|u: StateView|
        #[trigger] at_loop_body(reentry, u) && inv(u.stack, u.memory) ==> exists|m: nat|
            advance(code, u, m) == Some(body_exit(effect, end, u))
}

/// A counted loop runs any body exactly the counted number of times:
/// with the body acting as a net effect on stack and store, a loop
/// entered at its re-entry index with counter `n` reaches the
/// instruction after its end with the effect applied exactly `n` times
/// and the controller deactivated.
pub proof fn lemma_loop_body_iterates(
    code: Seq<InstrView>,
    reentry: nat,
    end: nat,
    n: i32,
    effect: spec_fn(Seq<i32>, Map<Seq<char>, i32>) -> (Seq<i32>, Map<Seq<char>, i32>),
    inv: spec_fn(Seq<i32>, Map<Seq<char>, i32>) -> bool,
    u: StateView,
)
    requires
        end < code.len(),
        code[end as int] matches InstrView::EndLoop { .. },
        body_acts_as(code, reentry, end, effect, inv),
        forall|stack: Seq<i32>, memory: Map<Seq<char>, i32>|
            inv(stack, memory) ==> inv(
                #[trigger] effect(stack, memory).0,
                effect(stack, memory).1,
            ),
        1 <= n,
        at_loop_body(reentry, u),
        u.loop_instance == Some(LoopView { start_pointer: Some(reentry), counter: Some(n) }),
        inv(u.stack, u.memory),
    ensures
        exists|m: nat|
            advance(code, u, m) == Some(StateView {
                stack: iterate_effect(effect, n as nat, u.stack, u.memory).0,
                memory: iterate_effect(effect, n as nat, u.stack, u.memory).1,
                command_pointer: (end + 1) as nat,
                ret: false,
                loop_instance: Some(LoopView { start_pointer: None, counter: None }),
            }),
    decreases n,
{
    let b = body_exit(effect, end, u);
    assert(at_loop_body(reentry, u) && inv(u.stack, u.memory));
    let mb = choose|m: nat| advance(code, u, m) == Some(b);
    assert(advance(code, u, mb) == Some(b));
    if n == 1 {
        let fin = StateView {
            stack: b.stack,
            memory: b.memory,
            command_pointer: (end + 1) as nat,
            ret: false,
            loop_instance: Some(LoopView { start_pointer: None, counter: None }),
        };
        assert(step(code[end as int], b) == Ok::<StateView, ErrorView>(fin));
        assert(advance(code, b, 1) == advance(code, fin, 0));
        assert(advance(code, fin, 0) == Some(fin));
        lemma_advance_compose(code, u, mb, b, 1, fin);
        let once = effect(u.stack, u.memory);
        assert(iterate_effect(effect, 1, u.stack, u.memory) == iterate_effect(
            effect,
            0,
            once.0,
            once.1,
        ));
        assert(iterate_effect(effect, 0, once.0, once.1) == (once.0, once.1));
        assert(advance(code, u, mb + 1) == Some(fin));
    } else {
        let u2 = StateView {
            stack: b.stack,
            memory: b.memory,
            command_pointer: reentry,
            ret: false,
            loop_instance: Some(LoopView {
                start_pointer: Some(reentry),
                counter: Some((n - 1) as i32),
            }),
        };
        assert(step(code[end as int], b) == Ok::<StateView, ErrorView>(u2));
        assert(advance(code, b, 1) == advance(code, u2, 0));
        assert(advance(code, u2, 0) == Some(u2));
        lemma_advance_compose(code, u, mb, b, 1, u2);
        assert(inv(u2.stack, u2.memory));
        lemma_loop_body_iterates(code, reentry, end, (n - 1) as i32, effect, inv, u2);
        let target2 = StateView {
            stack: iterate_effect(effect, (n - 1) as nat, u2.stack, u2.memory).0,
            memory: iterate_effect(effect, (n - 1) as nat, u2.stack, u2.memory).1,
            command_pointer: (end + 1) as nat,
            ret: false,
            loop_instance: Some(LoopView { start_pointer: None, counter: None }),
        };
        let m2 = choose|m: nat| advance(code, u2, m) == Some(target2);
        lemma_advance_compose(code, u, mb + 1, u2, m2, target2);
        assert(iterate_effect(effect, n as nat, u.stack, u.memory) == iterate_effect(
            effect,
            (n - 1) as nat,
            u2.stack,
            u2.memory,
        ));
    }
}

/// The whole counted-loop law: dispatching the loop-start instruction and
/// then the loop applies the body's net effect exactly as often as the
/// count says, for any body acting as a net effect.
pub proof fn lemma_counted_loop_net_effect(
    code: Seq<InstrView>,
    start: nat,
    end: nat,
    n: i32,
    effect: spec_fn(Seq<i32>, Map<Seq<char>, i32>) -> (Seq<i32>, Map<Seq<char>, i32>),
    inv: spec_fn(Seq<i32>, Map<Seq<char>, i32>) -> bool,
    s: StateView,
)
    requires
        start < code.len(),
        end < code.len(),
        code[start as int] matches InstrView::StartLoop { amount_of_repeats, .. }
            && amount_of_repeats == n,
        code[end as int] matches InstrView::EndLoop { .. },
        body_acts_as(code, start + 1, end, effect, inv),
        forall|stack: Seq<i32>, memory: Map<Seq<char>, i32>|
            inv(stack, memory) ==> inv(
                #[trigger] effect(stack, memory).0,
                effect(stack, memory).1,
            ),
        1 <= n,
        !s.ret,
        s.command_pointer == start,
        match s.loop_instance {
            Some(lv) => !lv.is_active(),
            None => false,
        },
        inv(s.stack, s.memory),
    ensures
        exists|m: nat|
            advance(code, s, m) == Some(StateView {
                stack: iterate_effect(effect, n as nat, s.stack, s.memory).0,
                memory: iterate_effect(effect, n as nat, s.stack, s.memory).1,
                command_pointer: (end + 1) as nat,
                ret: false,
                loop_instance: Some(LoopView { start_pointer: None, counter: None }),
            }),
{
    let u = StateView {
        stack: s.stack,
        memory: s.memory,
        command_pointer: start + 1,
        ret: false,
        loop_instance: Some(LoopView { start_pointer: Some(start + 1), counter: Some(n) }),
    };
    assert(step(code[start as int], s) == Ok::<StateView, ErrorView>(u));
    assert(advance(code, s, 1) == advance(code, u, 0));
    assert(advance(code, u, 0) == Some(u));
    lemma_loop_body_iterates(code, start + 1, end, n, effect, inv, u);
    let target = StateView {
        stack: iterate_effect(effect, n as nat, s.stack, s.memory).0,
        memory: iterate_effect(effect, n as nat, s.stack, s.memory).1,
        command_pointer: (end + 1) as nat,
        ret: false,
        loop_instance: Some(LoopView { start_pointer: None, counter: None }),
    };
    let m1 = choose|m: nat| advance(code, u, m) == Some(target);
    lemma_advance_compose(code, s, 1, u, m1, target);
}

/// Inside the counted loop, with the counter at `c` and the running sum
/// at `t + (n - c)`, the remaining iterations and the return halt the
/// run with the sum at `t + n`.
proof fn lemma_count_loop_run(
    code: Seq<InstrView>,
    s: StateView,
    n: i32,
    t: i32,
    base: Seq<i32>,
    c: i32,
)
    requires
        code.len() == 5,
        code[1] matches InstrView::LoadValue { value, .. } && value == 1,
        code[2] matches InstrView::Add { .. },
        code[3] matches InstrView::EndLoop { .. },
        code[4] matches InstrView::Return { .. },
        1 <= c <= n,
        t + n <= i32::MAX,
        !s.ret,
        s.command_pointer == 1,
        s.stack == base.push((t + n - c) as i32),
        s.loop_instance == Some(LoopView { start_pointer: Some(1nat), counter: Some(c) }),
    ensures
        run_from(code, s, (3 * c + 1) as nat) == Some(Ok::<StateView, ErrorView>(
            StateView {
                stack: base.push((t + n) as i32),
                command_pointer: 5,
                ret: true,
                loop_instance: Some(LoopView { start_pointer: None, counter: None }),
                ..s
            },
        )),
    decreases c,
{
    let fuel = (3 * c + 1) as nat;
    let x = (t + n - c) as i32;
    let v = (t + n - c + 1) as i32;
    let s1 = StateView { stack: s.stack.push(1), command_pointer: 2, ..s };
    assert(step(code[1], s) == Ok::<StateView, ErrorView>(s1));
    assert(run_from(code, s, fuel) == run_from(code, s1, (fuel - 1) as nat));
    let s2 = StateView { stack: base.push(v), command_pointer: 3, ..s };
    assert(s1.stack.drop_last().drop_last() =~= base);
    assert(s1.stack[s1.stack.len() - 2] == x);
    assert(step(code[2], s1) == Ok::<StateView, ErrorView>(s2));
    assert(run_from(code, s1, (fuel - 1) as nat) == run_from(code, s2, (fuel - 2) as nat));
    if c == 1 {
        let s3 = StateView {
            stack: base.push(v),
            command_pointer: 4,
            loop_instance: Some(LoopView { start_pointer: None, counter: None }),
            ..s
        };
        assert(step(code[3], s2) == Ok::<StateView, ErrorView>(s3));
        assert(run_from(code, s2, (fuel - 2) as nat) == run_from(code, s3, (fuel - 3) as nat));
        let s4 = StateView { ret: true, command_pointer: 5, ..s3 };
        assert(step(code[4], s3) == Ok::<StateView, ErrorView>(s4));
        assert(run_from(code, s3, (fuel - 3) as nat) == run_from(code, s4, (fuel - 4) as nat));
        assert(run_from(code, s4, (fuel - 4) as nat) == Some(Ok::<StateView, ErrorView>(s4)));
        assert(v == (t + n) as i32);
    } else {
        let s3 = StateView {
            stack: base.push(v),
            command_pointer: 1,
            loop_instance: Some(LoopView { start_pointer: Some(1nat), counter: Some((c - 1) as i32) }),
            ..s
        };
        assert(step(code[3], s2) == Ok::<StateView, ErrorView>(s3));
        assert(run_from(code, s2, (fuel - 2) as nat) == run_from(code, s3, (fuel - 3) as nat));
        assert(v == (t + n - (c - 1)) as i32);
        lemma_count_loop_run(code, s3, n, t, base, (c - 1) as i32);
        assert((fuel - 3) as nat == (3 * (c - 1) + 1) as nat);
    }
}

/// A counted loop runs its body exactly the counted number of times:
/// counting `n` activations of a body that pushes one and adds leaves the
/// starting value increased by exactly `n`.
pub proof fn lemma_loop_repeats_body(code: Seq<InstrView>, s: StateView, n: i32, t: i32)
    requires
        code.len() == 5,
        code[0] matches InstrView::StartLoop { amount_of_repeats, .. } && amount_of_repeats == n,
        code[1] matches InstrView::LoadValue { value, .. } && value == 1,
        code[2] matches InstrView::Add { .. },
        code[3] matches InstrView::EndLoop { .. },
        code[4] matches InstrView::Return { .. },
        1 <= n,
        t + n <= i32::MAX,
        !s.ret,
        s.command_pointer == 0,
        s.stack.len() > 0,
        s.stack.last() == t,
        match s.loop_instance {
            Some(lv) => !lv.is_active(),
            None => false,
        },
    ensures
        terminates(code, s),
        run_spec(code, s) matches Ok(fs) && fs.stack.len() > 0 && final_result(fs) == Some(
            (t + n) as i32,
        ),
{
    let base = s.stack.drop_last();
    let s1 = StateView {
        loop_instance: Some(LoopView { start_pointer: Some(1nat), counter: Some(n) }),
        command_pointer: 1,
        ..s
    };
    assert(step(code[0], s) == Ok::<StateView, ErrorView>(s1));
    assert(s1.stack == base.push((t + n - n) as i32)) by {
        assert((t + n - n) as i32 == t);
        assert(base.push(t) =~= s.stack);
    }
    lemma_count_loop_run(code, s1, n, t, base, n);
    assert(run_from(code, s, (3 * n + 2) as nat) == run_from(code, s1, (3 * n + 1) as nat));
    lemma_run_from_settles(code, s, (3 * n + 2) as nat);
}

} // verus!
