//! The mutable execution state an instruction operates on.
//!
//! The state owns the value stack, the variable store, the program counter,
//! the halted flag, and the optional loop controller. The variable store is
//! an association list with pairwise-distinct keys, viewed as a map from
//! variable names to values.

use vstd::prelude::*;

use crate::errors::{EmptyStackError, UnknownVariableLoadingError};
use crate::simpleloop::{LoopView, SimpleLoop};

verus! {

/// The mathematical content of an execution state.
pub ghost struct StateView {
    pub stack: Seq<i32>,
    pub memory: Map<Seq<char>, i32>,
    pub command_pointer: nat,
    pub ret: bool,
    pub loop_instance: Option<LoopView>,
}

/// The view of an optional loop controller.
pub open spec fn loop_opt_view(loop_instance: Option<SimpleLoop>) -> Option<LoopView> {
    match loop_instance {
        Some(l) => Some(l@),
        None => None,
    }
}

/// The map an association list stands for; a later entry for the same key
/// overrides an earlier one.
spec fn entries_map(entries: Seq<(String, i32)>) -> Map<Seq<char>, i32>
    decreases entries.len(),
{
    if entries.len() == 0 {
        Map::<Seq<char>, i32>::empty()
    } else {
        entries_map(entries.drop_last()).insert(entries.last().0@, entries.last().1)
    }
}

/// Pairwise-distinct keys.
spec fn entries_unique(entries: Seq<(String, i32)>) -> bool {
    forall|i: int, j: int|
        0 <= i < j < entries.len() ==> #[trigger] entries[i].0@ != #[trigger] entries[j].0@
}

/// A key that occurs in no entry is not in the map.
proof fn lemma_entries_map_absent(entries: Seq<(String, i32)>, key: Seq<char>)
    requires
        forall|j: int| 0 <= j < entries.len() ==> #[trigger] entries[j].0@ != key,
    ensures
        !entries_map(entries).dom().contains(key),
    decreases entries.len(),
{
    if entries.len() > 0 {
        lemma_entries_map_absent(entries.drop_last(), key);
    }
}

/// With distinct keys, the map sends the key of any entry to its value.
proof fn lemma_entries_map_found(entries: Seq<(String, i32)>, i: int)
    requires
        entries_unique(entries),
        0 <= i < entries.len(),
    ensures
        entries_map(entries).dom().contains(entries[i].0@),
        entries_map(entries)[entries[i].0@] == entries[i].1,
    decreases entries.len(),
{
    if i < entries.len() - 1 {
        lemma_entries_map_found(entries.drop_last(), i);
    }
}

/// With distinct keys, dropping the entry of a key is removing the key.
proof fn lemma_entries_map_remove(entries: Seq<(String, i32)>, i: int)
    requires
        entries_unique(entries),
        0 <= i < entries.len(),
    ensures
        entries_map(entries.remove(i)) =~= entries_map(entries).remove(entries[i].0@),
    decreases entries.len(),
{
    entries.remove_ensures(i);
    let key = entries[i].0@;
    if i == entries.len() - 1 {
        assert(entries.remove(i) =~= entries.drop_last());
        lemma_entries_map_absent(entries.drop_last(), key);
    } else {
        let shorter = entries.drop_last();
        shorter.remove_ensures(i);
        assert(entries.remove(i).drop_last() =~= shorter.remove(i));
        assert(entries.remove(i).last() == entries.last());
        lemma_entries_map_remove(shorter, i);
    }
}

/// The index of the entry bound to a name, if there is one.
fn find_entry(memory: &Vec<(String, i32)>, name: &String) -> (r: Option<usize>)
    ensures
        match r {
            Some(i) => i < memory@.len() && memory@[i as int].0@ == name@,
            None => forall|j: int| 0 <= j < memory@.len() ==> #[trigger] memory@[j].0@ != name@,
        },
{
    let n = memory.len();
    let mut i: usize = 0;
    while i < n
        invariant
            n == memory@.len(),
            i <= n,
            forall|j: int| 0 <= j < i ==> #[trigger] memory@[j].0@ != name@,
        decreases n - i,
    {
        let entry = &memory[i];
        if entry.0 == *name {
            return Some(i);
        }
        i += 1;
    }
    None
}

const INIT_STACK_SIZE: usize = 2000;

/// The mutable execution state: stack, variable store, program counter,
/// halted flag, and the optional loop controller.
pub struct State {
    stack: Vec<i32>,
    memory: Vec<(String, i32)>,
    command_pointer: usize,
    ret: bool,
    loop_instance: Option<SimpleLoop>,
}

impl View for State {
    type V = StateView;

    closed spec fn view(&self) -> StateView {
        StateView {
            stack: self.stack@,
            memory: entries_map(self.memory@),
            command_pointer: self.command_pointer as nat,
            ret: self.ret,
            loop_instance: loop_opt_view(self.loop_instance),
        }
    }
}

impl State {
    /// The variable store holds one entry per name. Constructors establish
    /// this and every method preserves it.
    pub closed spec fn wf(self) -> bool {
        entries_unique(self.memory@)
    }

    /// A fresh state: empty stack, empty store, counter at zero, not halted,
    /// with the given loop controller (or none).
    pub fn new(loop_instance: Option<SimpleLoop>) -> (r: Self)
        ensures
            r.wf(),
            r@ == (StateView {
                stack: Seq::<i32>::empty(),
                memory: Map::<Seq<char>, i32>::empty(),
                command_pointer: 0,
                ret: false,
                loop_instance: loop_opt_view(loop_instance),
            }),
    {
        State {
            stack: Vec::with_capacity(INIT_STACK_SIZE),
            memory: Vec::new(),
            command_pointer: 0,
            ret: false,
            loop_instance,
        }
    }

    /// Appends a value at the stack top; always succeeds.
    pub fn push_to_stack(&mut self, value: i32)
        requires
            old(self).wf(),
        ensures
            final(self).wf(),
            final(self)@ == (StateView { stack: old(self)@.stack.push(value), ..old(self)@ }),
    {
        self.stack.push(value);
    }

    /// Removes and returns the top value; fails with `EmptyStack`, carrying
    /// the given diagnostic, when the stack is empty.
    pub fn pop_from_stack(&mut self, message: &str) -> (r: Result<i32, EmptyStackError>)
        requires
            old(self).wf(),
        ensures
            final(self).wf(),
            match r {
                Ok(v) => old(self)@.stack.len() > 0 && v == old(self)@.stack.last()
                    && final(self)@ == (StateView {
                    stack: old(self)@.stack.drop_last(),
                    ..old(self)@
                }),
                Err(e) => old(self)@.stack.len() == 0 && e@ == message@
                    && final(self)@ == old(self)@,
            },
    {
        match self.stack.pop() {
            Some(v) => {
                proof {
                    assert(old(self)@.stack.drop_last() =~= old(self)@.stack.subrange(
                        0,
                        old(self)@.stack.len() - 1,
                    ));
                }
                Ok(v)
            },
            None => Err(EmptyStackError::new(message)),
        }
    }

    /// Removes and returns the top value, or nothing when the stack is
    /// empty; used once, at the end of a run, to surface the result.
    pub fn pop_from_stack_option(&mut self) -> (r: Option<i32>)
        requires
            old(self).wf(),
        ensures
            final(self).wf(),
            match r {
                Some(v) => old(self)@.stack.len() > 0 && v == old(self)@.stack.last()
                    && final(self)@ == (StateView {
                    stack: old(self)@.stack.drop_last(),
                    ..old(self)@
                }),
                None => old(self)@.stack.len() == 0 && final(self)@ == old(self)@,
            },
    {
        let r = self.stack.pop();
        proof {
            if old(self)@.stack.len() > 0 {
                assert(old(self)@.stack.drop_last() =~= old(self)@.stack.subrange(
                    0,
                    old(self)@.stack.len() - 1,
                ));
            }
        }
        r
    }

    /// Binds a value to a name, overwriting any earlier binding.
    pub fn memory_insert(&mut self, variable_name: String, variable: i32)
        requires
            old(self).wf(),
        ensures
            final(self).wf(),
            final(self)@ == (StateView {
                memory: old(self)@.memory.insert(variable_name@, variable),
                ..old(self)@
            }),
    {
        let ghost entries0 = self.memory@;
        let ghost key = variable_name@;
        match find_entry(&self.memory, &variable_name) {
            Some(i) => {
                proof {
                    lemma_entries_map_remove(entries0, i as int);
                    entries0.remove_ensures(i as int);
                }
                let _ = self.memory.remove(i);
                proof {
                    let shorter = self.memory@;
                    assert forall|a: int, b: int| 0 <= a < b < shorter.len() implies #[trigger] shorter[a].0@
                        != #[trigger] shorter[b].0@ by {
                        let a0 = if a < i { a } else { a + 1 };
                        let b0 = if b < i { b } else { b + 1 };
                        assert(shorter[a] == entries0[a0]);
                        assert(shorter[b] == entries0[b0]);
                    }
                    assert forall|j: int| 0 <= j < shorter.len() implies #[trigger] shorter[j].0@
                        != key by {
                        let j0 = if j < i { j } else { j + 1 };
                        assert(shorter[j] == entries0[j0]);
                        assert(j0 != i);
                    }
                }
            },
            None => {},
        }
        let ghost mid = self.memory@;
        proof {
            lemma_entries_map_absent(mid, key);
        }
        self.memory.push((variable_name, variable));
        proof {
            assert(self.memory@.drop_last() =~= mid);
            assert(entries_map(self.memory@) == entries_map(mid).insert(key, variable));
            assert(entries_map(self.memory@) =~= entries_map(entries0).insert(key, variable));
            assert forall|a: int, b: int| 0 <= a < b < self.memory@.len() implies #[trigger] self.memory@[a].0@
                != #[trigger] self.memory@[b].0@ by {
                if b == self.memory@.len() - 1 {
                    assert(self.memory@[a] == mid[a]);
                } else {
                    assert(self.memory@[a] == mid[a]);
                    assert(self.memory@[b] == mid[b]);
                }
            }
        }
    }

    /// Looks a name up; fails with `UnknownVariableLoading`, carrying the
    /// given diagnostic, when the name was never bound.
    pub fn memory_get(&self, variable_name: &String, message: &str) -> (r: Result<
        i32,
        UnknownVariableLoadingError,
    >)
        requires
            self.wf(),
        ensures
            match r {
                Ok(v) => self@.memory.dom().contains(variable_name@) && v == self@.memory[variable_name@],
                Err(e) => !self@.memory.dom().contains(variable_name@) && e@ == message@,
            },
    {
        let n = self.memory.len();
        let mut i: usize = 0;
        while i < n
            invariant
                self.wf(),
                n == self.memory@.len(),
                i <= n,
                forall|j: int| 0 <= j < i ==> #[trigger] self.memory@[j].0@ != variable_name@,
            decreases n - i,
        {
            let entry = &self.memory[i];
            if entry.0 == *variable_name {
                proof {
                    lemma_entries_map_found(self.memory@, i as int);
                }
                return Ok(entry.1);
            }
            i += 1;
        }
        proof {
            lemma_entries_map_absent(self.memory@, variable_name@);
        }
        Err(UnknownVariableLoadingError::new(message))
    }

    /// The index of the next instruction to run.
    pub fn get_command_pointer(&self) -> (r: usize)
        ensures
            r as nat == self@.command_pointer,
    {
        self.command_pointer
    }

    /// Redirects the counter, as a loop jump does.
    pub fn set_command_pointer(&mut self, value: usize)
        requires
            old(self).wf(),
        ensures
            final(self).wf(),
            final(self)@ == (StateView { command_pointer: value as nat, ..old(self)@ }),
    {
        self.command_pointer = value;
    }

    /// Advances the counter by one and returns the new value.
    pub fn inc_command_pointer(&mut self) -> (r: usize)
        requires
            old(self).wf(),
            old(self)@.command_pointer < usize::MAX,
        ensures
            final(self).wf(),
            r as nat == old(self)@.command_pointer + 1,
            final(self)@ == (StateView {
                command_pointer: old(self)@.command_pointer + 1,
                ..old(self)@
            }),
    {
        self.command_pointer = self.command_pointer + 1;
        self.command_pointer
    }

    /// Whether a return instruction has halted the run.
    pub fn get_ret_status(&self) -> (r: bool)
        ensures
            r == self@.ret,
    {
        self.ret
    }

    /// Sets the halted flag.
    pub fn set_ret_status(&mut self, value: bool)
        requires
            old(self).wf(),
        ensures
            final(self).wf(),
            final(self)@ == (StateView { ret: value, ..old(self)@ }),
    {
        self.ret = value;
    }

    /// Mutable access to the optional loop controller; its absence signals
    /// that the engine was built without loop support.
    pub fn get_loop(&mut self) -> (r: &mut Option<SimpleLoop>)
        requires
            old(self).wf(),
        ensures
            final(self).wf(),
            loop_opt_view(*r) == old(self)@.loop_instance,
            final(self)@ == (StateView {
                loop_instance: loop_opt_view(*final(r)),
                ..old(self)@
            }),
    {
        &mut self.loop_instance
    }
}

} // verus!
