//! The loop controller: at most one active counted loop.
//!
//! The controller remembers the instruction index a loop jumps back to and
//! how many iterations remain. It is active exactly when both fields are
//! set; activation and deactivation set and clear them together.

use vstd::prelude::*;

verus! {

/// The mathematical content of a loop controller.
pub ghost struct LoopView {
    pub start_pointer: Option<nat>,
    pub counter: Option<i32>,
}

impl LoopView {
    /// A loop is active exactly when both fields are set.
    pub open spec fn is_active(self) -> bool {
        self.start_pointer is Some && self.counter is Some
    }
}

/// One step of the counter: down by one, wrapping at the bottom of the
/// 32-bit signed range so that stepping is total.
pub open spec fn counter_dec(c: i32) -> i32 {
    if c == i32::MIN {
        i32::MAX
    } else {
        (c - 1) as i32
    }
}

/// Tracks at most one active counted loop: the index of the first
/// instruction of its body and the remaining iteration count.
#[derive(Debug)]
pub struct SimpleLoop {
    start_pointer: Option<usize>,
    counter: Option<i32>,
}

impl View for SimpleLoop {
    type V = LoopView;

    closed spec fn view(&self) -> LoopView {
        LoopView {
            start_pointer: match self.start_pointer {
                Some(p) => Some(p as nat),
                None => None,
            },
            counter: self.counter,
        }
    }
}

impl SimpleLoop {
    /// A fresh controller with no active loop.
    pub fn new() -> (r: Self)
        ensures
            r@.start_pointer is None,
            r@.counter is None,
    {
        SimpleLoop { start_pointer: None, counter: None }
    }

    /// The index the active loop re-enters its body at, if any.
    pub fn get_start_pointer(&self) -> (r: Option<usize>)
        ensures
            match r {
                Some(p) => self@.start_pointer == Some(p as nat),
                None => self@.start_pointer is None,
            },
    {
        self.start_pointer
    }

    /// Records the re-entry index and the iteration count together.
    pub fn activate(&mut self, pointer: usize, counter: i32)
        ensures
            final(self)@ == (LoopView {
                start_pointer: Some(pointer as nat),
                counter: Some(counter),
            }),
    {
        self.start_pointer = Some(pointer);
        self.counter = Some(counter);
    }

    /// Clears both fields together.
    pub fn desactivate(&mut self)
        ensures
            final(self)@ == (LoopView { start_pointer: None, counter: None }),
    {
        self.start_pointer = None;
        self.counter = None;
    }

    /// Steps the counter down by one if it is set; no-op otherwise. The
    /// step wraps at the bottom of the 32-bit range, so it never fails.
    pub fn dec_counter(&mut self)
        ensures
            final(self)@ == (LoopView {
                start_pointer: old(self)@.start_pointer,
                counter: match old(self)@.counter {
                    Some(c) => Some(counter_dec(c)),
                    None => None,
                },
            }),
    {
        match self.counter {
            Some(c) => {
                self.counter = Some(if c == i32::MIN { i32::MAX } else { c - 1 });
            },
            None => (),
        }
    }

    /// True only when the counter is set and equals exactly zero.
    pub fn is_counter_eq_zero(&self) -> (r: bool)
        ensures
            r == (self@.counter == Some(0i32)),
    {
        match self.counter {
            Some(c) => c == 0,
            None => false,
        }
    }

    /// True exactly when both fields are set.
    pub fn is_active(&self) -> (r: bool)
        ensures
            r == self@.is_active(),
    {
        self.counter.is_some() && self.start_pointer.is_some()
    }
}

} // verus!
