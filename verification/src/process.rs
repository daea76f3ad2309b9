//! The table of processes.

use vstd::prelude::*;

verus! {

/// How many processes the table holds.
pub const MAX_PROCESS: usize = 8;

/// How many words the stack of a process holds.
pub const STACK_SIZE: usize = 8192;

/// How many words of a fresh stack are set aside for the saved registers:
/// twelve callee-saved registers and, below them, the return address.
pub const SAVED_WORDS: usize = 13;

/// A process: its slot in the table, its saved stack pointer and its stack.
pub struct Process {
    pid: usize,
    stack_pointer: usize,
    stack: Vec<usize>,
}

/// A process as values.
pub struct ProcessView {
    pub pid: usize,
    pub stack_pointer: usize,
    pub stack: Seq<usize>,
}

impl View for Process {
    type V = ProcessView;

    closed spec fn view(&self) -> ProcessView {
        ProcessView { pid: self.pid, stack_pointer: self.stack_pointer, stack: self.stack@ }
    }
}

impl Process {
    /// The slot of the process in the table.
    pub fn pid(&self) -> (r: usize)
        ensures
            r == self@.pid,
    {
        self.pid
    }

    /// The saved stack pointer.
    pub fn stack_pointer(&self) -> (r: usize)
        ensures
            r == self@.stack_pointer,
    {
        self.stack_pointer
    }

    /// The stack, lowest word first.
    pub fn stack(&self) -> (r: &Vec<usize>)
        ensures
            r@ == self@.stack,
    {
        &self.stack
    }
}

/// The stack of a process that has not run yet: all zeros, but for the
/// return address, which is where the process is to start.
pub open spec fn fresh_stack(program_counter: usize) -> Seq<usize> {
    Seq::new(
        STACK_SIZE as nat,
        |i: int|
            if i == STACK_SIZE - SAVED_WORDS {
                program_counter
            } else {
                0usize
            },
    )
}

/// A process that has not run yet.
pub open spec fn fresh_process(pid: usize, program_counter: usize) -> ProcessView {
    ProcessView { pid, stack_pointer: 0, stack: fresh_stack(program_counter) }
}

/// The index of the first free slot at or after `from`.
pub open spec fn first_free(slots: Seq<Option<ProcessView>>, from: int) -> Option<int>
    decreases slots.len() - from,
{
    if from < 0 || from >= slots.len() {
        None
    } else if slots[from] is None {
        Some(from)
    } else {
        first_free(slots, from + 1)
    }
}

/// The table of processes: a fixed number of slots, each free or taken.
pub struct ProcessManager {
    procs: Vec<Option<Process>>,
}

impl View for ProcessManager {
    type V = Seq<Option<ProcessView>>;

    closed spec fn view(&self) -> Seq<Option<ProcessView>> {
        Seq::new(
            self.procs@.len(),
            |i: int|
                match self.procs@[i] {
                    Some(p) => Some(p@),
                    None => None,
                },
        )
    }
}

impl Default for ProcessManager {
    fn default() -> (r: ProcessManager)
        ensures
            r@.len() == MAX_PROCESS,
            forall|i: int| 0 <= i < MAX_PROCESS ==> r@[i] is None,
    {
        let mut procs: Vec<Option<Process>> = Vec::new();
        let mut i: usize = 0;
        while i < MAX_PROCESS
            invariant
                i <= MAX_PROCESS,
                procs@.len() == i,
                forall|j: int| 0 <= j < i ==> procs@[j] is None,
            decreases MAX_PROCESS - i,
        {
            procs.push(None);
            i = i + 1;
        }
        ProcessManager { procs }
    }
}

impl ProcessManager {
    /// The process in slot `pid`, if the slot is taken.
    pub fn get(&self, pid: usize) -> (r: Option<&Process>)
        ensures
            match r {
                Some(p) => pid < self@.len() && self@[pid as int] == Some(p@),
                None => pid >= self@.len() || self@[pid as int] is None,
            },
    {
        if pid < self.procs.len() {
            self.procs[pid].as_ref()
        } else {
            None
        }
    }

    /// Puts a process that is to start at `program_counter` into the first
    /// free slot and returns the slot. Fails where every slot is taken.
    pub fn new_process(&mut self, program_counter: usize) -> (r: Result<usize, &'static str>)
        ensures
            match r {
                Ok(id) => first_free(old(self)@, 0) == Some(id as int) && final(self)@ == old(
                    self,
                )@.update(id as int, Some(fresh_process(id, program_counter))),
                Err(msg) => first_free(old(self)@, 0) is None && final(self)@ == old(self)@
                    && msg@ == "Max processes reached"@,
            },
    {
        let mut id: usize = 0;
        while id < self.procs.len() && self.procs[id].is_some()
            invariant
                id <= self.procs@.len(),
                *self == *old(self),
                first_free(self@, 0) == first_free(self@, id as int),
            decreases self.procs@.len() - id,
        {
            id = id + 1;
        }
        if id >= self.procs.len() {
            return Err("Max processes reached");
        }
        assert(self@[id as int] is None);
        let mut stack: Vec<usize> = Vec::new();
        let mut i: usize = 0;
        while i < STACK_SIZE
            invariant
                i <= STACK_SIZE,
                stack@.len() == i,
                forall|j: int| 0 <= j < i ==> stack@[j] == 0,
            decreases STACK_SIZE - i,
        {
            stack.push(0);
            i = i + 1;
        }
        stack.set(STACK_SIZE - SAVED_WORDS, program_counter);
        assert(stack@ =~= fresh_stack(program_counter));
        let process = Process { pid: id, stack_pointer: 0, stack };
        let ghost before = self@;
        self.procs.set(id, Some(process));
        assert(self@ =~= before.update(id as int, Some(fresh_process(id, program_counter))));
        Ok(id)
    }
}

} // verus!
