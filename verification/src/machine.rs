//! The machine's state: the heap and the three roots.

use crate::field::{Rib, RibField};
use crate::heap::{field_closed, field_in, RibHeap};
use vstd::prelude::*;

verus! {

/// A machine between two instructions.
pub struct Machine {
    /// The rib heap.
    pub heap: RibHeap,
    /// The top cell of the stack.
    pub stack: usize,
    /// The instruction to run next.
    pub pc: RibField,
    /// The first cell of the symbol table.
    pub symtbl: usize,
    /// The heap's length after the last collection.
    pub live: usize,
}

/// The state of a machine as plain values.
pub struct MachineView {
    /// The ribs of the heap.
    pub heap: Seq<Rib>,
    /// The top cell of the stack.
    pub stack: usize,
    /// The instruction to run next.
    pub pc: RibField,
    /// The first cell of the symbol table.
    pub symtbl: usize,
    /// The heap's length after the last collection.
    pub live: usize,
}

impl View for Machine {
    type V = MachineView;

    open spec fn view(&self) -> MachineView {
        MachineView {
            heap: self.heap@,
            stack: self.stack,
            pc: self.pc,
            symtbl: self.symtbl,
            live: self.live,
        }
    }
}

impl MachineView {
    /// Whether the heap holds the singletons' places, no reference in it
    /// points past its end, and the stack, the symbol table and the
    /// program counter point into it.
    pub open spec fn wf(self) -> bool {
        &&& 3 <= self.heap.len() <= usize::MAX
        &&& crate::heap::heap_closed(self.heap)
        &&& self.stack < self.heap.len()
        &&& self.symtbl < self.heap.len()
        &&& field_closed(self.pc, self.heap.len())
    }
}

impl Machine {
    /// Whether the machine's state is well formed. A decoded machine is,
    /// and an instruction keeps it so; a collection keeps it so unless a
    /// singleton holds a reference for which the new heap is too short. No
    /// function asks for it: a machine that is not well formed fails where
    /// it follows a reference that leads nowhere.
    pub open spec fn wf(&self) -> bool {
        self@.wf()
    }

    /// `wf`, computed.
    pub fn is_wf(&self) -> (b: bool)
        ensures
            b == self.wf(),
    {
        let n = self.heap.len();
        self.heap.is_wf() && self.stack < n && self.symtbl < n && field_in(&self.pc, n)
    }
}

} // verus!
