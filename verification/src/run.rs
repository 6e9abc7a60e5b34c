//! Running a machine: one instruction, then a collection when the heap has
//! grown enough.

use crate::decode::{decode, decoded};
use crate::error::VmError;
use crate::field::RibField;
use crate::gc::collected;
use crate::gc_laws::{
    lemma_collection_closed, lemma_collection_keeps_singletons, singletons_closed,
};
use crate::interp::{executed, Outcome};
use crate::machine::{Machine, MachineView};
use crate::reach::{is_collection, lemma_closed_tidy, tidy, Roots};
use crate::shape::singletons;
use vstd::prelude::*;

verus! {

impl MachineView {
    /// The three roots, where the program counter is a reference.
    pub open spec fn roots(self) -> Roots {
        Roots { stack: self.stack, pc: self.pc->Rib_0, symtbl: self.symtbl }
    }

    /// Whether the machine can be collected: the program counter is a
    /// reference, the heap holds the singletons' places, and no live rib
    /// holds a dangling reference.
    pub open spec fn collectable(self) -> bool {
        self.pc is Rib && tidy(self.heap, self.roots())
    }

    /// Whether `after` is this machine after a collection: its heap and
    /// roots are the collected ones, which are a compacted copy of this
    /// machine's and which another collection would leave as they are, and
    /// it remembers the new heap's length.
    pub open spec fn collects_to(self, after: MachineView) -> bool {
        &&& self.pc is Rib
        &&& after.pc is Rib
        &&& (after.heap, after.roots()) == collected(self.heap, self.roots())
        &&& is_collection(self.heap, self.roots(), after.heap, after.roots())
        &&& collected(after.heap, after.roots()) == (after.heap, after.roots())
        &&& after.live == after.heap.len()
    }

    /// Whether the heap has more than doubled since the last collection.
    pub open spec fn crowded(self) -> bool {
        2 * self.live < self.heap.len()
    }

    /// Whether `after` with the result `r` is what follows an instruction
    /// that left this machine with `outcome`: the same machine if the
    /// program has ended or the heap is not crowded; else the machine after a
    /// collection, or the error that the machine cannot be collected.
    pub open spec fn settles_to(
        self,
        outcome: Outcome,
        after: MachineView,
        r: Result<Outcome, VmError>,
    ) -> bool {
        if outcome is Halt || outcome is Exit || !self.crowded() {
            r == Ok::<Outcome, VmError>(outcome) && after == self
        } else if self.collectable() {
            r == Ok::<Outcome, VmError>(outcome) && self.collects_to(after)
        } else {
            r == Err::<Outcome, VmError>(VmError::Type)
        }
    }
}

impl Machine {
    /// Collects the heap, with the stack, the program counter and the
    /// symbol table as roots. Fails, and leaves the machine as it is, where
    /// it cannot be collected.
    ///
    /// A well-formed machine stays well formed, unless a singleton holds a
    /// reference for which the new heap is too short: the collector copies
    /// the singletons as they are, and neither follows nor rewrites what
    /// they hold.
    pub fn collect(&mut self) -> (r: Result<(), VmError>)
        ensures
            old(self)@.collectable() ==> r is Ok && old(self)@.collects_to(final(self)@),
            !old(self)@.collectable() ==> r == Err::<(), VmError>(VmError::Type) && final(self)@
                == old(self)@,
            r is Ok && old(self).wf() && singletons_closed(
                old(self)@.heap,
                final(self)@.heap.len(),
            ) ==> final(self).wf(),
    {
        let mut pc_ref = match self.pc {
            RibField::Rib(p) => p,
            RibField::Number(_) => {
                return Err(VmError::Type);
            },
        };
        if self.heap.len() < 3 {
            return Err(VmError::Type);
        }
        let ghost h = self.heap@;
        let ghost roots = self@.roots();
        let mut stack = self.stack;
        let mut symtbl = self.symtbl;
        let size_of_heap = match self.heap.try_collect(&mut stack, &mut pc_ref, &mut symtbl) {
            Ok(n) => n,
            Err(e) => {
                return Err(e);
            },
        };
        self.stack = stack;
        self.symtbl = symtbl;
        self.pc = RibField::Rib(pc_ref);
        self.live = size_of_heap;
        proof {
            if old(self).wf() && singletons_closed(h, self.heap@.len()) {
                lemma_collection_closed(h, roots, self.heap@, self@.roots());
            }
        }
        Ok(())
    }

    /// Whether the heap has more than doubled since the last collection.
    pub fn is_crowded(&self) -> (b: bool)
        ensures
            b == self@.crowded(),
    {
        let n = self.heap.len();
        self.live < n && self.live < n - self.live
    }

    /// Runs the next instruction and then, if the program has not ended
    /// and the heap has more than doubled since the last collection,
    /// collects the heap. `input` is what the input primitive reads, should
    /// the instruction call it. After an error the machine's state is not
    /// specified.
    ///
    /// A well-formed machine stays well formed, unless a collection leaves
    /// a singleton with a reference for which the new heap is too short.
    pub fn step(&mut self, input: Option<u8>) -> (r: Result<Outcome, VmError>)
        ensures
            match executed(old(self)@, input) {
                Ok((m, outcome)) => {
                    &&& m.settles_to(outcome, final(self)@, r)
                    &&& r is Ok && old(self).wf() && singletons_closed(
                        m.heap,
                        final(self)@.heap.len(),
                    ) ==> outcome is Exit || final(self).wf()
                },
                Err(e) => r == Err::<Outcome, VmError>(e),
            },
    {
        let outcome = match self.execute(input) {
            Ok(outcome) => outcome,
            Err(e) => {
                return Err(e);
            },
        };
        match outcome {
            Outcome::Halt => Ok(outcome),
            Outcome::Exit(_) => Ok(outcome),
            _ => {
                if self.is_crowded() {
                    match self.collect() {
                        Ok(()) => Ok(outcome),
                        Err(e) => Err(e),
                    }
                } else {
                    Ok(outcome)
                }
            },
        }
    }

    /// Decodes a program text and collects the heap once: the machine as
    /// it stands before its first instruction. Fails where the text does
    /// not decode, and where the program is empty, so that the program
    /// counter is an integer.
    pub fn load(code: &[u8]) -> (r: Result<Machine, VmError>)
        ensures
            match decoded(code@) {
                Ok(v) => if v.pc is Rib {
                    &&& r is Ok
                    &&& v.collects_to(r->Ok_0@)
                    &&& r->Ok_0.wf()
                    &&& singletons(r->Ok_0@.heap)
                } else {
                    r is Err && r->Err_0 == VmError::Type
                },
                Err(e) => r is Err && r->Err_0 == e,
            },
    {
        let mut machine = match decode(code) {
            Ok(m) => m,
            Err(e) => {
                return Err(e);
            },
        };
        let ghost decoded_view = machine@;
        proof {
            lemma_closed_tidy(decoded_view.heap, decoded_view.roots());
        }
        match machine.collect() {
            Ok(()) => {
                proof {
                    lemma_collection_keeps_singletons(
                        decoded_view.heap,
                        decoded_view.roots(),
                        machine@.heap,
                        machine@.roots(),
                    );
                }
                Ok(machine)
            },
            Err(e) => Err(e),
        }
    }
}

} // verus!
