//! The trace: one line for the instruction that the machine is about to
//! run.

use crate::field::{is_rib, Rib, RibField, CALL, CNST, GET, HALT, IF, SET};
use crate::machine::{Machine, MachineView};
use crate::prims::{load, target};
use crate::show::{push_shown, shown, SHOW_DEPTH};
use vstd::prelude::*;
use vstd::string::StringExecFns;

verus! {

/// The line that names the machine's next instruction: `halt`; `call`,
/// `jump`, `set`, `get` or `const` with the rendering of the operand; `if`
/// with the rendering, in parentheses, of the value on top of the stack,
/// and with nothing in the parentheses where the stack lies outside the
/// heap. A call is named `jump` where the instruction's `last` is an
/// integer. The line is empty where the program counter refers to no
/// instruction.
pub open spec fn traced(m: MachineView) -> Seq<char> {
    let depth = SHOW_DEPTH as nat;
    match target(m.heap, m.pc) {
        None => Seq::empty(),
        Some(instr) => match instr.first {
            RibField::Rib(_) => Seq::empty(),
            RibField::Number(op) => if op == HALT {
                "halt"@
            } else if op == CALL {
                if instr.last is Rib {
                    "call "@ + shown(m.heap, instr.middle, depth)
                } else {
                    "jump "@ + shown(m.heap, instr.middle, depth)
                }
            } else if op == SET {
                "set "@ + shown(m.heap, instr.middle, depth)
            } else if op == GET {
                "get "@ + shown(m.heap, instr.middle, depth)
            } else if op == CNST {
                "const "@ + shown(m.heap, instr.middle, depth)
            } else if op == IF {
                match target(m.heap, RibField::Rib(m.stack)) {
                    Some(top) => "if ("@ + shown(m.heap, top.first, depth) + ")"@,
                    None => "if ()"@,
                }
            } else {
                Seq::empty()
            },
        },
    }
}

impl Machine {
    /// The line of the trace for the next instruction.
    pub fn trace_line(&self) -> (s: String)
        ensures
            s@ == traced(self@),
    {
        let mut line = String::new();
        let instr = match load(&self.pc, &self.heap) {
            Some(instr) => instr,
            None => {
                return line;
            },
        };
        let op = match instr.first {
            RibField::Number(op) => op,
            RibField::Rib(_) => {
                return line;
            },
        };
        let ghost h = self.heap@;
        let ghost depth = SHOW_DEPTH as nat;
        if op == HALT {
            line.append("halt");
            assert(line@ =~= "halt"@);
        } else if op == CALL {
            if is_rib(&instr.last) {
                line.append("call ");
            } else {
                line.append("jump ");
            }
            push_shown(&instr.middle, &self.heap, SHOW_DEPTH, &mut line);
            assert(line@ =~= traced(self@));
        } else if op == SET {
            line.append("set ");
            push_shown(&instr.middle, &self.heap, SHOW_DEPTH, &mut line);
            assert(line@ =~= "set "@ + shown(h, instr.middle, depth));
        } else if op == GET {
            line.append("get ");
            push_shown(&instr.middle, &self.heap, SHOW_DEPTH, &mut line);
            assert(line@ =~= "get "@ + shown(h, instr.middle, depth));
        } else if op == CNST {
            line.append("const ");
            push_shown(&instr.middle, &self.heap, SHOW_DEPTH, &mut line);
            assert(line@ =~= "const "@ + shown(h, instr.middle, depth));
        } else if op == IF {
            match load(&RibField::Rib(self.stack), &self.heap) {
                Some(top) => {
                    line.append("if (");
                    push_shown(&top.first, &self.heap, SHOW_DEPTH, &mut line);
                    line.append(")");
                    assert(line@ =~= "if ("@ + shown(h, top.first, depth) + ")"@);
                },
                None => {
                    line.append("if ()");
                    assert(line@ =~= "if ()"@);
                },
            }
        }
        line
    }
}

} // verus!
