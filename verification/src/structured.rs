//! A machine for structured code: blocks, loops, conditionals and branches.

use crate::model::Instruction;
use crate::semantics::{step, stuck, Machine};
use vstd::prelude::*;

verus! {

/// Where a branch to an open block goes on.
pub struct Label {
    /// The place where the code goes on: behind the `end` of a block or a
    /// conditional, at the first instruction of the body of a loop.
    pub target: int,
    /// Whether the block is a loop.
    pub is_loop: bool,
}

/// The place behind the `end` of the block whose body goes on at `pc` with
/// `depth` more blocks open; the length of the code if there is no such
/// `end`.
pub open spec fn behind_matching_end(code: Seq<Instruction>, pc: int, depth: nat) -> int
    decreases code.len() - pc,
{
    if pc < 0 || pc >= code.len() {
        code.len() as int
    } else if code[pc] is Block || code[pc] is Loop || code[pc] is If {
        behind_matching_end(code, pc + 1, depth + 1)
    } else if code[pc] is End {
        if depth == 0 {
            pc + 1
        } else {
            behind_matching_end(code, pc + 1, (depth - 1) as nat)
        }
    } else {
        behind_matching_end(code, pc + 1, depth)
    }
}

/// The place behind the `else` of the conditional whose body goes on at
/// `pc` with `depth` more blocks open, if it has one before its `end`.
pub open spec fn behind_matching_else(code: Seq<Instruction>, pc: int, depth: nat) -> Option<int>
    decreases code.len() - pc,
{
    if pc < 0 || pc >= code.len() {
        None
    } else if code[pc] is Block || code[pc] is Loop || code[pc] is If {
        behind_matching_else(code, pc + 1, depth + 1)
    } else if code[pc] is End {
        if depth == 0 {
            None
        } else {
            behind_matching_else(code, pc + 1, (depth - 1) as nat)
        }
    } else if code[pc] is Else && depth == 0 {
        Some(pc + 1)
    } else {
        behind_matching_else(code, pc + 1, depth)
    }
}

/// The state of a run: the place in the code, the open blocks, and the
/// machine.
pub struct Run {
    pub pc: int,
    /// The open blocks, the innermost last.
    pub labels: Seq<Label>,
    pub machine: Machine,
}

/// The run after a branch to the open block `depth`: out of a block or a
/// conditional, the code goes on behind it; in a loop, at the start of its
/// body. A branch to the function body itself ends the run.
pub open spec fn branch(code: Seq<Instruction>, r: Run, depth: u32) -> Run {
    let open = r.labels.len() as int;
    if depth > open {
        Run { pc: r.pc + 1, machine: stuck(r.machine), ..r }
    } else if depth == open {
        Run { pc: code.len() as int, labels: Seq::empty(), ..r }
    } else {
        let label = r.labels[open - 1 - depth];
        Run {
            pc: label.target,
            labels: if label.is_loop {
                r.labels.take(open - depth)
            } else {
                r.labels.take(open - 1 - depth)
            },
            ..r
        }
    }
}

/// The run after the instruction at its place.
///
/// A block, a loop and a taken conditional are entered; the `end` of a
/// block leaves it, and the `end` of the function body ends the run. A
/// conditional that is not taken goes on behind its `else`, or behind its
/// `end` if it has none. An `else` that is reached ends the conditional.
/// `br_table` is outside the model, as every instruction is at which the
/// machine is stuck; the run is then over, at the place behind the
/// instruction.
pub open spec fn advance(code: Seq<Instruction>, r: Run) -> Run {
    let s = r.machine;
    let next = r.pc + 1;
    match code[r.pc] {
        Instruction::Block { .. } => Run {
            pc: next,
            labels: r.labels.push(
                Label { target: behind_matching_end(code, next, 0), is_loop: false },
            ),
            ..r
        },
        Instruction::Loop { .. } => Run {
            pc: next,
            labels: r.labels.push(Label { target: next, is_loop: true }),
            ..r
        },
        Instruction::If { .. } => if s.stack.len() >= 1 && s.stack.last() is I32 {
            let rest = Machine { stack: s.stack.drop_last(), ..s };
            let end = Label { target: behind_matching_end(code, next, 0), is_loop: false };
            if s.stack.last()->I32_0 != 0 {
                Run { pc: next, labels: r.labels.push(end), machine: rest, ..r }
            } else {
                match behind_matching_else(code, next, 0) {
                    Some(target) => Run {
                        pc: target,
                        labels: r.labels.push(end),
                        machine: rest,
                        ..r
                    },
                    None => Run { pc: end.target, machine: rest, ..r },
                }
            }
        } else {
            Run { pc: next, machine: stuck(s), ..r }
        },
        Instruction::Else => if r.labels.len() >= 1 {
            Run { pc: r.labels.last().target, labels: r.labels.drop_last(), ..r }
        } else {
            Run { pc: next, machine: stuck(s), ..r }
        },
        Instruction::End => if r.labels.len() >= 1 {
            Run { pc: next, labels: r.labels.drop_last(), ..r }
        } else {
            Run { pc: code.len() as int, ..r }
        },
        Instruction::Br { relative_depth } => branch(code, r, relative_depth),
        Instruction::BrIf { relative_depth } => if s.stack.len() >= 1 && s.stack.last() is I32 {
            let rest = Run { machine: Machine { stack: s.stack.drop_last(), ..s }, ..r };
            if s.stack.last()->I32_0 != 0 {
                branch(code, rest, relative_depth)
            } else {
                Run { pc: next, ..rest }
            }
        } else {
            Run { pc: next, machine: stuck(s), ..r }
        },
        i => Run { pc: next, machine: step(i, s), ..r },
    }
}

/// Whether the run is over: the code has been left, or the machine is
/// stuck.
pub open spec fn is_over(code: Seq<Instruction>, r: Run) -> bool {
    r.pc < 0 || r.pc >= code.len() || r.machine.stuck
}

/// The run after `steps` more instructions, or as it is when it is over
/// before that.
pub open spec fn finish(code: Seq<Instruction>, r: Run, steps: nat) -> Run
    decreases steps,
{
    if steps == 0 || is_over(code, r) {
        r
    } else {
        finish(code, advance(code, r), (steps - 1) as nat)
    }
}

/// A run of some instructions and of more instructions behind them is the
/// run of all of them.
pub proof fn lemma_finish_in_two(code: Seq<Instruction>, r: Run, first: nat, more: nat)
    ensures
        finish(code, r, first + more) == finish(code, finish(code, r, first), more),
    decreases first,
{
    if first > 0 && !is_over(code, r) {
        lemma_finish_in_two(code, advance(code, r), (first - 1) as nat, more);
    } else if is_over(code, r) {
        lemma_finish_over(code, r, first + more);
        lemma_finish_over(code, r, first);
        lemma_finish_over(code, r, more);
    }
}

/// A run that is over stays as it is.
pub proof fn lemma_finish_over(code: Seq<Instruction>, r: Run, steps: nat)
    requires
        is_over(code, r),
    ensures
        finish(code, r, steps) == r,
{
}

/// The next `end` is found behind other code as it is found alone.
pub proof fn lemma_matching_end_shifted(
    a: Seq<Instruction>,
    b: Seq<Instruction>,
    pc: int,
    depth: nat,
)
    requires
        0 <= pc,
    ensures
        behind_matching_end(a + b, a.len() + pc, depth) == a.len() + behind_matching_end(
            b,
            pc,
            depth,
        ),
    decreases b.len() - pc,
{
    if pc < b.len() {
        assert((a + b)[a.len() + pc] == b[pc]);
        lemma_matching_end_shifted(a, b, pc + 1, depth + 1);
        lemma_matching_end_shifted(a, b, pc + 1, depth);
        if depth > 0 {
            lemma_matching_end_shifted(a, b, pc + 1, (depth - 1) as nat);
        }
    }
}

/// The next `else` is found behind other code as it is found alone.
pub proof fn lemma_matching_else_shifted(
    a: Seq<Instruction>,
    b: Seq<Instruction>,
    pc: int,
    depth: nat,
)
    requires
        0 <= pc,
    ensures
        behind_matching_else(a + b, a.len() + pc, depth) == match behind_matching_else(
            b,
            pc,
            depth,
        ) {
            Some(target) => Some(a.len() + target),
            None => None,
        },
    decreases b.len() - pc,
{
    if pc < b.len() {
        assert((a + b)[a.len() + pc] == b[pc]);
        lemma_matching_else_shifted(a, b, pc + 1, depth + 1);
        lemma_matching_else_shifted(a, b, pc + 1, depth);
        if depth > 0 {
            lemma_matching_else_shifted(a, b, pc + 1, (depth - 1) as nat);
        }
    }
}

/// Where the next `end` is looked for from.
pub proof fn lemma_matching_end_bounds(code: Seq<Instruction>, pc: int, depth: nat)
    requires
        0 <= pc <= code.len(),
    ensures
        pc <= behind_matching_end(code, pc, depth) <= code.len(),
    decreases code.len() - pc,
{
    if pc < code.len() {
        lemma_matching_end_bounds(code, pc + 1, depth + 1);
        lemma_matching_end_bounds(code, pc + 1, depth);
        if depth > 0 {
            lemma_matching_end_bounds(code, pc + 1, (depth - 1) as nat);
        }
    }
}

/// Where the next `else` is looked for from.
pub proof fn lemma_matching_else_bounds(code: Seq<Instruction>, pc: int, depth: nat)
    requires
        0 <= pc <= code.len(),
    ensures
        behind_matching_else(code, pc, depth) matches Some(target) ==> pc < target <= code.len(),
    decreases code.len() - pc,
{
    if pc < code.len() {
        lemma_matching_else_bounds(code, pc + 1, depth + 1);
        lemma_matching_else_bounds(code, pc + 1, depth);
        if depth > 0 {
            lemma_matching_else_bounds(code, pc + 1, (depth - 1) as nat);
        }
    }
}

} // verus!
