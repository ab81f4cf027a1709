//! A model of the machine for the instructions that the instrumentation
//! emits: its state, and what an instruction that is no part of the
//! structure of the code does to it.

use crate::metering::InjectedImports;
use crate::model::Instruction;
use vstd::prelude::*;


verus! {

/// A value on the stack, in a local or in a global. Floats are their bits.
pub enum Value {
    I32(u32),
    I64(i64),
    F32(u32),
    F64(u64),
}

/// The function that charges a dynamic cost, and the global that it
/// charges.
pub struct Charging {
    pub function: u32,
    pub counter: u32,
}

/// The state of the machine.
pub struct Machine {
    /// The operand stack, the top last.
    pub stack: Seq<Value>,
    pub locals: Map<u32, Value>,
    pub globals: Map<u32, Value>,
    /// The byte at each address of each memory.
    pub memories: Map<(u32, int), u8>,
    /// The number of pages of the heap.
    pub heap_pages: nat,
    /// The number of pages that the heap can have at most.
    pub heap_limit: nat,
    /// What the host answers when it is told of a growth of the heap: from
    /// the result of the growth and the number of pages asked for, the
    /// result that the module is to see.
    pub update_available_memory: spec_fn(u32, u32) -> u32,
    /// The function of the module that charges a dynamic cost, where the
    /// machine knows of it: a call of the function then does what its body
    /// does.
    pub charging: Option<Charging>,
    /// The host functions that were called, in the order of the calls.
    pub calls: Seq<u32>,
    /// The machine has met something outside the model.
    pub stuck: bool,
}

/// The machine, stuck.
pub open spec fn stuck(s: Machine) -> Machine {
    Machine { stuck: true, ..s }
}

/// The machine with `v` on top of the stack.
pub open spec fn push(s: Machine, v: Value) -> Machine {
    Machine { stack: s.stack.push(v), ..s }
}

/// The instruction `i` on two `i32` operands.
pub open spec fn binary_i32(i: Instruction, a: u32, b: u32) -> Option<Value> {
    match i {
        Instruction::I32Add => Some(Value::I32((a + b) as u32)),
        Instruction::I32Sub => Some(Value::I32((a - b) as u32)),
        Instruction::I32ShrU => Some(Value::I32(a >> (b % 32))),
        Instruction::I32LtU => Some(
            Value::I32(
                if a < b {
                    1
                } else {
                    0
                },
            ),
        ),
        _ => None,
    }
}

/// The instruction `i` on two `i64` operands.
pub open spec fn binary_i64(i: Instruction, a: i64, b: i64) -> Option<Value> {
    match i {
        Instruction::I64Sub => Some(Value::I64((a - b) as i64)),
        Instruction::I64LtS => Some(
            Value::I32(
                if a < b {
                    1
                } else {
                    0
                },
            ),
        ),
        _ => None,
    }
}

/// The machine with `cost` taken from the counter, in the arithmetic of
/// `i64`.
pub open spec fn charged(s: Machine, counter: u32, cost: i64) -> Machine {
    Machine {
        globals: s.globals.insert(
            counter,
            Value::I64((s.globals[counter]->I64_0 - cost) as i64),
        ),
        ..s
    }
}

/// Whether the global `counter` of the machine is an `i64`.
pub open spec fn has_counter(s: Machine, counter: u32) -> bool {
    s.globals.contains_key(counter) && s.globals[counter] is I64
}

/// The machine after the test of the counter: `out_of_instructions` has
/// been called if the counter is below zero.
pub open spec fn checked(s: Machine, counter: u32) -> Machine {
    if s.globals[counter]->I64_0 < 0 {
        Machine {
            calls: s.calls.push(InjectedImports::OutOfInstructions.spec_index()),
            ..s
        }
    } else {
        s
    }
}

/// The machine after a call of the function that charges a dynamic cost,
/// with the cost on top of the stack: the cost, read as unsigned, is taken
/// from the counter; `out_of_instructions` is called if the counter is then
/// below zero; the cost stays on the stack. Where no `i32` is on the stack or
/// the counter is no `i64`, which no valid code leaves to the call, nothing
/// happens.
pub open spec fn charged_dynamically(s: Machine, counter: u32) -> Machine {
    if s.stack.len() >= 1 && s.stack.last() is I32 && has_counter(s, counter) {
        checked(charged(s, counter, s.stack.last()->I32_0 as i64), counter)
    } else {
        s
    }
}

/// The byte at `address` of the memory `mem`; zero where nothing was
/// written.
pub open spec fn byte_at(s: Machine, mem: u32, address: int) -> u8 {
    if s.memories.contains_key((mem, address)) {
        s.memories[(mem, address)]
    } else {
        0
    }
}

/// The memories with `len` bytes of the memory `mem` from `start` on
/// written: the byte at `start + k` is `bytes(k)`.
pub open spec fn with_bytes(
    memories: Map<(u32, int), u8>,
    mem: u32,
    start: int,
    len: int,
    bytes: spec_fn(int) -> u8,
) -> Map<(u32, int), u8> {
    Map::new(
        |key: (u32, int)|
            memories.contains_key(key) || (key.0 == mem && start <= key.1 < start + len),
        |key: (u32, int)|
            if key.0 == mem && start <= key.1 < start + len {
                bytes(key.1 - start)
            } else {
                memories[key]
            },
    )
}

/// What `memory.grow` by `delta` pages returns: the number of pages before,
/// or -1 if the heap cannot grow that much.
pub open spec fn growth_result(s: Machine, delta: u32) -> u32 {
    if s.heap_pages + delta <= s.heap_limit {
        s.heap_pages as u32
    } else {
        0xffff_ffff
    }
}

/// The number of pages of the heap after `memory.grow` by `delta` pages.
pub open spec fn grown_pages(s: Machine, delta: u32) -> nat {
    if s.heap_pages + delta <= s.heap_limit {
        (s.heap_pages + delta) as nat
    } else {
        s.heap_pages
    }
}

/// The machine after an instruction that is no part of the structure of the
/// code. Of the calls those of `out_of_instructions`, which takes and
/// returns nothing, of `update_available_memory`, and of the function that
/// charges a dynamic cost are modelled; of the bulk instructions,
/// `memory.fill` and `memory.copy`; of the memories only the heap grows; no
/// access to a memory traps. At an instruction outside the model the machine
/// is stuck.
pub open spec fn step(i: Instruction, s: Machine) -> Machine {
    let n = s.stack.len() as int;
    match i {
        Instruction::LocalGet { local_index } => if s.locals.contains_key(local_index) {
            push(s, s.locals[local_index])
        } else {
            stuck(s)
        },
        Instruction::LocalSet { local_index } => if n >= 1 {
            Machine {
                stack: s.stack.drop_last(),
                locals: s.locals.insert(local_index, s.stack.last()),
                ..s
            }
        } else {
            stuck(s)
        },
        Instruction::LocalTee { local_index } => if n >= 1 {
            Machine { locals: s.locals.insert(local_index, s.stack.last()), ..s }
        } else {
            stuck(s)
        },
        Instruction::GlobalGet { global_index } => if s.globals.contains_key(global_index) {
            push(s, s.globals[global_index])
        } else {
            stuck(s)
        },
        Instruction::GlobalSet { global_index } => if n >= 1 {
            Machine {
                stack: s.stack.drop_last(),
                globals: s.globals.insert(global_index, s.stack.last()),
                ..s
            }
        } else {
            stuck(s)
        },
        Instruction::I32Const { value } => push(s, Value::I32(value as u32)),
        Instruction::I64Const { value } => push(s, Value::I64(value)),
        Instruction::I64ExtendI32U => if n >= 1 && s.stack.last() is I32 {
            Machine {
                stack: s.stack.drop_last().push(Value::I64(s.stack.last()->I32_0 as i64)),
                ..s
            }
        } else {
            stuck(s)
        },
        Instruction::I32Store8 { memarg } => if n >= 2 && s.stack[n - 1] is I32 && s.stack[n
            - 2] is I32 {
            Machine {
                stack: s.stack.take(n - 2),
                memories: s.memories.insert(
                    (memarg.memory, s.stack[n - 2]->I32_0 + memarg.offset),
                    s.stack[n - 1]->I32_0 as u8,
                ),
                ..s
            }
        } else {
            stuck(s)
        },
        Instruction::Call { function_index } => if function_index
            == InjectedImports::OutOfInstructions.spec_index() {
            Machine { calls: s.calls.push(function_index), ..s }
        } else if function_index == InjectedImports::UpdateAvailableMemory.spec_index() && n >= 2
            && s.stack[n - 1] is I32 && s.stack[n - 2] is I32 {
            let answer = (s.update_available_memory)(s.stack[n - 2]->I32_0, s.stack[n - 1]->I32_0);
            Machine {
                stack: s.stack.take(n - 2).push(Value::I32(answer)),
                calls: s.calls.push(function_index),
                ..s
            }
        } else if s.charging is Some && s.charging->0.function == function_index {
            charged_dynamically(s, s.charging->0.counter)
        } else {
            stuck(s)
        },
        Instruction::MemoryFill { mem } => if n >= 3 && s.stack[n - 1] is I32 && s.stack[n
            - 2] is I32 && s.stack[n - 3] is I32 {
            let value = s.stack[n - 2]->I32_0 as u8;
            Machine {
                stack: s.stack.take(n - 3),
                memories: with_bytes(
                    s.memories,
                    mem,
                    s.stack[n - 3]->I32_0 as int,
                    s.stack[n - 1]->I32_0 as int,
                    |k: int| value,
                ),
                ..s
            }
        } else {
            stuck(s)
        },
        Instruction::MemoryCopy { dst_mem, src_mem } => if n >= 3 && s.stack[n - 1] is I32
            && s.stack[n - 2] is I32 && s.stack[n - 3] is I32 {
            let source = s.stack[n - 2]->I32_0 as int;
            Machine {
                stack: s.stack.take(n - 3),
                memories: with_bytes(
                    s.memories,
                    dst_mem,
                    s.stack[n - 3]->I32_0 as int,
                    s.stack[n - 1]->I32_0 as int,
                    |k: int| byte_at(s, src_mem, source + k),
                ),
                ..s
            }
        } else {
            stuck(s)
        },
        Instruction::MemoryGrow { mem, .. } => if mem == 0 && n >= 1 && s.stack.last() is I32 {
            let delta = s.stack.last()->I32_0;
            Machine {
                stack: s.stack.drop_last().push(Value::I32(growth_result(s, delta))),
                heap_pages: grown_pages(s, delta),
                ..s
            }
        } else {
            stuck(s)
        },
        _ => if n >= 2 {
            let operands = match (s.stack[n - 2], s.stack[n - 1]) {
                (Value::I32(a), Value::I32(b)) => binary_i32(i, a, b),
                (Value::I64(a), Value::I64(b)) => binary_i64(i, a, b),
                _ => None,
            };
            match operands {
                Some(v) => Machine { stack: s.stack.take(n - 2).push(v), ..s },
                None => stuck(s),
            }
        } else {
            stuck(s)
        },
    }
}

} // verus!
