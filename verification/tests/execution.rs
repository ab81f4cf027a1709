use std::collections::HashMap;

use wasm_instrument::instrument::instrument;
use wasm_instrument::memory_grow::inject_update_available_memory;
use wasm_instrument::metering::{inject_metering, ExportModuleData, FlagStatus};
use wasm_instrument::model::{
    BlockType, Body, FuncType, Instruction, MemArg, MemoryType, Module, ValType,
};
use wasm_instrument::support::export_additional_symbols;
use wasm_instrument::write_barrier::inject_mem_barrier;

// A small machine that runs the instructions which the library knows, with a
// host that stops the run when `out_of_instructions` is called and that
// refuses memory above `available_pages`.

#[derive(Clone, Copy, Debug, PartialEq)]
enum Val {
    I32(i32),
    I64(i64),
    F32(u32),
    F64(u64),
}

struct Function {
    params: usize,
    body: Body,
}

struct Vm {
    /// The functions of the module; function `i` of the module has the index
    /// `imports + i`.
    functions: Vec<Function>,
    imports: u32,
    globals: Vec<Val>,
    memories: Vec<HashMap<u64, u8>>,
    pages: i32,
    available_pages: i32,
    host_calls: Vec<u32>,
    trapped: bool,
    /// How many instructions ran while the first global was below zero.
    ran_below_zero: u64,
}

impl Vm {
    fn new(functions: Vec<Function>, imports: u32, globals: Vec<Val>) -> Vm {
        Vm {
            functions,
            imports,
            globals,
            memories: vec![HashMap::new(), HashMap::new()],
            pages: 1,
            available_pages: 1,
            host_calls: vec![],
            trapped: false,
            ran_below_zero: 0,
        }
    }

    fn i32(stack: &mut Vec<Val>) -> i32 {
        match stack.pop() {
            Some(Val::I32(v)) => v,
            other => panic!("expected an i32, found {:?}", other),
        }
    }

    fn i64(stack: &mut Vec<Val>) -> i64 {
        match stack.pop() {
            Some(Val::I64(v)) => v,
            other => panic!("expected an i64, found {:?}", other),
        }
    }

    fn store(&mut self, memarg: MemArg, stack: &mut Vec<Val>, width: usize) {
        let value = match stack.pop().unwrap() {
            Val::I32(v) => v as u32 as u64,
            Val::I64(v) => v as u64,
            Val::F32(v) => v as u64,
            Val::F64(v) => v,
        };
        let address = Vm::i32(stack) as u32 as u64 + memarg.offset;
        for k in 0..width {
            let byte = (value >> (8 * k)) as u8;
            self.memories[memarg.memory as usize].insert(address + k as u64, byte);
        }
    }

    fn call(&mut self, index: u32, stack: &mut Vec<Val>) {
        if index == 0 {
            self.host_calls.push(0);
            self.trapped = true;
        } else if index == 1 {
            self.host_calls.push(1);
            let requested = Vm::i32(stack);
            let result = Vm::i32(stack);
            let _ = requested;
            stack.push(Val::I32(if self.pages > self.available_pages { -1 } else { result }));
        } else if index >= self.imports {
            let function = &self.functions[(index - self.imports) as usize];
            let params = function.params;
            let body = function.body.clone();
            let at = stack.len() - params;
            let args: Vec<Val> = stack.split_off(at);
            if let Some(result) = self.run(&body, args) {
                stack.push(result);
            }
        } else {
            panic!("no such host function: {}", index);
        }
    }

    /// The place of the `end` (or, with `to_else`, of the `else`) of the block
    /// whose body starts at `from`.
    fn end_of(code: &[Instruction], from: usize, to_else: bool) -> usize {
        let mut depth = 0;
        let mut at = from;
        loop {
            match code[at] {
                Instruction::Block { .. } | Instruction::Loop { .. } | Instruction::If { .. } => {
                    depth += 1
                }
                Instruction::Else if depth == 0 && to_else => return at,
                Instruction::End => {
                    if depth == 0 {
                        return at;
                    }
                    depth -= 1;
                }
                _ => {}
            }
            at += 1;
        }
    }

    /// Runs a function body; gives what is on top of the stack at the end.
    fn run(&mut self, body: &Body, args: Vec<Val>) -> Option<Val> {
        let code = &body.instructions;
        let mut locals = args;
        for (count, ty) in &body.locals {
            for _ in 0..*count {
                locals.push(match ty {
                    ValType::I64 => Val::I64(0),
                    ValType::F32 => Val::F32(0),
                    ValType::F64 => Val::F64(0),
                    _ => Val::I32(0),
                });
            }
        }
        let mut stack: Vec<Val> = vec![];
        // For each open block, where a branch to it goes on.
        let mut labels: Vec<usize> = vec![];
        let mut pc = 0;
        while pc < code.len() && !self.trapped {
            if let Some(Val::I64(counter)) = self.globals.first() {
                if *counter < 0 {
                    self.ran_below_zero += 1;
                }
            }
            let instruction = code[pc];
            pc += 1;
            match instruction {
                Instruction::Block { .. } => labels.push(Vm::end_of(code, pc, false) + 1),
                Instruction::Loop { .. } => labels.push(pc - 1),
                Instruction::If { .. } => {
                    let end = Vm::end_of(code, pc, false);
                    if Vm::i32(&mut stack) != 0 {
                        labels.push(end + 1);
                    } else {
                        let other = Vm::end_of(code, pc, true);
                        if other < end {
                            labels.push(end + 1);
                        }
                        pc = other + 1;
                    }
                }
                Instruction::Else => {
                    pc = labels.pop().unwrap();
                }
                Instruction::End => {
                    labels.pop();
                }
                Instruction::Br { relative_depth } => {
                    pc = Vm::branch(&mut labels, relative_depth);
                }
                Instruction::BrIf { relative_depth } => {
                    if Vm::i32(&mut stack) != 0 {
                        pc = Vm::branch(&mut labels, relative_depth);
                    }
                }
                Instruction::Call { function_index } => self.call(function_index, &mut stack),
                Instruction::LocalGet { local_index } => stack.push(locals[local_index as usize]),
                Instruction::LocalSet { local_index } => {
                    locals[local_index as usize] = stack.pop().unwrap()
                }
                Instruction::LocalTee { local_index } => {
                    locals[local_index as usize] = *stack.last().unwrap()
                }
                Instruction::GlobalGet { global_index } => {
                    stack.push(self.globals[global_index as usize])
                }
                Instruction::GlobalSet { global_index } => {
                    self.globals[global_index as usize] = stack.pop().unwrap()
                }
                Instruction::I32Const { value } => stack.push(Val::I32(value)),
                Instruction::I64Const { value } => stack.push(Val::I64(value)),
                Instruction::I32Add => {
                    let (b, a) = (Vm::i32(&mut stack), Vm::i32(&mut stack));
                    stack.push(Val::I32(a.wrapping_add(b)));
                }
                Instruction::I32Sub => {
                    let (b, a) = (Vm::i32(&mut stack), Vm::i32(&mut stack));
                    stack.push(Val::I32(a.wrapping_sub(b)));
                }
                Instruction::I32ShrU => {
                    let (b, a) = (Vm::i32(&mut stack), Vm::i32(&mut stack));
                    stack.push(Val::I32(((a as u32) >> (b as u32 % 32)) as i32));
                }
                Instruction::I32LtU => {
                    let (b, a) = (Vm::i32(&mut stack), Vm::i32(&mut stack));
                    stack.push(Val::I32(((a as u32) < (b as u32)) as i32));
                }
                Instruction::I64Sub => {
                    let (b, a) = (Vm::i64(&mut stack), Vm::i64(&mut stack));
                    stack.push(Val::I64(a.wrapping_sub(b)));
                }
                Instruction::I64LtS => {
                    let (b, a) = (Vm::i64(&mut stack), Vm::i64(&mut stack));
                    stack.push(Val::I32((a < b) as i32));
                }
                Instruction::I64ExtendI32U => {
                    let a = Vm::i32(&mut stack);
                    stack.push(Val::I64(a as u32 as i64));
                }
                Instruction::I32Load8U { memarg } => {
                    let address = Vm::i32(&mut stack) as u32 as u64 + memarg.offset;
                    let byte = self.memories[memarg.memory as usize].get(&address).copied();
                    stack.push(Val::I32(byte.unwrap_or(0) as i32));
                }
                Instruction::I32Store8 { memarg } | Instruction::I64Store8 { memarg } => {
                    self.store(memarg, &mut stack, 1)
                }
                Instruction::I32Store16 { memarg } | Instruction::I64Store16 { memarg } => {
                    self.store(memarg, &mut stack, 2)
                }
                Instruction::I32Store { memarg }
                | Instruction::I64Store32 { memarg }
                | Instruction::F32Store { memarg } => self.store(memarg, &mut stack, 4),
                Instruction::I64Store { memarg } | Instruction::F64Store { memarg } => {
                    self.store(memarg, &mut stack, 8)
                }
                Instruction::MemoryGrow { .. } => {
                    let delta = Vm::i32(&mut stack);
                    let old = self.pages;
                    self.pages += delta;
                    stack.push(Val::I32(old));
                }
                Instruction::MemoryFill { mem } => {
                    let len = Vm::i32(&mut stack) as u32 as u64;
                    let value = Vm::i32(&mut stack) as u8;
                    let start = Vm::i32(&mut stack) as u32 as u64;
                    for address in start..start + len {
                        self.memories[mem as usize].insert(address, value);
                    }
                }
                other => panic!("the machine does not know {:?}", other),
            }
        }
        stack.pop()
    }

    /// Leaves the blocks up to the one that the branch names; gives the
    /// place where the run goes on. A loop is entered again there.
    fn branch(labels: &mut Vec<usize>, depth: u32) -> usize {
        let keep = labels.len() - depth as usize;
        let target = labels[keep - 1];
        labels.truncate(keep - 1);
        target
    }
}

fn memarg(offset: u64) -> MemArg {
    MemArg { align: 0, max_align: 0, offset, memory: 0 }
}

fn data(counter: u32, decr: u32) -> ExportModuleData {
    ExportModuleData {
        instructions_counter_ix: counter,
        dirty_pages_counter_ix: None,
        decr_instruction_counter_fn: decr,
        count_clean_pages_fn: None,
        start_fn_ix: None,
    }
}

fn counter_of(vm: &Vm) -> i64 {
    match vm.globals[0] {
        Val::I64(v) => v,
        other => panic!("the counter is {:?}", other),
    }
}

/// A loop that runs three times, then a `memory.fill` of 100 bytes.
fn looping_body() -> Body {
    Body {
        locals: vec![(1, ValType::I32)],
        instructions: vec![
            Instruction::I32Const { value: 3 },
            Instruction::LocalSet { local_index: 0 },
            Instruction::Loop { blockty: BlockType::Empty },
            Instruction::LocalGet { local_index: 0 },
            Instruction::I32Const { value: 1 },
            Instruction::I32Sub,
            Instruction::LocalTee { local_index: 0 },
            Instruction::BrIf { relative_depth: 0 },
            Instruction::End,
            Instruction::I32Const { value: 0 },
            Instruction::I32Const { value: 0 },
            Instruction::I32Const { value: 100 },
            Instruction::MemoryFill { mem: 0 },
            Instruction::End,
        ],
    }
}

fn module_with(body: Body, ty: FuncType) -> Module {
    Module {
        types: vec![ty],
        imports: vec![],
        functions: vec![0],
        tables: vec![],
        memories: vec![MemoryType { memory64: false, shared: false, initial: 1, maximum: None }],
        globals: vec![],
        exports: vec![],
        start: None,
        elements: vec![],
        code_sections: vec![body],
        data: vec![],
    }
}

fn machine_for(module: &Module, imports: u32) -> Vm {
    let functions = module
        .code_sections
        .iter()
        .enumerate()
        .map(|(i, body)| Function {
            params: module.types[module.functions[i] as usize].params.len(),
            body: body.clone(),
        })
        .collect();
    Vm::new(functions, imports, vec![Val::I64(0); module.globals.len()])
}

#[test]
fn counter_is_lower_by_the_cost_of_what_ran() {
    let ty = FuncType { params: vec![], results: vec![] };
    let output = instrument(
        module_with(looping_body(), ty),
        1,
        FlagStatus::Disabled,
        FlagStatus::Disabled,
        &vec![],
    )
    .unwrap();
    let mut vm = machine_for(&output.module, 2);
    vm.globals[0] = Val::I64(1000);
    vm.call(2, &mut vec![]);
    // The body costs 6 and is entered once; the loop body costs 5 and is
    // entered three times; the fill costs its length, 100.
    assert_eq!(counter_of(&vm), 1000 - 6 - 3 * 5 - 100);
    assert!(vm.host_calls.is_empty());
    assert_eq!(vm.memories[0].len(), 100);
}

#[test]
fn counter_is_lower_by_the_static_cost_on_each_path() {
    // 0: local.get 0, 1: if, 2: const, 3: local.set, 4: else, 5: const,
    // 6: local.set, 7: const, 8: local.set, 9: end, 10: end
    let body = Body {
        locals: vec![(1, ValType::I32)],
        instructions: vec![
            Instruction::LocalGet { local_index: 0 },
            Instruction::If { blockty: BlockType::Empty },
            Instruction::I32Const { value: 1 },
            Instruction::LocalSet { local_index: 1 },
            Instruction::Else,
            Instruction::I32Const { value: 2 },
            Instruction::LocalSet { local_index: 1 },
            Instruction::I32Const { value: 3 },
            Instruction::LocalSet { local_index: 1 },
            Instruction::End,
            Instruction::End,
        ],
    };
    for (argument, cost) in [(1, 2 + 2), (0, 2 + 4)] {
        let mut code = body.instructions.clone();
        inject_metering(&mut code, &data(0, 9));
        let function =
            Function { params: 1, body: Body { locals: body.locals.clone(), instructions: code } };
        let mut vm = Vm::new(vec![function], 2, vec![Val::I64(50)]);
        vm.call(2, &mut vec![Val::I32(argument)]);
        assert_eq!(counter_of(&vm), 50 - cost);
        assert!(vm.host_calls.is_empty());
    }
}

#[test]
fn dynamic_cost_is_the_length_read_as_unsigned() {
    let module = export_additional_symbols(
        module_with(Body { locals: vec![], instructions: vec![Instruction::End] }, FuncType {
            params: vec![],
            results: vec![],
        }),
        &data(0, 3),
        FlagStatus::Disabled,
        1,
    );
    let mut vm = machine_for(&module, 2);
    vm.globals[0] = Val::I64(10_000_000_000);
    let mut stack = vec![Val::I32(-1)];
    vm.call(3, &mut stack);
    assert_eq!(stack, vec![Val::I32(-1)]);
    assert_eq!(counter_of(&vm), 10_000_000_000 - 4_294_967_295);
    assert!(vm.host_calls.is_empty());

    let mut stack = vec![Val::I32(-1), Val::I32(-1)];
    vm.call(3, &mut stack);
    vm.trapped = false;
    vm.call(3, &mut stack);
    assert_eq!(counter_of(&vm), 10_000_000_000 - 3 * 4_294_967_295);
    assert_eq!(vm.host_calls, vec![0]);
}

#[test]
fn out_of_instructions_is_called_at_the_entry_of_a_function() {
    let mut code = vec![
        Instruction::I32Const { value: 7 },
        Instruction::LocalSet { local_index: 0 },
        Instruction::End,
    ];
    inject_metering(&mut code, &data(0, 9));
    let body = Body { locals: vec![(1, ValType::I32)], instructions: code };
    let mut vm = Vm::new(vec![Function { params: 0, body }], 2, vec![Val::I64(1)]);
    vm.call(2, &mut vec![]);
    assert_eq!(vm.host_calls, vec![0]);
    assert_eq!(counter_of(&vm), -1);
    // Nothing of the function ran.
    assert_eq!(vm.ran_below_zero, 5);
}

#[test]
fn counter_goes_below_zero_by_no_more_than_a_run_of_blocks_without_check() {
    let write = |address: i32| {
        vec![
            Instruction::I32Const { value: address },
            Instruction::I32Const { value: 1 },
            Instruction::I32Store8 { memarg: memarg(0) },
        ]
    };
    // A block of six instructions, then a loop of three.
    let mut code = vec![Instruction::Block { blockty: BlockType::Empty }];
    code.extend(write(8));
    code.extend(write(9));
    code.push(Instruction::End);
    code.push(Instruction::Loop { blockty: BlockType::Empty });
    code.extend(write(0));
    code.push(Instruction::End);
    code.push(Instruction::End);
    inject_metering(&mut code, &data(0, 9));
    let body = Body { locals: vec![], instructions: code };
    let mut vm = Vm::new(vec![Function { params: 0, body }], 2, vec![Val::I64(1)]);
    vm.call(2, &mut vec![]);
    // The body itself costs nothing: the counter passes its check with 1.
    // The block costs 6 and has no check: its instructions run with the
    // counter at -5. The loop is checked before its first instruction.
    assert_eq!(vm.host_calls, vec![0]);
    assert_eq!(counter_of(&vm), 1 - 6 - 3);
    let mut written: Vec<u64> = vm.memories[0].keys().copied().collect();
    written.sort();
    assert_eq!(written, vec![8, 9]);
    // Below zero ran: the six instructions of the block, its end and the
    // loop header, the four instructions of the decrement and five of the
    // check.
    let longest_run_without_check = 6;
    assert_eq!(vm.ran_below_zero, 6 + 2 + 4 + 5);
    let of_the_function = vm.ran_below_zero - 2 - 4 - 5;
    assert!(of_the_function <= longest_run_without_check);
}

#[test]
fn host_can_refuse_memory_that_the_engine_has_granted() {
    // f(x: i32) -> i32 { memory.grow(x) }
    let mut body = Body {
        locals: vec![],
        instructions: vec![
            Instruction::LocalGet { local_index: 0 },
            Instruction::MemoryGrow { mem: 0, mem_byte: 0 },
            Instruction::End,
        ],
    };
    let ty = FuncType { params: vec![ValType::I32], results: vec![ValType::I32] };
    inject_update_available_memory(&mut body, &ty);

    let mut vm = Vm::new(vec![Function { params: 1, body: body.clone() }], 2, vec![]);
    vm.pages = 1;
    vm.available_pages = 10;
    let mut stack = vec![Val::I32(4)];
    vm.call(2, &mut stack);
    assert_eq!(stack, vec![Val::I32(1)]);
    assert_eq!(vm.pages, 5);
    assert_eq!(vm.host_calls, vec![1]);

    // Too much for the host: the growth itself succeeds, the function still
    // returns the failure.
    let mut stack = vec![Val::I32(100)];
    vm.call(2, &mut stack);
    assert_eq!(stack, vec![Val::I32(-1)]);
    assert_eq!(vm.pages, 105);
    assert_eq!(vm.host_calls, vec![1, 1]);
}

#[test]
fn every_store_marks_its_page_and_no_other() {
    let stores: Vec<(Instruction, u64, Val, ValType)> = vec![
        (Instruction::I32Store { memarg: memarg(0) }, 0, Val::I32(0x01020304), ValType::I32),
        (Instruction::I32Store8 { memarg: memarg(1) }, 1, Val::I32(5), ValType::I32),
        (Instruction::I32Store16 { memarg: memarg(4095) }, 4095, Val::I32(6), ValType::I32),
        (Instruction::I64Store { memarg: memarg(4096) }, 4096, Val::I64(7), ValType::I64),
        (Instruction::I64Store8 { memarg: memarg(4097) }, 4097, Val::I64(8), ValType::I64),
        (Instruction::I64Store16 { memarg: memarg(8192) }, 8192, Val::I64(9), ValType::I64),
        (Instruction::I64Store32 { memarg: memarg(12345) }, 12345, Val::I64(10), ValType::I64),
        (Instruction::F32Store { memarg: memarg(65536) }, 65536, Val::F32(11), ValType::F32),
        (Instruction::F64Store { memarg: memarg(100_000) }, 100_000, Val::F64(12), ValType::F64),
    ];
    let addresses: [u32; 8] = [0, 1, 4095, 4096, 8191, 65535, 1_000_000, 0x7fff_0000];
    for (store, offset, value, value_type) in &stores {
        for address in addresses {
            // f(address, value) { store(address, value) }
            let mut body = Body {
                locals: vec![],
                instructions: vec![
                    Instruction::LocalGet { local_index: 0 },
                    Instruction::LocalGet { local_index: 1 },
                    *store,
                    Instruction::End,
                ],
            };
            let ty = FuncType { params: vec![ValType::I32, *value_type], results: vec![] };
            inject_mem_barrier(&mut body, &ty);
            let mut vm = Vm::new(vec![], 2, vec![]);
            vm.run(&body, vec![Val::I32(address as i32), *value]);

            let page = (address as u64 + offset) / 4096;
            let marked: Vec<(u64, u8)> = vm.memories[1].iter().map(|(k, v)| (*k, *v)).collect();
            assert_eq!(marked, vec![(page, 1)], "{:?} at {}", store, address);
            // The store itself went to the heap, at its address.
            assert!(vm.memories[0].contains_key(&(address as u64 + offset)));
        }
    }
}

#[test]
fn pages_that_are_not_written_stay_clean() {
    let mut body = Body {
        locals: vec![],
        instructions: vec![
            Instruction::I32Const { value: 5000 },
            Instruction::I32Const { value: 1 },
            Instruction::I32Store8 { memarg: memarg(0) },
            Instruction::I32Const { value: 5001 },
            Instruction::I32Const { value: 2 },
            Instruction::I32Store8 { memarg: memarg(8192) },
            Instruction::End,
        ],
    };
    inject_mem_barrier(&mut body, &FuncType { params: vec![], results: vec![] });
    let mut vm = Vm::new(vec![], 2, vec![]);
    vm.run(&body, vec![]);
    let mut marked: Vec<(u64, u8)> = vm.memories[1].iter().map(|(k, v)| (*k, *v)).collect();
    marked.sort();
    assert_eq!(marked, vec![(1, 1), (3, 1)]);
    assert_eq!(vm.memories[0].get(&5000), Some(&1));
    assert_eq!(vm.memories[0].get(&(5001 + 8192)), Some(&2));
}
