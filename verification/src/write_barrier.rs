//! The write barrier: every store marks the page that it writes to in a
//! second memory, which holds one byte for each page.

use crate::metering::extend_from_range;
use crate::model::{first_free_local_of, Body, BodyView, FuncType, Instruction, MemArg, ValType};
use vstd::prelude::*;

verus! {

/// The size of a page of the host, in bytes.
pub const PAGE_SIZE: u64 = 4096;

/// The binary logarithm of `PAGE_SIZE`.
pub const PAGE_SIZE_SHIFT: i32 = 12;

/// The index of the memory that holds one byte for each page of the heap.
pub const TRACKING_MEMORY_INDEX: u32 = 1;

/// How many locals the write barrier adds to a function.
pub const BARRIER_LOCALS: u32 = 5;

/// For a store, its immediate and the type of the value that it takes from
/// the stack.
pub open spec fn store_of(i: Instruction) -> Option<(MemArg, ValType)> {
    match i {
        Instruction::I32Store { memarg } => Some((memarg, ValType::I32)),
        Instruction::I32Store8 { memarg } => Some((memarg, ValType::I32)),
        Instruction::I32Store16 { memarg } => Some((memarg, ValType::I32)),
        Instruction::I64Store { memarg } => Some((memarg, ValType::I64)),
        Instruction::I64Store8 { memarg } => Some((memarg, ValType::I64)),
        Instruction::I64Store16 { memarg } => Some((memarg, ValType::I64)),
        Instruction::I64Store32 { memarg } => Some((memarg, ValType::I64)),
        Instruction::F32Store { memarg } => Some((memarg, ValType::F32)),
        Instruction::F64Store { memarg } => Some((memarg, ValType::F64)),
        _ => None,
    }
}

/// The static offset of a store; zero for any other instruction.
pub open spec fn store_offset(i: Instruction) -> u64 {
    match store_of(i) {
        Some((memarg, _)) => memarg.offset,
        None => 0,
    }
}

/// The store that an instruction is, if it is one.
pub fn store_operands(i: &Instruction) -> (store: Option<(MemArg, ValType)>)
    ensures
        store == store_of(*i),
{
    match i {
        Instruction::I32Store { memarg } => Some((*memarg, ValType::I32)),
        Instruction::I32Store8 { memarg } => Some((*memarg, ValType::I32)),
        Instruction::I32Store16 { memarg } => Some((*memarg, ValType::I32)),
        Instruction::I64Store { memarg } => Some((*memarg, ValType::I64)),
        Instruction::I64Store8 { memarg } => Some((*memarg, ValType::I64)),
        Instruction::I64Store16 { memarg } => Some((*memarg, ValType::I64)),
        Instruction::I64Store32 { memarg } => Some((*memarg, ValType::I64)),
        Instruction::F32Store { memarg } => Some((*memarg, ValType::F32)),
        Instruction::F64Store { memarg } => Some((*memarg, ValType::F64)),
        _ => None,
    }
}

/// The code that runs before a store with the static offset `offset`, with
/// the address and the value of the store on the stack.
///
/// It moves the value and the address to the locals `val_arg_idx` and
/// `addr_arg_idx`, writes 1 to the byte of the page of `address + offset` in
/// the tracking memory, and puts the address and the value back. Where the
/// offset is a multiple of the page size, the page of the offset is the
/// static offset of the write, and only the address is shifted.
pub open spec fn write_barrier_code(offset: u64, val_arg_idx: u32, addr_arg_idx: u32) -> Seq<
    Instruction,
> {
    if offset % PAGE_SIZE == 0 {
        seq![
            Instruction::LocalSet { local_index: val_arg_idx },
            Instruction::LocalTee { local_index: addr_arg_idx },
            Instruction::I32Const { value: PAGE_SIZE_SHIFT },
            Instruction::I32ShrU,
            Instruction::I32Const { value: 1 },
            Instruction::I32Store8 {
                memarg: MemArg {
                    align: 0,
                    max_align: 0,
                    offset: offset >> 12,
                    memory: TRACKING_MEMORY_INDEX,
                },
            },
            Instruction::LocalGet { local_index: addr_arg_idx },
            Instruction::LocalGet { local_index: val_arg_idx },
        ]
    } else {
        seq![
            Instruction::LocalSet { local_index: val_arg_idx },
            Instruction::LocalTee { local_index: addr_arg_idx },
            Instruction::I32Const { value: offset as i32 },
            Instruction::I32Add,
            Instruction::I32Const { value: PAGE_SIZE_SHIFT },
            Instruction::I32ShrU,
            Instruction::I32Const { value: 1 },
            Instruction::I32Store8 {
                memarg: MemArg {
                    align: 0,
                    max_align: 0,
                    offset: 0,
                    memory: TRACKING_MEMORY_INDEX,
                },
            },
            Instruction::LocalGet { local_index: addr_arg_idx },
            Instruction::LocalGet { local_index: val_arg_idx },
        ]
    }
}

/// Builds the code that marks the page of a store; the arguments of the
/// store are on the stack when it runs, and again when it is done.
pub fn write_barrier_instructions(offset: u64, val_arg_idx: u32, addr_arg_idx: u32) -> (code: Vec<
    Instruction,
>)
    ensures
        code@ == write_barrier_code(offset, val_arg_idx, addr_arg_idx),
{
    let mut code: Vec<Instruction> = Vec::new();
    code.push(Instruction::LocalSet { local_index: val_arg_idx });
    code.push(Instruction::LocalTee { local_index: addr_arg_idx });
    if offset % PAGE_SIZE == 0 {
        code.push(Instruction::I32Const { value: PAGE_SIZE_SHIFT });
        code.push(Instruction::I32ShrU);
        code.push(Instruction::I32Const { value: 1 });
        code.push(
            Instruction::I32Store8 {
                memarg: MemArg {
                    align: 0,
                    max_align: 0,
                    offset: offset >> 12,
                    memory: TRACKING_MEMORY_INDEX,
                },
            },
        );
    } else {
        code.push(Instruction::I32Const { value: #[verifier::truncate] (offset as i32) });
        code.push(Instruction::I32Add);
        code.push(Instruction::I32Const { value: PAGE_SIZE_SHIFT });
        code.push(Instruction::I32ShrU);
        code.push(Instruction::I32Const { value: 1 });
        code.push(
            Instruction::I32Store8 {
                memarg: MemArg {
                    align: 0,
                    max_align: 0,
                    offset: 0,
                    memory: TRACKING_MEMORY_INDEX,
                },
            },
        );
    }
    code.push(Instruction::LocalGet { local_index: addr_arg_idx });
    code.push(Instruction::LocalGet { local_index: val_arg_idx });
    assert(code@ =~= write_barrier_code(offset, val_arg_idx, addr_arg_idx));
    code
}

/// The local that holds the value of a store of type `ty`, where
/// `first_local` holds the address: one local for each of the four number
/// types, in the order `i32`, `i64`, `f32`, `f64`.
pub open spec fn value_local(first_local: u32, ty: ValType) -> u32 {
    match ty {
        ValType::I32 => (first_local + 1) as u32,
        ValType::I64 => (first_local + 2) as u32,
        ValType::F32 => (first_local + 3) as u32,
        _ => (first_local + 4) as u32,
    }
}

/// One instruction with its barrier: a store comes behind the code that
/// marks its page, any other instruction alone.
pub open spec fn with_barrier(i: Instruction, first_local: u32) -> Seq<Instruction> {
    match store_of(i) {
        Some((memarg, ty)) => write_barrier_code(
            memarg.offset,
            value_local(first_local, ty),
            first_local,
        ).push(i),
        None => seq![i],
    }
}

/// The code with a barrier before every store.
pub open spec fn with_barriers(code: Seq<Instruction>, first_local: u32) -> Seq<Instruction>
    decreases code.len(),
{
    if code.len() == 0 {
        Seq::empty()
    } else {
        with_barriers(code.drop_last(), first_local) + with_barrier(code.last(), first_local)
    }
}

/// The barriers of a piece of code do not depend on the code around it.
pub proof fn lemma_with_barriers_concat(a: Seq<Instruction>, b: Seq<Instruction>, first_local: u32)
    ensures
        with_barriers(a + b, first_local) == with_barriers(a, first_local) + with_barriers(
            b,
            first_local,
        ),
    decreases b.len(),
{
    if b.len() == 0 {
        assert(a + b =~= a);
        assert(with_barriers(a, first_local) + with_barriers(b, first_local) =~= with_barriers(
            a,
            first_local,
        ));
    } else {
        assert((a + b).drop_last() =~= a + b.drop_last());
        lemma_with_barriers_concat(a, b.drop_last(), first_local);
        assert(with_barriers(a + b, first_local) =~= with_barriers(a, first_local)
            + with_barriers(b, first_local));
    }
}

/// Whether the code holds a store.
pub open spec fn has_store(code: Seq<Instruction>) -> bool {
    exists|p: int| 0 <= p < code.len() && store_of(#[trigger] code[p]) is Some
}

/// The locals that the barrier adds: two `i32`, for the address and for a
/// value, and one of each other number type.
pub open spec fn barrier_locals() -> Seq<(u32, ValType)> {
    seq![(2u32, ValType::I32), (1u32, ValType::I64), (1u32, ValType::F32), (1u32, ValType::F64)]
}

/// A function body with the write barrier, for a function with `params`
/// parameters. A body without a store stays as it is.
pub open spec fn body_with_barriers(body: BodyView, params: nat) -> BodyView {
    if has_store(body.instructions) {
        match first_free_local_of(body.locals, params, BARRIER_LOCALS) {
            Some(first_local) => BodyView {
                locals: body.locals + barrier_locals(),
                instructions: with_barriers(body.instructions, first_local),
            },
            None => body,
        }
    } else {
        body
    }
}

/// Puts the code that marks the written page before every store of the
/// function. A function without a store gets no new local and stays as it
/// is.
pub fn inject_mem_barrier(func_body: &mut Body, func_type: &FuncType)
    requires
        has_store(old(func_body).instructions@) ==> first_free_local_of(
            old(func_body).locals@,
            func_type.params@.len(),
            BARRIER_LOCALS,
        ) is Some,
    ensures
        final(func_body)@ == body_with_barriers(old(func_body)@, func_type.params@.len()),
{
    let len = func_body.instructions.len();
    let mut found = false;
    let mut p: usize = 0;
    while p < len && !found
        invariant
            len == func_body.instructions.len(),
            *func_body == *old(func_body),
            p <= len,
            found ==> has_store(func_body.instructions@),
            !found ==> forall|q: int| 0 <= q < p ==> store_of(func_body.instructions@[q]) is None,
        decreases len - p + if found { 0int } else { 1 },
    {
        match store_operands(&func_body.instructions[p]) {
            Some(_) => {
                found = true;
            },
            None => {
                p = p + 1;
            },
        }
    }
    if !found {
        return ;
    }
    let first_local = match func_body.first_free_local(func_type.params.len(), BARRIER_LOCALS) {
        Some(first_local) => first_local,
        None => {
            return ;
        },
    };
    func_body.locals.push((2, ValType::I32));
    func_body.locals.push((1, ValType::I64));
    func_body.locals.push((1, ValType::F32));
    func_body.locals.push((1, ValType::F64));
    assert(func_body.locals@ =~= old(func_body).locals@ + barrier_locals());

    let mut elems: Vec<Instruction> = Vec::new();
    let mut p: usize = 0;
    while p < len
        invariant
            len == func_body.instructions.len(),
            func_body.instructions == old(func_body).instructions,
            func_body.locals@ == old(func_body).locals@ + barrier_locals(),
            p <= len,
            first_local + 4 <= u32::MAX,
            elems@ == with_barriers(func_body.instructions@.take(p as int), first_local),
        decreases len - p,
    {
        let instr = func_body.instructions[p];
        let ghost before = elems@;
        match store_operands(&instr) {
            Some((memarg, ty)) => {
                let val_arg_idx = match ty {
                    ValType::I32 => first_local + 1,
                    ValType::I64 => first_local + 2,
                    ValType::F32 => first_local + 3,
                    _ => first_local + 4,
                };
                let barrier = write_barrier_instructions(memarg.offset, val_arg_idx, first_local);
                let n = barrier.len();
                extend_from_range(&mut elems, &barrier, 0, n);
                assert(barrier@.subrange(0, n as int) =~= barrier@);
            },
            None => {},
        }
        elems.push(instr);
        proof {
            let prefix = func_body.instructions@.take(p + 1);
            assert(prefix.drop_last() =~= func_body.instructions@.take(p as int));
            assert(prefix.last() == instr);
            assert(elems@ =~= before + with_barrier(instr, first_local));
        }
        p = p + 1;
    }
    assert(func_body.instructions@.take(len as int) =~= func_body.instructions@);
    func_body.instructions = elems;
}

} // verus!
