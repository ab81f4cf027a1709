//! The growth guard: after every `memory.grow` the host is asked whether the
//! module may have the memory.

use crate::metering::InjectedImports;
use crate::model::{first_free_local_of, Body, BodyView, FuncType, Instruction, ValType};
use vstd::prelude::*;

verus! {

/// How many locals the growth guard adds to a function.
pub const GROW_LOCALS: u32 = 1;

/// Whether the instruction is a `memory.grow`.
pub open spec fn is_memory_grow(i: Instruction) -> bool {
    i is MemoryGrow
}

/// One instruction with its guard. A `memory.grow` is replaced by code that
/// keeps the requested number of pages in the local `local`, grows the
/// memory, and calls `update_available_memory` with the result of the growth
/// and the request; what the host returns takes the place of the result.
pub open spec fn with_grow_guard(i: Instruction, local: u32) -> Seq<Instruction> {
    if is_memory_grow(i) {
        seq![
            Instruction::LocalTee { local_index: local },
            i,
            Instruction::LocalGet { local_index: local },
            Instruction::Call {
                function_index: InjectedImports::UpdateAvailableMemory.spec_index(),
            },
        ]
    } else {
        seq![i]
    }
}

/// The code with a guard at every `memory.grow`.
pub open spec fn with_grow_guards(code: Seq<Instruction>, local: u32) -> Seq<Instruction>
    decreases code.len(),
{
    if code.len() == 0 {
        Seq::empty()
    } else {
        with_grow_guards(code.drop_last(), local) + with_grow_guard(code.last(), local)
    }
}

/// The guards of a piece of code do not depend on the code around it.
pub proof fn lemma_with_grow_guards_concat(a: Seq<Instruction>, b: Seq<Instruction>, local: u32)
    ensures
        with_grow_guards(a + b, local) == with_grow_guards(a, local) + with_grow_guards(b, local),
    decreases b.len(),
{
    if b.len() == 0 {
        assert(a + b =~= a);
        assert(with_grow_guards(a, local) + with_grow_guards(b, local) =~= with_grow_guards(
            a,
            local,
        ));
    } else {
        assert((a + b).drop_last() =~= a + b.drop_last());
        lemma_with_grow_guards_concat(a, b.drop_last(), local);
        assert(with_grow_guards(a + b, local) =~= with_grow_guards(a, local) + with_grow_guards(
            b,
            local,
        ));
    }
}

/// Whether the code holds a `memory.grow`.
pub open spec fn has_memory_grow(code: Seq<Instruction>) -> bool {
    exists|p: int| 0 <= p < code.len() && is_memory_grow(#[trigger] code[p])
}

/// A function body with the growth guard, for a function with `params`
/// parameters. A body without a `memory.grow` stays as it is; any other gets
/// one more `i32` local, which all its guards use.
pub open spec fn body_with_grow_guards(body: BodyView, params: nat) -> BodyView {
    if has_memory_grow(body.instructions) {
        match first_free_local_of(body.locals, params, GROW_LOCALS) {
            Some(local) => BodyView {
                locals: body.locals.push((1u32, ValType::I32)),
                instructions: with_grow_guards(body.instructions, local),
            },
            None => body,
        }
    } else {
        body
    }
}

/// Puts a call of `update_available_memory` behind every `memory.grow` of the
/// function, so that the host can refuse memory that the module is not
/// allowed to have. A function without a `memory.grow` stays as it is.
pub fn inject_update_available_memory(func_body: &mut Body, func_type: &FuncType)
    requires
        has_memory_grow(old(func_body).instructions@) ==> first_free_local_of(
            old(func_body).locals@,
            func_type.params@.len(),
            GROW_LOCALS,
        ) is Some,
    ensures
        final(func_body)@ == body_with_grow_guards(old(func_body)@, func_type.params@.len()),
{
    let len = func_body.instructions.len();
    let mut found = false;
    let mut p: usize = 0;
    while p < len && !found
        invariant
            len == func_body.instructions.len(),
            *func_body == *old(func_body),
            p <= len,
            found ==> has_memory_grow(func_body.instructions@),
            !found ==> forall|q: int| 0 <= q < p ==> !is_memory_grow(func_body.instructions@[q]),
        decreases len - p + if found { 0int } else { 1 },
    {
        match func_body.instructions[p] {
            Instruction::MemoryGrow { .. } => {
                found = true;
            },
            _ => {
                p = p + 1;
            },
        }
    }
    if !found {
        return ;
    }
    let memory_local_ix = match func_body.first_free_local(func_type.params.len(), GROW_LOCALS) {
        Some(local) => local,
        None => {
            return ;
        },
    };
    func_body.locals.push((1, ValType::I32));

    let mut elems: Vec<Instruction> = Vec::new();
    let mut p: usize = 0;
    while p < len
        invariant
            len == func_body.instructions.len(),
            func_body.instructions == old(func_body).instructions,
            func_body.locals@ == old(func_body).locals@.push((1u32, ValType::I32)),
            p <= len,
            elems@ == with_grow_guards(func_body.instructions@.take(p as int), memory_local_ix),
        decreases len - p,
    {
        let instr = func_body.instructions[p];
        let ghost before = elems@;
        match instr {
            Instruction::MemoryGrow { .. } => {
                elems.push(Instruction::LocalTee { local_index: memory_local_ix });
                elems.push(instr);
                elems.push(Instruction::LocalGet { local_index: memory_local_ix });
                elems.push(
                    Instruction::Call {
                        function_index: InjectedImports::UpdateAvailableMemory.index(),
                    },
                );
            },
            _ => {
                elems.push(instr);
            },
        }
        proof {
            let prefix = func_body.instructions@.take(p + 1);
            assert(prefix.drop_last() =~= func_body.instructions@.take(p as int));
            assert(prefix.last() == instr);
            assert(elems@ =~= before + with_grow_guard(instr, memory_local_ix));
        }
        p = p + 1;
    }
    assert(func_body.instructions@.take(len as int) =~= func_body.instructions@);
    func_body.instructions = elems;
}

} // verus!
