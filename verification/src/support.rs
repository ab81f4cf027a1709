//! What the instrumentation adds to a module besides code in its functions:
//! the counters, the functions that the inserted code calls, and the
//! functions that take the place of calls into the host.

use crate::host_imports::{add_type, type_index, with_type};
use crate::metering::{overflow_check_code, ExportModuleData, FlagStatus, InjectedImports};
use crate::model::{
    group_views, BlockType, Body, BodyView, Export, ExportView, ExternalKind, FuncType,
    FuncTypeView, Global, GlobalType, GlobalView, Instruction, MemArg, Module, ModuleView, ValType,
};

use vstd::prelude::*;
use wasm_encoder::Encode;

verus! {

/// The name of the export of the instructions counter.
pub const CANISTER_COUNTER_INSTRUCTIONS_STR: &'static str = "canister counter_instructions";

/// The name of the export of the counter of dirty pages.
pub const CANISTER_COUNTER_DIRTY_PAGES_STR: &'static str = "canister counter_dirty_pages";

/// The name under which the start function of the module is exported.
pub const CANISTER_START_STR: &'static str = "canister_start";

/// The module name of the imports that functions of the module can replace.
pub const API_VERSION_IC0: &'static str = "ic0";

/// The encoding of the initializer of a counter: `i64.const 0`, `end`.
pub open spec fn zero_init_expr() -> Seq<u8> {
    seq![0x42u8, 0x00u8, 0x0bu8]
}

/// A counter: a mutable `i64` global that starts at zero.
pub open spec fn counter_global() -> GlobalView {
    GlobalView {
        ty: GlobalType { content_type: ValType::I64, mutable: true },
        init_expr: zero_init_expr(),
    }
}

/// The signature of the function that charges a dynamic cost.
pub open spec fn decr_instruction_counter_type() -> FuncTypeView {
    FuncTypeView { params: seq![ValType::I32], results: seq![ValType::I32] }
}

/// The function that charges a dynamic cost: it takes its argument, read as
/// unsigned, from the counter, calls `out_of_instructions` if the counter
/// is below zero, and returns its argument.
pub open spec fn decr_instruction_counter_body(counter: u32) -> BodyView {
    BodyView {
        locals: seq![],
        instructions: seq![
            Instruction::GlobalGet { global_index: counter },
            Instruction::LocalGet { local_index: 0 },
            Instruction::I64ExtendI32U,
            Instruction::I64Sub,
            Instruction::GlobalSet { global_index: counter },
        ] + overflow_check_code(counter) + seq![
            Instruction::LocalGet { local_index: 0 },
            Instruction::End,
        ],
    }
}

/// The signature of the function that counts clean pages.
pub open spec fn count_clean_pages_type() -> FuncTypeView {
    FuncTypeView { params: seq![ValType::I32, ValType::I32], results: seq![ValType::I32] }
}

/// Reads the byte of a page from the bytemap `bytemap`.
pub open spec fn bytemap_load(bytemap: u32) -> Instruction {
    Instruction::I32Load8U { memarg: MemArg { align: 0, max_align: 0, offset: 0, memory: bytemap } }
}

/// The function that counts the clean pages among the pages from its first
/// argument up to, not including, its second: it adds up the bytes of the
/// bytemap `bytemap` for these pages and takes the sum from their number.
/// Local 2 runs through the pages, local 3 holds the sum.
pub open spec fn count_clean_pages_body(bytemap: u32) -> BodyView {
    BodyView {
        locals: seq![(2u32, ValType::I32)],
        instructions: seq![
            Instruction::I32Const { value: 0 },
            Instruction::LocalSet { local_index: 3 },
            Instruction::LocalGet { local_index: 0 },
            Instruction::LocalSet { local_index: 2 },
            Instruction::Loop { blockty: BlockType::Empty },
            Instruction::LocalGet { local_index: 2 },
            bytemap_load(bytemap),
            Instruction::LocalGet { local_index: 3 },
            Instruction::I32Add,
            Instruction::LocalSet { local_index: 3 },
            Instruction::LocalGet { local_index: 2 },
            Instruction::I32Const { value: 1 },
            Instruction::I32Add,
            Instruction::LocalTee { local_index: 2 },
            Instruction::LocalGet { local_index: 1 },
            Instruction::I32LtU,
            Instruction::BrIf { relative_depth: 0 },
            Instruction::End,
            Instruction::LocalGet { local_index: 1 },
            Instruction::LocalGet { local_index: 0 },
            Instruction::I32Sub,
            Instruction::LocalGet { local_index: 3 },
            Instruction::I32Sub,
            Instruction::End,
        ],
    }
}

/// The module with one more function, of the given signature and body.
pub open spec fn with_function(m: ModuleView, ty: FuncTypeView, body: BodyView) -> ModuleView {
    ModuleView {
        types: with_type(m.types, ty),
        functions: m.functions.push(type_index(m.types, ty) as u32),
        code_sections: m.code_sections.push(body),
        ..m
    }
}

/// The exports of what the instrumentation adds: the instructions counter;
/// the counter of dirty pages, if there is one; the start function that the
/// module had, if it had one.
pub open spec fn additional_exports(data: ExportModuleData) -> Seq<ExportView> {
    let counter = seq![
        ExportView {
            name: CANISTER_COUNTER_INSTRUCTIONS_STR@,
            kind: ExternalKind::Global,
            index: data.instructions_counter_ix,
        },
    ];
    let dirty = match data.dirty_pages_counter_ix {
        Some(index) => seq![
            ExportView {
                name: CANISTER_COUNTER_DIRTY_PAGES_STR@,
                kind: ExternalKind::Global,
                index,
            },
        ],
        None => seq![],
    };
    let start = match data.start_fn_ix {
        Some(index) => seq![
            ExportView { name: CANISTER_START_STR@, kind: ExternalKind::Func, index },
        ],
        None => seq![],
    };
    counter + dirty + start
}

/// The module with what the inserted code needs: as its last functions, the
/// one that charges a dynamic cost and, with the stable memory, the one that
/// counts clean pages; as its last globals, the instructions counter and,
/// with the stable memory, the counter of dirty pages; and the exports of
/// the counters and of the start function.
pub open spec fn with_additional_symbols(
    m: ModuleView,
    data: ExportModuleData,
    wasm_native_stable_memory: FlagStatus,
    stable_memory_bytemap_index: u32,
) -> ModuleView {
    let stable = wasm_native_stable_memory == FlagStatus::Enabled;
    let m1 = with_function(
        m,
        decr_instruction_counter_type(),
        decr_instruction_counter_body(data.instructions_counter_ix),
    );
    let m2 = if stable {
        with_function(
            m1,
            count_clean_pages_type(),
            count_clean_pages_body(stable_memory_bytemap_index),
        )
    } else {
        m1
    };
    ModuleView {
        exports: m2.exports + additional_exports(data),
        globals: if stable {
            m2.globals.push(counter_global()).push(counter_global())
        } else {
            m2.globals.push(counter_global())
        },
        ..m2
    }
}

/// Adds a function to the module.
pub fn push_function(module: &mut Module, ty: FuncType, body: Body)
    requires
        old(module).types.len() <= u32::MAX,
    ensures
        final(module)@ == with_function(old(module)@, ty@, body@),
{
    broadcast use group_views;

    let type_idx = add_type(module, ty);
    module.functions.push(type_idx);
    module.code_sections.push(body);
}

/// Encodes the initializer `i64.const 0` with `wasm-encoder`:
/// `ConstExpr::i64_const(0).encode(..)`.
///
/// The encoder writes the opcode of `i64.const`, 0x42, the constant as a
/// signed LEB128 number, which for zero is the one byte 0x00, and the
/// opcode of the `end` that closes every constant expression, 0x0b.
#[verifier::external_body]
fn encode_zero_init_expr() -> (bytes: Vec<u8>)
    ensures
        bytes@ == zero_init_expr(),
{
    let mut bytes = Vec::new();
    wasm_encoder::ConstExpr::i64_const(0).encode(&mut bytes);
    bytes
}

fn new_counter_global() -> (global: Global)
    ensures
        global@ == counter_global(),
{
    Global {
        ty: GlobalType { content_type: ValType::I64, mutable: true },
        init_expr: encode_zero_init_expr(),
    }
}

fn new_decr_instruction_counter_body(counter: u32) -> (body: Body)
    ensures
        body@ == decr_instruction_counter_body(counter),
{
    let mut instructions: Vec<Instruction> = Vec::new();
    // Take the argument from the instructions counter.
    instructions.push(Instruction::GlobalGet { global_index: counter });
    instructions.push(Instruction::LocalGet { local_index: 0 });
    instructions.push(Instruction::I64ExtendI32U);
    instructions.push(Instruction::I64Sub);
    instructions.push(Instruction::GlobalSet { global_index: counter });
    // Call out_of_instructions() if the counter is below zero.
    instructions.push(Instruction::GlobalGet { global_index: counter });
    instructions.push(Instruction::I64Const { value: 0 });
    instructions.push(Instruction::I64LtS);
    instructions.push(Instruction::If { blockty: BlockType::Empty });
    instructions.push(
        Instruction::Call { function_index: InjectedImports::OutOfInstructions.index() },
    );
    instructions.push(Instruction::End);
    // Return the argument, so that the stack is as it was.
    instructions.push(Instruction::LocalGet { local_index: 0 });
    instructions.push(Instruction::End);
    let body = Body { locals: Vec::new(), instructions };
    assert(body@.instructions =~= decr_instruction_counter_body(counter).instructions);
    assert(body@.locals =~= decr_instruction_counter_body(counter).locals);
    body
}

fn new_count_clean_pages_body(bytemap: u32) -> (body: Body)
    ensures
        body@ == count_clean_pages_body(bytemap),
{
    let it: u32 = 2;
    let acc: u32 = 3;
    let mut instructions: Vec<Instruction> = Vec::new();
    instructions.push(Instruction::I32Const { value: 0 });
    instructions.push(Instruction::LocalSet { local_index: acc });
    instructions.push(Instruction::LocalGet { local_index: 0 });
    instructions.push(Instruction::LocalSet { local_index: it });
    instructions.push(Instruction::Loop { blockty: BlockType::Empty });
    instructions.push(Instruction::LocalGet { local_index: it });
    instructions.push(
        Instruction::I32Load8U {
            memarg: MemArg { align: 0, max_align: 0, offset: 0, memory: bytemap },
        },
    );
    instructions.push(Instruction::LocalGet { local_index: acc });
    instructions.push(Instruction::I32Add);
    instructions.push(Instruction::LocalSet { local_index: acc });
    instructions.push(Instruction::LocalGet { local_index: it });
    instructions.push(Instruction::I32Const { value: 1 });
    instructions.push(Instruction::I32Add);
    instructions.push(Instruction::LocalTee { local_index: it });
    instructions.push(Instruction::LocalGet { local_index: 1 });
    instructions.push(Instruction::I32LtU);
    instructions.push(Instruction::BrIf { relative_depth: 0 });
    instructions.push(Instruction::End);
    // clean pages = length of the range - dirty pages
    instructions.push(Instruction::LocalGet { local_index: 1 });
    instructions.push(Instruction::LocalGet { local_index: 0 });
    instructions.push(Instruction::I32Sub);
    instructions.push(Instruction::LocalGet { local_index: acc });
    instructions.push(Instruction::I32Sub);
    instructions.push(Instruction::End);
    let mut locals: Vec<(u32, ValType)> = Vec::new();
    locals.push((2, ValType::I32));
    let body = Body { locals, instructions };
    assert(body@.instructions =~= count_clean_pages_body(bytemap).instructions);
    assert(body@.locals =~= count_clean_pages_body(bytemap).locals);
    body
}

/// Adds to the module what the inserted code needs: the function that
/// charges a dynamic cost, the counters, and their exports; the start
/// function that the module had is exported too.
pub fn export_additional_symbols(
    module: Module,
    export_module_data: &ExportModuleData,
    wasm_native_stable_memory: FlagStatus,
    stable_memory_bytemap_index: u32,
) -> (result: Module)
    requires
        module.types.len() + 2 <= u32::MAX,
    ensures
        result@ == with_additional_symbols(
            module@,
            *export_module_data,
            wasm_native_stable_memory,
            stable_memory_bytemap_index,
        ),
{
    broadcast use group_views;

    let mut module = module;
    let ghost before = module@;
    let mut params: Vec<ValType> = Vec::new();
    params.push(ValType::I32);
    let mut results: Vec<ValType> = Vec::new();
    results.push(ValType::I32);
    let func_type = FuncType { params, results };
    assert(func_type@.params =~= decr_instruction_counter_type().params);
    assert(func_type@.results =~= decr_instruction_counter_type().results);
    let func_body = new_decr_instruction_counter_body(export_module_data.instructions_counter_ix);
    push_function(&mut module, func_type, func_body);
    assert(module.types@.len() == module@.types.len());

    if wasm_native_stable_memory == FlagStatus::Enabled {
        let mut params: Vec<ValType> = Vec::new();
        params.push(ValType::I32);
        params.push(ValType::I32);
        let mut results: Vec<ValType> = Vec::new();
        results.push(ValType::I32);
        let func_type = FuncType { params, results };
        assert(func_type@.params =~= count_clean_pages_type().params);
        assert(func_type@.results =~= count_clean_pages_type().results);
        let func_body = new_count_clean_pages_body(stable_memory_bytemap_index);
        push_function(&mut module, func_type, func_body);
    }
    let ghost with_functions = module@;

    // The host reads and sets the counters through their exports.
    module.exports.push(
        Export {
            name: CANISTER_COUNTER_INSTRUCTIONS_STR.to_owned(),
            kind: ExternalKind::Global,
            index: export_module_data.instructions_counter_ix,
        },
    );
    if let Some(index) = export_module_data.dirty_pages_counter_ix {
        module.exports.push(
            Export {
                name: CANISTER_COUNTER_DIRTY_PAGES_STR.to_owned(),
                kind: ExternalKind::Global,
                index,
            },
        );
    }
    if let Some(index) = export_module_data.start_fn_ix {
        module.exports.push(
            Export { name: CANISTER_START_STR.to_owned(), kind: ExternalKind::Func, index },
        );
    }
    assert(module@.exports =~= with_functions.exports + additional_exports(*export_module_data));

    module.globals.push(new_counter_global());
    if wasm_native_stable_memory == FlagStatus::Enabled {
        module.globals.push(new_counter_global());
    }
    module
}

} // verus!
