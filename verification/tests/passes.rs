use wasm_instrument::data::{get_data, Segment, Segments};
use wasm_instrument::error::WasmInstrumentationError;
use wasm_instrument::exports::{
    export_mutable_globals, export_table, update_memories, BYTEMAP_SIZE_IN_WASM_PAGES,
    MAX_STABLE_MEMORY_IN_WASM_PAGES, STABLE_BYTEMAP_SIZE_IN_WASM_PAGES,
};
use wasm_instrument::host_imports::{add_type, func_type_eq, inject_helper_functions};
use wasm_instrument::memory_grow::inject_update_available_memory;
use wasm_instrument::metering::{ExportModuleData, FlagStatus};
use wasm_instrument::model::{
    BlockType, Body, DataSegment, DataSegmentKind, ElementItems, ElementKind, ElementSegment,
    Export, ExternalKind, FuncType, Global, GlobalType, Import, Instruction, MemArg, MemoryType,
    Module, SourceRange, TableType, TypeRef, ValType,
};
use wasm_instrument::renumber::{mutate_function_indices, FunctionIndexMap};
use wasm_instrument::replacements::{
    calculate_api_index, count_function_imports, count_global_imports,
    replace_system_api_functions, Replacement,
};
use wasm_instrument::support::{export_additional_symbols, push_function};
use wasm_instrument::write_barrier::{
    inject_mem_barrier, store_operands, write_barrier_instructions,
};

fn empty_module() -> Module {
    Module {
        types: vec![],
        imports: vec![],
        functions: vec![],
        tables: vec![],
        memories: vec![],
        globals: vec![],
        exports: vec![],
        start: None,
        elements: vec![],
        code_sections: vec![],
        data: vec![],
    }
}

fn other() -> Instruction {
    Instruction::Other { source: SourceRange { start: 10, end: 12 } }
}

fn memarg(offset: u64) -> MemArg {
    MemArg { align: 2, max_align: 2, offset, memory: 0 }
}

fn func_type(params: Vec<ValType>, results: Vec<ValType>) -> FuncType {
    FuncType { params, results }
}

fn export(name: &str, kind: ExternalKind, index: u32) -> Export {
    Export { name: name.to_string(), kind, index }
}

fn import(module: &str, name: &str, ty: TypeRef) -> Import {
    Import { module: module.to_string(), name: name.to_string(), ty }
}

fn memory(initial: u64) -> MemoryType {
    MemoryType { memory64: false, shared: false, initial, maximum: None }
}

fn global(mutable: bool) -> Global {
    Global {
        ty: GlobalType { content_type: ValType::I32, mutable },
        init_expr: vec![0x41, 0x00, 0x0b],
    }
}

fn table() -> TableType {
    TableType { element_type: ValType::FuncRef, initial: 1, maximum: None }
}

fn tracking_store(offset: u64) -> Instruction {
    Instruction::I32Store8 { memarg: MemArg { align: 0, max_align: 0, offset, memory: 1 } }
}

fn aligned_barrier(offset: u64, val: u32, addr: u32) -> Vec<Instruction> {
    vec![
        Instruction::LocalSet { local_index: val },
        Instruction::LocalTee { local_index: addr },
        Instruction::I32Const { value: 12 },
        Instruction::I32ShrU,
        Instruction::I32Const { value: 1 },
        tracking_store(offset >> 12),
        Instruction::LocalGet { local_index: addr },
        Instruction::LocalGet { local_index: val },
    ]
}

fn unaligned_barrier(offset: i32, val: u32, addr: u32) -> Vec<Instruction> {
    vec![
        Instruction::LocalSet { local_index: val },
        Instruction::LocalTee { local_index: addr },
        Instruction::I32Const { value: offset },
        Instruction::I32Add,
        Instruction::I32Const { value: 12 },
        Instruction::I32ShrU,
        Instruction::I32Const { value: 1 },
        tracking_store(0),
        Instruction::LocalGet { local_index: addr },
        Instruction::LocalGet { local_index: val },
    ]
}

#[test]
fn barrier_for_aligned_offset_shifts_the_address_only() {
    assert_eq!(write_barrier_instructions(0, 4, 3), aligned_barrier(0, 4, 3));
    assert_eq!(write_barrier_instructions(8192, 7, 6), aligned_barrier(8192, 7, 6));
    assert_eq!(
        write_barrier_instructions(8192, 7, 6)[5],
        tracking_store(2)
    );
}

#[test]
fn barrier_for_unaligned_offset_adds_the_offset_first() {
    assert_eq!(write_barrier_instructions(5, 4, 3), unaligned_barrier(5, 4, 3));
    assert_eq!(write_barrier_instructions(4097, 1, 0), unaligned_barrier(4097, 1, 0));
    // The offset is cut to 32 bits.
    assert_eq!(write_barrier_instructions(0xffff_ffff, 1, 0), unaligned_barrier(-1, 1, 0));
}

#[test]
fn store_operands_tells_stores_from_other_instructions() {
    let m = memarg(3);
    assert_eq!(store_operands(&Instruction::I32Store { memarg: m }), Some((m, ValType::I32)));
    assert_eq!(store_operands(&Instruction::I32Store8 { memarg: m }), Some((m, ValType::I32)));
    assert_eq!(store_operands(&Instruction::I32Store16 { memarg: m }), Some((m, ValType::I32)));
    assert_eq!(store_operands(&Instruction::I64Store { memarg: m }), Some((m, ValType::I64)));
    assert_eq!(store_operands(&Instruction::I64Store8 { memarg: m }), Some((m, ValType::I64)));
    assert_eq!(store_operands(&Instruction::I64Store16 { memarg: m }), Some((m, ValType::I64)));
    assert_eq!(store_operands(&Instruction::I64Store32 { memarg: m }), Some((m, ValType::I64)));
    assert_eq!(store_operands(&Instruction::F32Store { memarg: m }), Some((m, ValType::F32)));
    assert_eq!(store_operands(&Instruction::F64Store { memarg: m }), Some((m, ValType::F64)));
    assert_eq!(store_operands(&Instruction::I32Load8U { memarg: m }), None);
    assert_eq!(store_operands(&other()), None);
}

#[test]
fn function_without_store_is_left_alone_by_the_barrier() {
    let untouched = Body {
        locals: vec![(3, ValType::I64)],
        instructions: vec![other(), Instruction::I32Load8U { memarg: memarg(0) }, Instruction::End],
    };
    let mut body = untouched.clone();
    inject_mem_barrier(&mut body, &func_type(vec![ValType::I32], vec![]));
    assert_eq!(body, untouched);
}

#[test]
fn barrier_uses_one_local_for_each_value_type() {
    // Two parameters and 3 + 1 locals: the new locals start at 6.
    let mut body = Body {
        locals: vec![(3, ValType::I64), (1, ValType::F32)],
        instructions: vec![
            Instruction::I32Store { memarg: memarg(0) },
            other(),
            Instruction::I64Store16 { memarg: memarg(4096) },
            Instruction::F32Store { memarg: memarg(7) },
            Instruction::F64Store { memarg: memarg(0) },
            Instruction::I32Store8 { memarg: memarg(1) },
            Instruction::End,
        ],
    };
    inject_mem_barrier(&mut body, &func_type(vec![ValType::I32, ValType::I32], vec![]));
    assert_eq!(
        body.locals,
        vec![
            (3, ValType::I64),
            (1, ValType::F32),
            (2, ValType::I32),
            (1, ValType::I64),
            (1, ValType::F32),
            (1, ValType::F64),
        ]
    );
    let mut expected = aligned_barrier(0, 7, 6);
    expected.push(Instruction::I32Store { memarg: memarg(0) });
    expected.push(other());
    expected.extend(aligned_barrier(4096, 8, 6));
    expected.push(Instruction::I64Store16 { memarg: memarg(4096) });
    expected.extend(unaligned_barrier(7, 9, 6));
    expected.push(Instruction::F32Store { memarg: memarg(7) });
    expected.extend(aligned_barrier(0, 10, 6));
    expected.push(Instruction::F64Store { memarg: memarg(0) });
    expected.extend(unaligned_barrier(1, 7, 6));
    expected.push(Instruction::I32Store8 { memarg: memarg(1) });
    expected.push(Instruction::End);
    assert_eq!(body.instructions, expected);
}

#[test]
fn function_without_memory_grow_is_left_alone_by_the_guard() {
    let untouched = Body { locals: vec![], instructions: vec![other(), Instruction::End] };
    let mut body = untouched.clone();
    inject_update_available_memory(&mut body, &func_type(vec![], vec![]));
    assert_eq!(body, untouched);
}

#[test]
fn every_memory_grow_is_guarded_with_the_same_local() {
    let grow = Instruction::MemoryGrow { mem: 0, mem_byte: 0 };
    let mut body = Body {
        locals: vec![(2, ValType::I32)],
        instructions: vec![
            Instruction::LocalGet { local_index: 0 },
            grow,
            grow,
            Instruction::End,
        ],
    };
    inject_update_available_memory(&mut body, &func_type(vec![ValType::I32], vec![ValType::I32]));
    assert_eq!(body.locals, vec![(2, ValType::I32), (1, ValType::I32)]);
    assert_eq!(
        body.instructions,
        vec![
            Instruction::LocalGet { local_index: 0 },
            Instruction::LocalTee { local_index: 3 },
            grow,
            Instruction::LocalGet { local_index: 3 },
            Instruction::Call { function_index: 1 },
            Instruction::LocalTee { local_index: 3 },
            grow,
            Instruction::LocalGet { local_index: 3 },
            Instruction::Call { function_index: 1 },
            Instruction::End,
        ]
    );
}

#[test]
fn first_free_local_counts_parameters_and_locals() {
    let body = Body { locals: vec![(3, ValType::I64), (2, ValType::I32)], instructions: vec![] };
    assert_eq!(body.first_free_local(4, 6), Some(9));
    assert_eq!(Body { locals: vec![], instructions: vec![] }.first_free_local(0, 0), Some(0));
    let full = Body { locals: vec![(u32::MAX - 5, ValType::I32)], instructions: vec![] };
    assert_eq!(full.first_free_local(0, 5), Some(u32::MAX - 5));
    assert_eq!(full.first_free_local(0, 6), None);
    assert_eq!(full.first_free_local(1, 5), None);
    let over = Body {
        locals: vec![(u32::MAX, ValType::I32), (u32::MAX, ValType::I32)],
        instructions: vec![],
    };
    assert_eq!(over.first_free_local(0, 0), None);
}

#[test]
fn duplicates_are_equal() {
    let ty = func_type(vec![ValType::I32, ValType::F64], vec![ValType::I64]);
    assert_eq!(ty.duplicate(), ty);
    let body = Body { locals: vec![(1, ValType::V128)], instructions: vec![other(), Instruction::End] };
    assert_eq!(body.duplicate(), body);
}

#[test]
fn export_table_renames_an_exported_table() {
    let mut module = empty_module();
    module.tables = vec![table()];
    module.exports = vec![
        export("f", ExternalKind::Func, 0),
        export("my_table", ExternalKind::Table, 0),
        export("m", ExternalKind::Memory, 0),
    ];
    let module = export_table(module);
    assert_eq!(
        module.exports,
        vec![
            export("f", ExternalKind::Func, 0),
            export("table", ExternalKind::Table, 0),
            export("m", ExternalKind::Memory, 0),
        ]
    );
}

#[test]
fn export_table_exports_an_unexported_table() {
    let mut module = empty_module();
    module.tables = vec![table()];
    module.exports = vec![export("f", ExternalKind::Func, 0)];
    let module = export_table(module);
    assert_eq!(
        module.exports,
        vec![export("f", ExternalKind::Func, 0), export("table", ExternalKind::Table, 0)]
    );
}

#[test]
fn export_table_without_table_changes_nothing() {
    let mut module = empty_module();
    module.exports = vec![export("f", ExternalKind::Func, 0)];
    let expected = module.clone();
    assert_eq!(export_table(module), expected);
}

#[test]
fn export_table_twice_is_export_table_once() {
    let mut module = empty_module();
    module.tables = vec![table()];
    module.exports = vec![export("t", ExternalKind::Table, 0), export("g", ExternalKind::Global, 0)];
    let once = export_table(module.clone());
    assert_eq!(export_table(once.clone()), once);

    let mut unexported = empty_module();
    unexported.tables = vec![table()];
    let once = export_table(unexported);
    assert_eq!(export_table(once.clone()), once);
}

#[test]
fn update_memories_without_flags_only_normalizes_the_export() {
    let mut module = empty_module();
    module.memories = vec![memory(2)];
    module.exports = vec![export("heap", ExternalKind::Memory, 0)];
    let (module, stable) = update_memories(module, FlagStatus::Disabled, FlagStatus::Disabled);
    assert_eq!(stable, 0);
    assert_eq!(module.memories, vec![memory(2)]);
    assert_eq!(module.exports, vec![export("memory", ExternalKind::Memory, 0)]);

    let (again, _) = update_memories(module.clone(), FlagStatus::Disabled, FlagStatus::Disabled);
    assert_eq!(again, module);
}

#[test]
fn update_memories_exports_an_unexported_memory() {
    let mut module = empty_module();
    module.memories = vec![memory(2)];
    let (module, _) = update_memories(module, FlagStatus::Disabled, FlagStatus::Disabled);
    assert_eq!(module.exports, vec![export("memory", ExternalKind::Memory, 0)]);
}

#[test]
fn update_memories_adds_the_bytemap_of_the_heap() {
    let mut module = empty_module();
    module.memories = vec![memory(2)];
    let (module, stable) = update_memories(module, FlagStatus::Enabled, FlagStatus::Disabled);
    assert_eq!(stable, 0);
    assert_eq!(BYTEMAP_SIZE_IN_WASM_PAGES, 16);
    assert_eq!(
        module.memories,
        vec![
            memory(2),
            MemoryType { memory64: false, shared: false, initial: 16, maximum: Some(16) },
        ]
    );
    assert_eq!(
        module.exports,
        vec![
            export("memory", ExternalKind::Memory, 0),
            export("bytemap_memory", ExternalKind::Memory, 1),
        ]
    );
}

#[test]
fn update_memories_adds_no_bytemap_without_a_heap() {
    let (module, stable) = update_memories(empty_module(), FlagStatus::Enabled, FlagStatus::Disabled);
    assert_eq!(stable, 0);
    assert_eq!(module, empty_module());
}

#[test]
fn update_memories_adds_the_stable_memory_and_its_bytemap() {
    let mut module = empty_module();
    module.memories = vec![memory(2)];
    let (module, stable) = update_memories(module, FlagStatus::Enabled, FlagStatus::Enabled);
    assert_eq!(stable, 2);
    assert_eq!(MAX_STABLE_MEMORY_IN_WASM_PAGES, 786432);
    assert_eq!(STABLE_BYTEMAP_SIZE_IN_WASM_PAGES, 192);
    assert_eq!(module.memories.len(), 4);
    assert_eq!(
        module.memories[2],
        MemoryType { memory64: true, shared: false, initial: 0, maximum: Some(786432) }
    );
    assert_eq!(
        module.memories[3],
        MemoryType { memory64: false, shared: false, initial: 192, maximum: Some(192) }
    );
    assert_eq!(
        module.exports,
        vec![
            export("memory", ExternalKind::Memory, 0),
            export("bytemap_memory", ExternalKind::Memory, 1),
            export("stable_memory", ExternalKind::Memory, 2),
            export("stable_memory_bytemap", ExternalKind::Memory, 3),
        ]
    );
}

#[test]
fn stable_memory_follows_the_memories_that_are_there() {
    let (module, stable) = update_memories(empty_module(), FlagStatus::Disabled, FlagStatus::Enabled);
    assert_eq!(stable, 0);
    assert_eq!(module.memories.len(), 2);
    assert_eq!(module.exports[1], export("stable_memory_bytemap", ExternalKind::Memory, 1));

    let mut with_heap = empty_module();
    with_heap.memories = vec![memory(1)];
    let (module, stable) = update_memories(with_heap, FlagStatus::Disabled, FlagStatus::Enabled);
    assert_eq!(stable, 1);
    assert_eq!(module.exports[2], export("stable_memory_bytemap", ExternalKind::Memory, 2));
}

#[test]
fn mutable_globals_without_export_are_exported() {
    let mut module = empty_module();
    module.globals = vec![global(true), global(false), global(true), global(true)];
    module.exports = vec![export("g2", ExternalKind::Global, 2), export("f", ExternalKind::Func, 0)];
    let module = export_mutable_globals(module);
    assert_eq!(
        module.exports,
        vec![
            export("g2", ExternalKind::Global, 2),
            export("f", ExternalKind::Func, 0),
            export("__persistent_mutable_global_0", ExternalKind::Global, 0),
            export("__persistent_mutable_global_3", ExternalKind::Global, 3),
        ]
    );
}

#[test]
fn export_names_of_globals_are_decimal() {
    let mut module = empty_module();
    module.globals = (0..124).map(|i| global(i == 10 || i == 109 || i == 123)).collect();
    let module = export_mutable_globals(module);
    assert_eq!(
        module.exports,
        vec![
            export("__persistent_mutable_global_10", ExternalKind::Global, 10),
            export("__persistent_mutable_global_109", ExternalKind::Global, 109),
            export("__persistent_mutable_global_123", ExternalKind::Global, 123),
        ]
    );
}

#[test]
fn func_types_are_compared_by_parameters_and_results() {
    let a = func_type(vec![ValType::I32], vec![ValType::I64]);
    assert!(func_type_eq(&a, &func_type(vec![ValType::I32], vec![ValType::I64])));
    assert!(!func_type_eq(&a, &func_type(vec![ValType::I64], vec![ValType::I64])));
    assert!(!func_type_eq(&a, &func_type(vec![ValType::I32], vec![ValType::I32])));
    assert!(!func_type_eq(&a, &func_type(vec![ValType::I32, ValType::I32], vec![ValType::I64])));
    assert!(!func_type_eq(&a, &func_type(vec![ValType::I32], vec![])));
    assert!(func_type_eq(&func_type(vec![], vec![]), &func_type(vec![], vec![])));
}

#[test]
fn add_type_finds_the_first_equal_type_or_appends() {
    let mut module = empty_module();
    let a = func_type(vec![ValType::I32], vec![]);
    let b = func_type(vec![], vec![ValType::I32]);
    module.types = vec![a.clone(), b.clone(), a.clone()];
    assert_eq!(add_type(&mut module, b.clone()), 1);
    assert_eq!(add_type(&mut module, a.clone()), 0);
    assert_eq!(module.types.len(), 3);
    let c = func_type(vec![], vec![]);
    assert_eq!(add_type(&mut module, c.clone()), 3);
    assert_eq!(module.types, vec![a.clone(), b, a, c]);
}

fn module_with_references() -> Module {
    let mut module = empty_module();
    module.types = vec![func_type(vec![], vec![])];
    module.imports = vec![
        import("ic0", "msg_reply", TypeRef::Func(0)),
        import("env", "mem", TypeRef::Memory(memory(1))),
        import("ic0", "trap", TypeRef::Func(0)),
    ];
    module.functions = vec![0, 0];
    module.code_sections = vec![
        Body {
            locals: vec![],
            instructions: vec![
                Instruction::Call { function_index: 0 },
                Instruction::ReturnCall { function_index: 3 },
                Instruction::End,
            ],
        },
        Body {
            locals: vec![(1, ValType::I32)],
            instructions: vec![
                Instruction::RefFunc { function_index: 2 },
                Instruction::LocalGet { local_index: 0 },
                Instruction::End,
            ],
        },
    ];
    module.exports = vec![
        export("run", ExternalKind::Func, 2),
        export("g", ExternalKind::Global, 2),
    ];
    module.elements = vec![
        ElementSegment {
            kind: ElementKind::Passive,
            ty: ValType::FuncRef,
            items: ElementItems::Functions(vec![3, 1]),
        },
        ElementSegment {
            kind: ElementKind::Declared,
            ty: ValType::FuncRef,
            items: ElementItems::Expressions(SourceRange { start: 1, end: 2 }),
        },
    ];
    module.start = Some(3);
    module
}

fn shifted_references(by: u32) -> Module {
    let mut module = module_with_references();
    module.code_sections[0].instructions = vec![
        Instruction::Call { function_index: by },
        Instruction::ReturnCall { function_index: 3 + by },
        Instruction::End,
    ];
    module.code_sections[1].instructions = vec![
        Instruction::RefFunc { function_index: 2 + by },
        Instruction::LocalGet { local_index: 0 },
        Instruction::End,
    ];
    module.exports[0].index = 2 + by;
    module.elements[0].items = ElementItems::Functions(vec![3 + by, 1 + by]);
    module.start = Some(3 + by);
    module
}

#[test]
fn shift_moves_every_function_index() {
    let mut module = module_with_references();
    mutate_function_indices(&mut module, &FunctionIndexMap::Shift { by: 7 });
    assert_eq!(module, shifted_references(7));
}

#[test]
fn shift_by_zero_changes_nothing() {
    let mut module = module_with_references();
    mutate_function_indices(&mut module, &FunctionIndexMap::Shift { by: 0 });
    assert_eq!(module, module_with_references());
}

#[test]
fn replace_moves_the_named_indices_only() {
    let mut module = module_with_references();
    let map = FunctionIndexMap::Replace { pairs: vec![(3, 9), (0, 5)] };
    mutate_function_indices(&mut module, &map);
    assert_eq!(
        module.code_sections[0].instructions,
        vec![
            Instruction::Call { function_index: 5 },
            Instruction::ReturnCall { function_index: 9 },
            Instruction::End,
        ]
    );
    assert_eq!(module.code_sections[1].instructions[0], Instruction::RefFunc { function_index: 2 });
    assert_eq!(module.exports[0].index, 2);
    assert_eq!(module.exports[1].index, 2);
    assert_eq!(module.elements[0].items, ElementItems::Functions(vec![9, 1]));
    assert_eq!(module.start, Some(9));
}

#[test]
fn index_map_applies_the_last_pair_of_an_index() {
    let map = FunctionIndexMap::Replace { pairs: vec![(1, 10), (2, 20), (1, 11)] };
    assert_eq!(map.apply(1), 11);
    assert_eq!(map.apply(2), 20);
    assert_eq!(map.apply(3), 3);
    assert_eq!(FunctionIndexMap::Replace { pairs: vec![] }.apply(4), 4);
    assert_eq!(FunctionIndexMap::Shift { by: 5 }.apply(4), 9);
    assert_eq!(FunctionIndexMap::Shift { by: 1 }.apply(u32::MAX - 1), u32::MAX);
}

#[test]
fn helper_functions_become_the_first_imports() {
    let module = inject_helper_functions(module_with_references(), FlagStatus::Disabled);
    let mut expected = shifted_references(2);
    expected.types = vec![
        func_type(vec![], vec![]),
        func_type(vec![ValType::I32, ValType::I32], vec![ValType::I32]),
    ];
    expected.imports = vec![
        import("__", "out_of_instructions", TypeRef::Func(0)),
        import("__", "update_available_memory", TypeRef::Func(1)),
        import("ic0", "msg_reply", TypeRef::Func(0)),
        import("env", "mem", TypeRef::Memory(memory(1))),
        import("ic0", "trap", TypeRef::Func(0)),
    ];
    assert_eq!(module, expected);
}

#[test]
fn stable_memory_needs_three_more_helper_functions() {
    let module = inject_helper_functions(module_with_references(), FlagStatus::Enabled);
    let mut expected = shifted_references(5);
    expected.types = vec![
        func_type(vec![], vec![]),
        func_type(vec![ValType::I32, ValType::I32], vec![ValType::I32]),
        func_type(vec![ValType::I64, ValType::I64, ValType::I32], vec![ValType::I64]),
        func_type(vec![ValType::I64], vec![]),
        func_type(vec![ValType::I32], vec![]),
    ];
    expected.imports = vec![
        import("__", "out_of_instructions", TypeRef::Func(0)),
        import("__", "update_available_memory", TypeRef::Func(1)),
        import("__", "try_grow_stable_memory", TypeRef::Func(2)),
        import("__", "deallocate_pages", TypeRef::Func(3)),
        import("__", "internal_trap", TypeRef::Func(4)),
        import("ic0", "msg_reply", TypeRef::Func(0)),
        import("env", "mem", TypeRef::Memory(memory(1))),
        import("ic0", "trap", TypeRef::Func(0)),
    ];
    assert_eq!(module, expected);
}

#[test]
fn helper_functions_use_the_types_that_are_there() {
    let mut module = empty_module();
    module.types = vec![
        func_type(vec![ValType::I32], vec![]),
        func_type(vec![ValType::I32, ValType::I32], vec![ValType::I32]),
    ];
    let module = inject_helper_functions(module, FlagStatus::Enabled);
    assert_eq!(module.types.len(), 5);
    assert_eq!(module.types[2], func_type(vec![], vec![]));
    let indices: Vec<TypeRef> = module.imports.iter().map(|i| i.ty).collect();
    assert_eq!(
        indices,
        vec![
            TypeRef::Func(2),
            TypeRef::Func(1),
            TypeRef::Func(3),
            TypeRef::Func(4),
            TypeRef::Func(0),
        ]
    );
}

#[test]
fn same_function_is_reached_after_the_shift() {
    // A call of the import `trap` (function 1) and of the second defined
    // function (function 3) still reach them.
    let before = module_with_references();
    let after = inject_helper_functions(before.clone(), FlagStatus::Disabled);
    let function_imports = |m: &Module| -> Vec<Import> {
        m.imports.iter().filter(|i| matches!(i.ty, TypeRef::Func(_))).cloned().collect()
    };
    let (old_imports, new_imports) = (function_imports(&before), function_imports(&after));
    for i in 0..old_imports.len() {
        assert_eq!(old_imports[i], new_imports[i + 2]);
    }
    assert_eq!(new_imports.len(), old_imports.len() + 2);
    assert_eq!(after.functions, before.functions);
    assert_eq!(after.elements[0].items, ElementItems::Functions(vec![5, 3]));
}

#[test]
fn imports_are_counted_by_kind() {
    let imports = vec![
        import("a", "f", TypeRef::Func(0)),
        import("a", "g", TypeRef::Global(GlobalType { content_type: ValType::I32, mutable: false })),
        import("a", "t", TypeRef::Table(table())),
        import("a", "h", TypeRef::Func(1)),
        import("a", "m", TypeRef::Memory(memory(0))),
        import("a", "e", TypeRef::Tag(0)),
    ];
    assert_eq!(count_function_imports(&imports), 2);
    assert_eq!(count_global_imports(&imports), 1);
    assert_eq!(count_function_imports(&vec![]), 0);
}

#[test]
fn api_index_is_that_of_the_last_import_of_the_name() {
    let imports = vec![
        import("ic0", "stable_size", TypeRef::Func(0)),
        import("ic0", "g", TypeRef::Global(GlobalType { content_type: ValType::I32, mutable: false })),
        import("env", "stable_read", TypeRef::Func(0)),
        import("ic0", "stable_read", TypeRef::Func(0)),
        import("ic0", "stable_size", TypeRef::Func(0)),
        import("ic0", "stable_grow", TypeRef::Memory(memory(0))),
    ];
    assert_eq!(calculate_api_index(&imports, &"stable_size".to_string()), Some(3));
    assert_eq!(calculate_api_index(&imports, &"stable_read".to_string()), Some(2));
    assert_eq!(calculate_api_index(&imports, &"stable_grow".to_string()), None);
    assert_eq!(calculate_api_index(&imports, &"g".to_string()), None);
    assert_eq!(calculate_api_index(&vec![], &"stable_size".to_string()), None);
}

#[test]
fn replacements_take_the_place_of_imported_functions() {
    let mut module = empty_module();
    module.types = vec![func_type(vec![], vec![])];
    module.imports = vec![
        import("ic0", "stable_size", TypeRef::Func(0)),
        import("ic0", "stable_read", TypeRef::Func(0)),
    ];
    module.functions = vec![0];
    module.code_sections = vec![Body {
        locals: vec![],
        instructions: vec![
            Instruction::Call { function_index: 0 },
            Instruction::Call { function_index: 1 },
            Instruction::Call { function_index: 2 },
            Instruction::End,
        ],
    }];
    module.exports = vec![export("size", ExternalKind::Func, 0)];
    let size_body = Body {
        locals: vec![],
        instructions: vec![Instruction::I32Const { value: 7 }, Instruction::End],
    };
    let write_body = Body { locals: vec![], instructions: vec![Instruction::End] };
    let replacements = vec![
        Replacement {
            name: "stable_write".to_string(),
            ty: func_type(vec![ValType::I32], vec![]),
            body: write_body,
        },
        Replacement {
            name: "stable_size".to_string(),
            ty: func_type(vec![], vec![ValType::I32]),
            body: size_body.clone(),
        },
    ];
    replace_system_api_functions(&mut module, &replacements);
    // `stable_write` is not imported: only `stable_size` is added, as
    // function 3.
    assert_eq!(
        module.types,
        vec![func_type(vec![], vec![]), func_type(vec![], vec![ValType::I32])]
    );
    assert_eq!(module.functions, vec![0, 1]);
    assert_eq!(module.code_sections.len(), 2);
    assert_eq!(module.code_sections[1], size_body);
    assert_eq!(
        module.code_sections[0].instructions,
        vec![
            Instruction::Call { function_index: 3 },
            Instruction::Call { function_index: 1 },
            Instruction::Call { function_index: 2 },
            Instruction::End,
        ]
    );
    assert_eq!(module.exports, vec![export("size", ExternalKind::Func, 3)]);
    assert_eq!(module.imports.len(), 2);
}

#[test]
fn push_function_adds_type_function_and_body() {
    let mut module = empty_module();
    module.types = vec![func_type(vec![], vec![])];
    let body = Body { locals: vec![], instructions: vec![Instruction::End] };
    push_function(&mut module, func_type(vec![ValType::I32], vec![]), body.clone());
    push_function(&mut module, func_type(vec![], vec![]), body.clone());
    assert_eq!(module.types.len(), 2);
    assert_eq!(module.functions, vec![1, 0]);
    assert_eq!(module.code_sections, vec![body.clone(), body]);
}

fn decr_body(counter: u32) -> Body {
    Body {
        locals: vec![],
        instructions: vec![
            Instruction::GlobalGet { global_index: counter },
            Instruction::LocalGet { local_index: 0 },
            Instruction::I64ExtendI32U,
            Instruction::I64Sub,
            Instruction::GlobalSet { global_index: counter },
            Instruction::GlobalGet { global_index: counter },
            Instruction::I64Const { value: 0 },
            Instruction::I64LtS,
            Instruction::If { blockty: BlockType::Empty },
            Instruction::Call { function_index: 0 },
            Instruction::End,
            Instruction::LocalGet { local_index: 0 },
            Instruction::End,
        ],
    }
}

fn counter_global() -> Global {
    Global {
        ty: GlobalType { content_type: ValType::I64, mutable: true },
        init_expr: vec![0x42, 0x00, 0x0b],
    }
}

#[test]
fn additional_symbols_without_stable_memory() {
    let mut module = empty_module();
    module.globals = vec![global(false)];
    let data = ExportModuleData {
        instructions_counter_ix: 1,
        dirty_pages_counter_ix: None,
        decr_instruction_counter_fn: 4,
        count_clean_pages_fn: None,
        start_fn_ix: Some(3),
    };
    let module = export_additional_symbols(module, &data, FlagStatus::Disabled, 1);
    assert_eq!(module.types, vec![func_type(vec![ValType::I32], vec![ValType::I32])]);
    assert_eq!(module.functions, vec![0]);
    assert_eq!(module.code_sections, vec![decr_body(1)]);
    assert_eq!(module.globals, vec![global(false), counter_global()]);
    assert_eq!(
        module.exports,
        vec![
            export("canister counter_instructions", ExternalKind::Global, 1),
            export("canister_start", ExternalKind::Func, 3),
        ]
    );
}

#[test]
fn additional_symbols_with_stable_memory() {
    let data = ExportModuleData {
        instructions_counter_ix: 0,
        dirty_pages_counter_ix: Some(1),
        decr_instruction_counter_fn: 5,
        count_clean_pages_fn: Some(6),
        start_fn_ix: None,
    };
    let module = export_additional_symbols(empty_module(), &data, FlagStatus::Enabled, 3);
    assert_eq!(
        module.types,
        vec![
            func_type(vec![ValType::I32], vec![ValType::I32]),
            func_type(vec![ValType::I32, ValType::I32], vec![ValType::I32]),
        ]
    );
    assert_eq!(module.functions, vec![0, 1]);
    assert_eq!(module.code_sections[0], decr_body(0));
    let count = &module.code_sections[1];
    assert_eq!(count.locals, vec![(2, ValType::I32)]);
    assert_eq!(count.instructions.len(), 24);
    assert_eq!(
        count.instructions[6],
        Instruction::I32Load8U { memarg: MemArg { align: 0, max_align: 0, offset: 0, memory: 3 } }
    );
    assert_eq!(count.instructions[4], Instruction::Loop { blockty: BlockType::Empty });
    assert_eq!(count.instructions[16], Instruction::BrIf { relative_depth: 0 });
    assert_eq!(module.globals, vec![counter_global(), counter_global()]);
    assert_eq!(
        module.exports,
        vec![
            export("canister counter_instructions", ExternalKind::Global, 0),
            export("canister counter_dirty_pages", ExternalKind::Global, 1),
        ]
    );
}

fn active(offset: Instruction, data: Vec<u8>) -> DataSegment {
    DataSegment { kind: DataSegmentKind::Active { memory_index: 0, offset_expr: offset }, data }
}

#[test]
fn data_segments_become_offsets_and_bytes() {
    let mut data = vec![
        active(Instruction::I32Const { value: 16 }, vec![1, 2, 3]),
        active(Instruction::I32Const { value: 0 }, vec![]),
        active(Instruction::I32Const { value: 65535 }, vec![9]),
    ];
    let segments = get_data(&mut data).unwrap();
    assert_eq!(
        segments,
        Segments {
            segments: vec![
                Segment { offset: 16, bytes: vec![1, 2, 3] },
                Segment { offset: 0, bytes: vec![] },
                Segment { offset: 65535, bytes: vec![9] },
            ]
        }
    );
    assert!(data.is_empty());
}

#[test]
fn no_data_segments_give_no_segments() {
    let mut data = vec![];
    assert_eq!(get_data(&mut data), Ok(Segments { segments: vec![] }));
}

#[test]
fn data_segment_with_computed_offset_is_rejected() {
    let untouched = vec![
        active(Instruction::I32Const { value: 16 }, vec![1]),
        active(Instruction::GlobalGet { global_index: 0 }, vec![2]),
        DataSegment { kind: DataSegmentKind::Passive, data: vec![3] },
    ];
    let mut data = untouched.clone();
    assert_eq!(
        get_data(&mut data),
        Err(WasmInstrumentationError::WasmDeserializeError(
            "complex initialization expressions for data segments are not supported!".to_string()
        ))
    );
    assert_eq!(data, untouched);
}

#[test]
fn data_segment_with_64_bit_offset_is_rejected() {
    let mut data = vec![active(Instruction::I64Const { value: 16 }, vec![1])];
    assert_eq!(
        get_data(&mut data),
        Err(WasmInstrumentationError::WasmDeserializeError(
            "complex initialization expressions for data segments are not supported!".to_string()
        ))
    );
}

#[test]
fn passive_data_segment_is_rejected() {
    let mut data = vec![
        DataSegment { kind: DataSegmentKind::Passive, data: vec![3] },
        active(Instruction::GlobalGet { global_index: 0 }, vec![2]),
    ];
    assert_eq!(
        get_data(&mut data),
        Err(WasmInstrumentationError::WasmDeserializeError(
            "no offset found for the data segment".to_string()
        ))
    );
    assert_eq!(data.len(), 2);
}

#[test]
fn segments_inside_the_memory_are_valid() {
    let segments = Segments {
        segments: vec![
            Segment { offset: 0, bytes: vec![1; 10] },
            Segment { offset: 65536 * 2 - 3, bytes: vec![7, 8, 9] },
            Segment { offset: 65536 * 2, bytes: vec![] },
        ],
    };
    assert_eq!(segments.validate(2), Ok(()));
    assert_eq!(Segments { segments: vec![] }.validate(0), Ok(()));
}

#[test]
fn first_segment_outside_the_memory_is_reported() {
    let segments = Segments {
        segments: vec![
            Segment { offset: 0, bytes: vec![1; 10] },
            Segment { offset: 65536 - 2, bytes: vec![7, 8, 9] },
            Segment { offset: 70000, bytes: vec![1] },
        ],
    };
    assert_eq!(
        segments.validate(1),
        Err(WasmInstrumentationError::InvalidDataSegment { offset: 65534, len: 3 })
    );
    assert_eq!(
        segments.validate(0),
        Err(WasmInstrumentationError::InvalidDataSegment { offset: 0, len: 10 })
    );
}

#[test]
fn segment_whose_end_is_no_address_is_reported() {
    let segments = Segments { segments: vec![Segment { offset: usize::MAX, bytes: vec![1, 2] }] };
    assert_eq!(
        segments.validate(65536),
        Err(WasmInstrumentationError::InvalidDataSegment { offset: usize::MAX, len: 2 })
    );
}

#[test]
fn negative_offset_is_read_as_a_large_one() {
    let mut data = vec![active(Instruction::I32Const { value: -1 }, vec![1])];
    let segments = get_data(&mut data).unwrap();
    assert_eq!(segments.segments[0].offset, usize::MAX);
    assert!(segments.validate(65536).is_err());
}

#[test]
fn replayed_segments_are_the_initial_memory() {
    let mut data = vec![
        active(Instruction::I32Const { value: 4 }, vec![1, 2, 3]),
        active(Instruction::I32Const { value: 65530 }, vec![5; 6]),
        active(Instruction::I32Const { value: 5 }, vec![9]),
    ];
    // What the instantiation of the module would write.
    let mut expected = vec![0u8; 65536];
    for segment in &data {
        if let DataSegmentKind::Active { offset_expr: Instruction::I32Const { value }, .. } =
            segment.kind
        {
            let start = value as u32 as usize;
            expected[start..start + segment.data.len()].copy_from_slice(&segment.data);
        }
    }
    let segments = get_data(&mut data).unwrap();
    assert_eq!(segments.validate(1), Ok(()));
    let mut memory = vec![0u8; 65536];
    for segment in &segments.segments {
        memory[segment.offset..segment.offset + segment.bytes.len()]
            .copy_from_slice(&segment.bytes);
    }
    assert_eq!(memory, expected);
    assert_eq!(&memory[4..7], &[1, 9, 3]);
    assert_eq!(memory[65535], 5);
}
