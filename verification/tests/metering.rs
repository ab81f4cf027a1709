use wasm_instrument::analysis::{
    injections, instruction_to_cost, InjectionPoint, InjectionPointCostDetail, Scope,
};
use wasm_instrument::metering::{
    extend_from_range, inject_metering, ExportModuleData, FlagStatus, InjectedImports,
};
use wasm_instrument::model::{BlockType, Instruction, SourceRange};

fn other() -> Instruction {
    Instruction::Other { source: SourceRange { start: 0, end: 1 } }
}

fn block() -> Instruction {
    Instruction::Block { blockty: BlockType::Empty }
}

fn looping() -> Instruction {
    Instruction::Loop { blockty: BlockType::Empty }
}

fn branching() -> Instruction {
    Instruction::If { blockty: BlockType::Empty }
}

fn static_point(position: usize, scope: Scope, cost: u64) -> InjectionPoint {
    InjectionPoint { cost_detail: InjectionPointCostDetail::StaticCost { scope, cost }, position }
}

fn dynamic_point(position: usize) -> InjectionPoint {
    InjectionPoint { cost_detail: InjectionPointCostDetail::DynamicCost, position }
}

fn data(counter: u32, decr: u32) -> ExportModuleData {
    ExportModuleData {
        instructions_counter_ix: counter,
        dirty_pages_counter_ix: None,
        decr_instruction_counter_fn: decr,
        count_clean_pages_fn: None,
        start_fn_ix: None,
    }
}

fn decrement(counter: u32, cost: i64) -> Vec<Instruction> {
    vec![
        Instruction::GlobalGet { global_index: counter },
        Instruction::I64Const { value: cost },
        Instruction::I64Sub,
        Instruction::GlobalSet { global_index: counter },
    ]
}

fn check(counter: u32) -> Vec<Instruction> {
    vec![
        Instruction::GlobalGet { global_index: counter },
        Instruction::I64Const { value: 0 },
        Instruction::I64LtS,
        Instruction::If { blockty: BlockType::Empty },
        Instruction::Call { function_index: 0 },
        Instruction::End,
    ]
}

#[test]
fn structural_instructions_cost_nothing() {
    assert_eq!(instruction_to_cost(&block()), 0);
    assert_eq!(instruction_to_cost(&looping()), 0);
    assert_eq!(instruction_to_cost(&Instruction::Else), 0);
    assert_eq!(instruction_to_cost(&Instruction::End), 0);
}

#[test]
fn other_instructions_cost_one() {
    assert_eq!(instruction_to_cost(&branching()), 1);
    assert_eq!(instruction_to_cost(&other()), 1);
    assert_eq!(instruction_to_cost(&Instruction::Br { relative_depth: 0 }), 1);
    assert_eq!(instruction_to_cost(&Instruction::MemoryFill { mem: 0 }), 1);
    assert_eq!(instruction_to_cost(&Instruction::Call { function_index: 3 }), 1);
}

#[test]
fn increment_cost_adds_to_static_cost_only() {
    let mut detail =
        InjectionPointCostDetail::StaticCost { scope: Scope::BlockEnd, cost: 3 };
    detail.increment_cost(4);
    assert_eq!(detail, InjectionPointCostDetail::StaticCost { scope: Scope::BlockEnd, cost: 7 });
    let mut dynamic = InjectionPointCostDetail::DynamicCost;
    dynamic.increment_cost(4);
    assert_eq!(dynamic, InjectionPointCostDetail::DynamicCost);
}

#[test]
fn new_points_start_at_cost_zero() {
    assert_eq!(
        InjectionPoint::new_static_cost(5, Scope::NonReentrantBlockStart),
        static_point(5, Scope::NonReentrantBlockStart, 0)
    );
    assert_eq!(InjectionPoint::new_dynamic_cost(2), dynamic_point(2));
}

#[test]
fn empty_body_has_no_points() {
    assert_eq!(injections(&vec![]), vec![]);
}

#[test]
fn body_without_end_has_no_points() {
    assert_eq!(injections(&vec![other(), other()]), vec![]);
}

#[test]
fn straight_line_body_is_one_reentrant_block() {
    let code = vec![other(), other(), other(), Instruction::End];
    assert_eq!(injections(&code), vec![static_point(0, Scope::ReentrantBlockStart, 3)]);
}

#[test]
fn code_behind_the_last_end_is_not_looked_at() {
    let code = vec![other(), Instruction::End, other(), Instruction::MemoryFill { mem: 0 }];
    assert_eq!(injections(&code), vec![static_point(0, Scope::ReentrantBlockStart, 1)]);
}

#[test]
fn block_is_charged_apart_and_outer_block_goes_on_behind_it() {
    // 0: other, 1: block, 2: other, 3: other, 4: end, 5: other, 6: end
    let code =
        vec![other(), block(), other(), other(), Instruction::End, other(), Instruction::End];
    assert_eq!(
        injections(&code),
        vec![
            static_point(0, Scope::ReentrantBlockStart, 2),
            static_point(2, Scope::NonReentrantBlockStart, 2),
        ]
    );
}

#[test]
fn if_costs_one_and_else_starts_a_block() {
    // 0: other, 1: if, 2: other, 3: else, 4: other, 5: other, 6: end, 7: end
    let code = vec![
        other(),
        branching(),
        other(),
        Instruction::Else,
        other(),
        other(),
        Instruction::End,
        Instruction::End,
    ];
    assert_eq!(
        injections(&code),
        vec![
            static_point(0, Scope::ReentrantBlockStart, 2),
            static_point(2, Scope::NonReentrantBlockStart, 1),
            static_point(4, Scope::BlockEnd, 2),
        ]
    );
}

#[test]
fn loop_body_is_reentrant_and_branch_ends_a_block() {
    // 0: loop, 1: other, 2: br_if, 3: other, 4: end, 5: end
    let code = vec![
        looping(),
        other(),
        Instruction::BrIf { relative_depth: 0 },
        other(),
        Instruction::End,
        Instruction::End,
    ];
    assert_eq!(
        injections(&code),
        vec![
            static_point(0, Scope::ReentrantBlockStart, 0),
            static_point(1, Scope::ReentrantBlockStart, 2),
            static_point(3, Scope::BlockEnd, 1),
        ]
    );
}

#[test]
fn br_and_br_table_end_a_block() {
    let table = Instruction::BrTable { targets: SourceRange { start: 4, end: 9 } };
    // 0: block, 1: br, 2: other, 3: br_table, 4: end, 5: end
    let code = vec![
        block(),
        Instruction::Br { relative_depth: 0 },
        other(),
        table,
        Instruction::End,
        Instruction::End,
    ];
    assert_eq!(
        injections(&code),
        vec![
            static_point(0, Scope::ReentrantBlockStart, 0),
            static_point(1, Scope::NonReentrantBlockStart, 1),
            static_point(2, Scope::BlockEnd, 2),
            static_point(4, Scope::BlockEnd, 0),
        ]
    );
}

#[test]
fn bulk_instructions_get_dynamic_points() {
    let code = vec![
        other(),
        Instruction::MemoryFill { mem: 0 },
        Instruction::MemoryCopy { dst_mem: 0, src_mem: 0 },
        Instruction::MemoryInit { data_index: 0, mem: 0 },
        Instruction::TableCopy { dst_table: 0, src_table: 0 },
        Instruction::TableInit { elem_index: 0, table: 0 },
        Instruction::End,
    ];
    assert_eq!(
        injections(&code),
        vec![
            static_point(0, Scope::ReentrantBlockStart, 6),
            dynamic_point(1),
            dynamic_point(2),
            dynamic_point(3),
            dynamic_point(4),
            dynamic_point(5),
        ]
    );
}

#[test]
fn dynamic_point_comes_before_static_point_at_same_position() {
    // 0: block, 1: memory.fill, 2: end, 3: end
    let code =
        vec![block(), Instruction::MemoryFill { mem: 0 }, Instruction::End, Instruction::End];
    assert_eq!(
        injections(&code),
        vec![
            static_point(0, Scope::ReentrantBlockStart, 0),
            dynamic_point(1),
            static_point(1, Scope::NonReentrantBlockStart, 1),
        ]
    );
}

#[test]
fn unclosed_blocks_give_no_static_points() {
    // The block is closed, the body is not.
    let code = vec![other(), block(), other(), Instruction::End];
    assert_eq!(injections(&code), vec![static_point(2, Scope::NonReentrantBlockStart, 1)]);
}

#[test]
fn points_are_ordered_by_position() {
    let code = vec![
        block(),
        looping(),
        branching(),
        other(),
        Instruction::End,
        Instruction::MemoryFill { mem: 0 },
        Instruction::End,
        Instruction::End,
        Instruction::End,
    ];
    let points = injections(&code);
    for pair in points.windows(2) {
        assert!(pair[0].position <= pair[1].position);
    }
    assert_eq!(points.len(), 5);
}

#[test]
fn static_costs_add_up_to_the_cost_of_the_body() {
    let code = vec![
        other(),
        block(),
        other(),
        looping(),
        other(),
        branching(),
        other(),
        Instruction::Else,
        other(),
        Instruction::End,
        Instruction::BrIf { relative_depth: 0 },
        other(),
        Instruction::End,
        Instruction::End,
        other(),
        Instruction::End,
    ];
    let expected: u64 = code.iter().map(instruction_to_cost).sum();
    let mut total = 0;
    for point in injections(&code) {
        if let InjectionPointCostDetail::StaticCost { cost, .. } = point.cost_detail {
            total += cost;
        }
    }
    assert_eq!(expected, 9);
    assert_eq!(total, expected);
}

#[test]
fn extend_from_range_appends_the_range() {
    let src = vec![other(), Instruction::End, Instruction::Else, block()];
    let mut dst = vec![Instruction::I64Sub];
    extend_from_range(&mut dst, &src, 1, 3);
    assert_eq!(dst, vec![Instruction::I64Sub, Instruction::End, Instruction::Else]);
    extend_from_range(&mut dst, &src, 2, 2);
    assert_eq!(dst.len(), 3);
}

#[test]
fn metering_of_a_straight_line_body() {
    let mut code = vec![Instruction::LocalGet { local_index: 0 }, Instruction::End];
    inject_metering(&mut code, &data(7, 9));
    let mut expected = decrement(7, 1);
    expected.extend(check(7));
    expected.push(Instruction::LocalGet { local_index: 0 });
    expected.push(Instruction::End);
    assert_eq!(code, expected);
}

#[test]
fn metering_of_an_empty_body_changes_nothing() {
    let mut code: Vec<Instruction> = vec![];
    inject_metering(&mut code, &data(0, 0));
    assert_eq!(code, vec![]);
}

#[test]
fn reentrant_block_of_cost_zero_is_still_checked() {
    let mut code = vec![Instruction::End];
    inject_metering(&mut code, &data(3, 4));
    let mut expected = decrement(3, 0);
    expected.extend(check(3));
    expected.push(Instruction::End);
    assert_eq!(code, expected);
}

#[test]
fn block_of_cost_zero_gets_no_code() {
    // 0: other, 1: block, 2: end, 3: end
    let mut code = vec![other(), block(), Instruction::End, Instruction::End];
    inject_metering(&mut code, &data(1, 2));
    let mut expected = decrement(1, 1);
    expected.extend(check(1));
    expected.extend(vec![other(), block(), Instruction::End, Instruction::End]);
    assert_eq!(code, expected);
}

#[test]
fn metering_of_nested_blocks() {
    // 0: other, 1: if, 2: other, 3: else, 4: loop, 5: other, 6: end, 7: end, 8: end
    let mut code = vec![
        other(),
        branching(),
        other(),
        Instruction::Else,
        looping(),
        other(),
        Instruction::End,
        Instruction::End,
        Instruction::End,
    ];
    inject_metering(&mut code, &data(5, 6));
    let mut expected = decrement(5, 2);
    expected.extend(check(5));
    expected.push(other());
    expected.push(branching());
    expected.extend(decrement(5, 1));
    expected.push(other());
    expected.push(Instruction::Else);
    // The block behind the else holds the loop and both ends: it costs
    // nothing, and gets no code.
    expected.push(looping());
    expected.extend(decrement(5, 1));
    expected.extend(check(5));
    expected.push(other());
    expected.push(Instruction::End);
    expected.push(Instruction::End);
    expected.push(Instruction::End);
    assert_eq!(code, expected);
}

#[test]
fn bulk_instruction_is_preceded_by_a_call_of_the_charging_function() {
    let mut code = vec![
        other(),
        other(),
        other(),
        Instruction::MemoryCopy { dst_mem: 0, src_mem: 0 },
        Instruction::End,
    ];
    inject_metering(&mut code, &data(2, 11));
    let mut expected = decrement(2, 4);
    expected.extend(check(2));
    expected.extend(vec![
        other(),
        other(),
        other(),
        Instruction::Call { function_index: 11 },
        Instruction::MemoryCopy { dst_mem: 0, src_mem: 0 },
        Instruction::End,
    ]);
    assert_eq!(code, expected);
}

#[test]
fn metering_keeps_the_instructions_in_their_order() {
    let untouched = vec![
        Instruction::LocalGet { local_index: 0 },
        block(),
        Instruction::LocalGet { local_index: 1 },
        Instruction::MemoryFill { mem: 0 },
        Instruction::BrIf { relative_depth: 0 },
        Instruction::LocalGet { local_index: 2 },
        Instruction::End,
        Instruction::LocalGet { local_index: 3 },
        Instruction::End,
    ];
    let mut code = untouched.clone();
    inject_metering(&mut code, &data(40, 41));
    // Nothing that is inserted is a local.get, a block, a bulk instruction or
    // a branch: what is left of these is the code before metering.
    let kept: Vec<Instruction> = code
        .iter()
        .filter(|i| {
            matches!(
                i,
                Instruction::LocalGet { .. }
                    | Instruction::Block { .. }
                    | Instruction::MemoryFill { .. }
                    | Instruction::BrIf { .. }
            )
        })
        .cloned()
        .collect();
    let expected: Vec<Instruction> =
        untouched.iter().filter(|i| !matches!(i, Instruction::End)).cloned().collect();
    assert_eq!(kept, expected);
}

#[test]
fn injected_imports_have_fixed_indices() {
    assert_eq!(InjectedImports::OutOfInstructions.index(), 0);
    assert_eq!(InjectedImports::UpdateAvailableMemory.index(), 1);
    assert_eq!(InjectedImports::TryGrowStableMemory.index(), 2);
    assert_eq!(InjectedImports::DeallocatePages.index(), 3);
    assert_eq!(InjectedImports::InternalTrap.index(), 4);
    assert_eq!(InjectedImports::count(FlagStatus::Disabled), 2);
    assert_eq!(InjectedImports::count(FlagStatus::Enabled), 5);
}

#[test]
fn default_export_module_data_is_empty() {
    assert_eq!(
        ExportModuleData::default(),
        ExportModuleData {
            instructions_counter_ix: 0,
            dirty_pages_counter_ix: None,
            decr_instruction_counter_fn: 0,
            count_clean_pages_fn: None,
            start_fn_ix: None,
        }
    );
}
