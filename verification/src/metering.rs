//! The metering code: what is inserted at each injection point, and the
//! splicing of it into a function body.

use crate::analysis::{
    injection_points, injections, points_at, points_below, walk, InjectionPoint,
    InjectionPointCostDetail, Scope, Walk,
};
use crate::model::{BlockType, Instruction};
use vstd::prelude::*;

verus! {

/// A switch of the instrumentation.
#[derive(Clone, Copy, Debug, PartialEq, Eq, Structural)]
pub enum FlagStatus {
    Enabled,
    Disabled,
}

/// The host functions that the instrumentation imports, in the order of
/// their function indices: they are the first imports of the module.
#[derive(Clone, Copy, Debug, PartialEq, Eq, Structural)]
pub enum InjectedImports {
    OutOfInstructions,
    UpdateAvailableMemory,
    TryGrowStableMemory,
    DeallocatePages,
    InternalTrap,
}

impl InjectedImports {
    /// The function index of the import.
    pub open spec fn spec_index(self) -> u32 {
        match self {
            InjectedImports::OutOfInstructions => 0,
            InjectedImports::UpdateAvailableMemory => 1,
            InjectedImports::TryGrowStableMemory => 2,
            InjectedImports::DeallocatePages => 3,
            InjectedImports::InternalTrap => 4,
        }
    }

    /// The function index of the import.
    #[verifier::when_used_as_spec(spec_index)]
    pub fn index(self) -> (ix: u32)
        ensures
            ix == self.spec_index(),
    {
        match self {
            InjectedImports::OutOfInstructions => 0,
            InjectedImports::UpdateAvailableMemory => 1,
            InjectedImports::TryGrowStableMemory => 2,
            InjectedImports::DeallocatePages => 3,
            InjectedImports::InternalTrap => 4,
        }
    }

    /// How many host functions are imported.
    pub open spec fn spec_count(wasm_native_stable_memory: FlagStatus) -> usize {
        if wasm_native_stable_memory == FlagStatus::Enabled {
            5
        } else {
            2
        }
    }

    /// How many host functions are imported: the last three only for the
    /// stable memory.
    #[verifier::when_used_as_spec(spec_count)]
    pub fn count(wasm_native_stable_memory: FlagStatus) -> (n: usize)
        ensures
            n == Self::spec_count(wasm_native_stable_memory),
    {
        if wasm_native_stable_memory == FlagStatus::Enabled {
            5
        } else {
            2
        }
    }
}

/// Where the instrumentation has put what it adds to a module.
#[derive(Clone, Copy, Debug, PartialEq, Eq)]
pub struct ExportModuleData {
    /// The global that counts the instructions left.
    pub instructions_counter_ix: u32,
    /// The global that counts the dirty pages of the stable memory.
    pub dirty_pages_counter_ix: Option<u32>,
    /// The function that charges a dynamic cost.
    pub decr_instruction_counter_fn: u32,
    /// The function that counts the clean pages in a range of the stable
    /// memory.
    pub count_clean_pages_fn: Option<u32>,
    /// The start function that the module had.
    pub start_fn_ix: Option<u32>,
}

impl Default for ExportModuleData {
    fn default() -> (data: ExportModuleData)
        ensures
            data == (ExportModuleData {
                instructions_counter_ix: 0,
                dirty_pages_counter_ix: None,
                decr_instruction_counter_fn: 0,
                count_clean_pages_fn: None,
                start_fn_ix: None,
            }),
    {
        ExportModuleData {
            instructions_counter_ix: 0,
            dirty_pages_counter_ix: None,
            decr_instruction_counter_fn: 0,
            count_clean_pages_fn: None,
            start_fn_ix: None,
        }
    }
}

/// Takes `cost` from the counter.
pub open spec fn decrement_code(counter: u32, cost: u64) -> Seq<Instruction> {
    seq![
        Instruction::GlobalGet { global_index: counter },
        Instruction::I64Const { value: cost as i64 },
        Instruction::I64Sub,
        Instruction::GlobalSet { global_index: counter },
    ]
}

/// Calls `out_of_instructions` if the counter is below zero.
pub open spec fn overflow_check_code(counter: u32) -> Seq<Instruction> {
    seq![
        Instruction::GlobalGet { global_index: counter },
        Instruction::I64Const { value: 0 },
        Instruction::I64LtS,
        Instruction::If { blockty: BlockType::Empty },
        Instruction::Call { function_index: InjectedImports::OutOfInstructions.spec_index() },
        Instruction::End,
    ]
}

/// The code that is inserted at an injection point.
///
/// At a static point the cost of the block is taken from the counter; at the
/// start of a reentrant block the counter is then tested. At a dynamic point
/// the function is called that charges the length on top of the stack and
/// leaves it there.
pub open spec fn metering_code(point: InjectionPoint, data: ExportModuleData) -> Seq<Instruction> {
    match point.cost_detail {
        InjectionPointCostDetail::StaticCost { scope, cost } => {
            if scope == Scope::ReentrantBlockStart {
                decrement_code(data.instructions_counter_ix, cost) + overflow_check_code(
                    data.instructions_counter_ix,
                )
            } else {
                decrement_code(data.instructions_counter_ix, cost)
            }
        },
        InjectionPointCostDetail::DynamicCost => seq![
            Instruction::Call { function_index: data.decr_instruction_counter_fn },
        ],
    }
}

/// Whether code is inserted at the point: a static point of cost zero is
/// skipped, unless it starts a reentrant block, where the counter is tested
/// in any case.
pub open spec fn is_metered(point: InjectionPoint) -> bool {
    match point.cost_detail {
        InjectionPointCostDetail::StaticCost { scope, cost } => scope
            == Scope::ReentrantBlockStart || cost > 0,
        InjectionPointCostDetail::DynamicCost => true,
    }
}

/// The code from `start` on, with the metering code of each of `points`
/// inserted before the instruction at the point's position.
pub open spec fn metered_from(
    code: Seq<Instruction>,
    points: Seq<InjectionPoint>,
    data: ExportModuleData,
    start: int,
) -> Seq<Instruction>
    decreases points.len(),
{
    if points.len() == 0 {
        code.subrange(start, code.len() as int)
    } else {
        let point = points.first();
        if is_metered(point) {
            code.subrange(start, point.position as int) + metering_code(point, data)
                + metered_from(code, points.drop_first(), data, point.position as int)
        } else {
            metered_from(code, points.drop_first(), data, start)
        }
    }
}

/// A function body with its metering code.
pub open spec fn metered(code: Seq<Instruction>, data: ExportModuleData) -> Seq<Instruction> {
    metered_from(code, injection_points(code), data, 0)
}

/// The points at the positions below `n` lie below `n`, in ascending order.
pub proof fn lemma_points_below_ordered(w: Walk, n: nat)
    requires
        n <= usize::MAX,
    ensures
        forall|i: int|
            0 <= i < points_below(w, n).len() ==> (#[trigger] points_below(w, n)[i]).position < n,
        forall|i: int, j: int|
            0 <= i <= j < points_below(w, n).len() ==> points_below(w, n)[i].position
                <= points_below(w, n)[j].position,
    decreases n,
{
    if n > 0 {
        lemma_points_below_ordered(w, (n - 1) as nat);
        let head = points_below(w, (n - 1) as nat);
        let tail = points_at(w, n - 1);
        assert(forall|i: int| 0 <= i < tail.len() ==> (#[trigger] tail[i]).position == n - 1);
        assert(points_below(w, n) =~= head + tail);
    }
}

/// The injection points of a body lie inside it, in ascending order.
pub proof fn lemma_injection_points_ordered(code: Seq<Instruction>)
    requires
        code.len() <= usize::MAX,
    ensures
        forall|i: int|
            0 <= i < injection_points(code).len() ==> (#[trigger] injection_points(
                code,
            )[i]).position < code.len(),
        forall|i: int, j: int|
            0 <= i <= j < injection_points(code).len() ==> injection_points(code)[i].position
                <= injection_points(code)[j].position,
{
    lemma_points_below_ordered(walk(code, code.len()), code.len());
}

/// Appends `src[from..to]` to `dst`.
pub fn extend_from_range(
    dst: &mut Vec<Instruction>,
    src: &Vec<Instruction>,
    from: usize,
    to: usize,
)
    requires
        from <= to <= src.len(),
    ensures
        final(dst)@ == old(dst)@ + src@.subrange(from as int, to as int),
{
    let mut i = from;
    while i < to
        invariant
            from <= i <= to <= src.len(),
            dst@ == old(dst)@ + src@.subrange(from as int, i as int),
        decreases to - i,
    {
        dst.push(src[i]);
        i = i + 1;
        assert(dst@ =~= old(dst)@ + src@.subrange(from as int, i as int));
    }
    assert(dst@ =~= old(dst)@ + src@.subrange(from as int, to as int));
}

/// Appends the metering code of `point` to `elems`.
fn push_metering_code(elems: &mut Vec<Instruction>, point: &InjectionPoint, data: &ExportModuleData)
    ensures
        final(elems)@ == old(elems)@ + metering_code(*point, *data),
{
    match point.cost_detail {
        InjectionPointCostDetail::StaticCost { scope, cost } => {
            elems.push(Instruction::GlobalGet { global_index: data.instructions_counter_ix });
            elems.push(Instruction::I64Const { value: #[verifier::truncate] (cost as i64) });
            elems.push(Instruction::I64Sub);
            elems.push(Instruction::GlobalSet { global_index: data.instructions_counter_ix });
            if scope == Scope::ReentrantBlockStart {
                elems.push(Instruction::GlobalGet { global_index: data.instructions_counter_ix });
                elems.push(Instruction::I64Const { value: 0 });
                elems.push(Instruction::I64LtS);
                elems.push(Instruction::If { blockty: BlockType::Empty });
                elems.push(
                    Instruction::Call { function_index: InjectedImports::OutOfInstructions.index() },
                );
                elems.push(Instruction::End);
            }
        },
        InjectionPointCostDetail::DynamicCost => {
            elems.push(Instruction::Call { function_index: data.decr_instruction_counter_fn });
        },
    }
    assert(elems@ =~= old(elems)@ + metering_code(*point, *data));
}

/// Inserts the metering code into a function body:
/// - at the start of every block that is not reentrant, the counter is
///   decremented by the cost of the block;
/// - at the start of every reentrant block (the body itself, a loop), the
///   counter is decremented and then tested;
/// - before every bulk instruction, a function is called that charges the
///   length on top of the stack.
///
/// The instructions of the body keep their order.
pub fn inject_metering(code: &mut Vec<Instruction>, export_data_module: &ExportModuleData)
    ensures
        final(code)@ == metered(old(code)@, *export_data_module),
{
    let points = injections(code);
    let len = code.len();
    let mut elems: Vec<Instruction> = Vec::new();
    let mut last_injection_position: usize = 0;
    let mut k: usize = 0;
    proof {
        lemma_injection_points_ordered(code@);
        assert(points@.subrange(0, points.len() as int) =~= points@);
        assert(elems@ + metered(code@, *export_data_module) =~= metered(
            code@,
            *export_data_module,
        ));
    }
    while k < points.len()
        invariant
            points@ == injection_points(code@),
            code@ == old(code)@,
            k <= points.len(),
            last_injection_position <= code.len(),
            forall|i: int| k <= i < points.len() ==> last_injection_position <= points@[i].position,
            forall|i: int| 0 <= i < points.len() ==> (#[trigger] points@[i]).position < code.len(),
            forall|i: int, j: int|
                0 <= i <= j < points.len() ==> points@[i].position <= points@[j].position,
            elems@ + metered_from(
                code@,
                points@.subrange(k as int, points.len() as int),
                *export_data_module,
                last_injection_position as int,
            ) == metered(code@, *export_data_module),
        decreases points.len() - k,
    {
        let point = points[k];
        let ghost rest = points@.subrange(k as int, points.len() as int);
        proof {
            assert(rest.first() == point);
            assert(rest.drop_first() =~= points@.subrange(k + 1, points.len() as int));
        }
        let metered = match point.cost_detail {
            InjectionPointCostDetail::StaticCost { scope, cost } => scope
                == Scope::ReentrantBlockStart || cost > 0,
            InjectionPointCostDetail::DynamicCost => true,
        };
        if metered {
            let ghost before = elems@;
            extend_from_range(&mut elems, code, last_injection_position, point.position);
            push_metering_code(&mut elems, &point, export_data_module);
            proof {
                let tail = metered_from(
                    code@,
                    rest.drop_first(),
                    *export_data_module,
                    point.position as int,
                );
                assert(elems@ + tail =~= before + (code@.subrange(
                    last_injection_position as int,
                    point.position as int,
                ) + metering_code(point, *export_data_module) + tail));
            }
            last_injection_position = point.position;
        }
        k = k + 1;
    }
    proof {
        assert(points@.subrange(k as int, points.len() as int) =~= Seq::empty());
    }
    extend_from_range(&mut elems, code, last_injection_position, len);
    *code = elems;
}

} // verus!
