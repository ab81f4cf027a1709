//! The instrumentation of a whole module.

use crate::cost::{
    compilation_cost, count_instructions, instruction_count, lemma_cost_of_saturated, saturated,
};
use crate::data::{
    extracted_segments, first_misfit, first_rejected_segment, get_data,
    lemma_first_rejected_segment, segment_rejection, Segments,
};
use crate::error::{WasmInstrumentationError, WasmInstrumentationErrorView};
use crate::exports::{
    export_mutable_globals, export_table, global_exports_in_bounds, stable_memory_index,
    update_memories, with_global_exports, with_memories, with_table_export,
};
use crate::host_imports::{
    inject_helper_functions, lemma_helper_functions_shape, with_helper_functions,
};
use crate::memory_grow::{body_with_grow_guards, inject_update_available_memory};
use crate::metering::{inject_metering, metered, ExportModuleData, FlagStatus, InjectedImports};
use crate::model::{
    first_free_local_of, group_views,
    lemma_import_counts, local_count, views, Body, BodyView, ElementItems, Export, ExportView,
    ExternalKind, FuncType, Instruction, Module, ModuleView, ValType,
};
use crate::renumber::{
    all_function_indices, element_functions, function_operand, lemma_all_function_indices_weaken,
};
use crate::replacements::{
    count_function_imports, count_global_imports, lemma_replacement_functions_shape,
    replace_system_api_functions, with_system_api_replaced, Replacement, ReplacementView,
};
use crate::support::{export_additional_symbols, with_additional_symbols};
use crate::write_barrier::{body_with_barriers, inject_mem_barrier};
use vstd::prelude::*;

verus! {

/// How many locals the instrumentation may add to a function.
pub const INSTRUMENTATION_LOCALS: u32 = 6;

/// A function body with all that the instrumentation puts into it, for a
/// function with `params` parameters: the metering code, then the growth
/// guards, then, if it is on, the write barrier.
pub open spec fn instrumented_body(
    body: BodyView,
    params: nat,
    data: ExportModuleData,
    write_barrier: FlagStatus,
) -> BodyView {
    let with_metering = BodyView {
        locals: body.locals,
        instructions: metered(body.instructions, data),
    };
    let with_guards = body_with_grow_guards(with_metering, params);
    if write_barrier == FlagStatus::Enabled {
        body_with_barriers(with_guards, params)
    } else {
        with_guards
    }
}

/// The number of parameters of the function of the module with the body `i`.
pub open spec fn param_count(m: ModuleView, i: int) -> nat {
    m.types[m.functions[i] as int].params.len()
}

/// The bodies of the module, each instrumented.
pub open spec fn instrumented_code(
    m: ModuleView,
    data: ExportModuleData,
    write_barrier: FlagStatus,
) -> Seq<BodyView> {
    Seq::new(
        m.code_sections.len(),
        |i: int| instrumented_body(m.code_sections[i], param_count(m, i), data, write_barrier),
    )
}

/// Whether every function of the module has a body and a type, and room
/// for the locals of the instrumentation.
pub open spec fn functions_are_sound(m: ModuleView) -> bool {
    &&& m.functions.len() == m.code_sections.len()
    &&& forall|i: int|
        0 <= i < m.functions.len() ==> {
            &&& (#[trigger] m.functions[i]) < m.types.len()
            &&& first_free_local_of(
                m.code_sections[i].locals,
                param_count(m, i),
                INSTRUMENTATION_LOCALS,
            ) is Some
        }
}

proof fn lemma_local_count_push(locals: Seq<(u32, ValType)>, n: u32, ty: ValType)
    ensures
        local_count(locals.push((n, ty))) == local_count(locals) + n,
{
    assert(locals.push((n, ty)).drop_last() =~= locals);
}

/// Instruments one function body.
fn instrument_body(
    body: &mut Body,
    func_type: &FuncType,
    data: &ExportModuleData,
    write_barrier: FlagStatus,
)
    requires
        first_free_local_of(
            old(body).locals@,
            func_type.params@.len(),
            INSTRUMENTATION_LOCALS,
        ) is Some,
    ensures
        final(body)@ == instrumented_body(old(body)@, func_type.params@.len(), *data, write_barrier),
{
    inject_metering(&mut body.instructions, data);
    let ghost with_metering = body@;
    inject_update_available_memory(body, func_type);
    proof {
        lemma_local_count_push(with_metering.locals, 1, ValType::I32);
    }
    if write_barrier == FlagStatus::Enabled {
        inject_mem_barrier(body, func_type);
    }
}

/// Instruments every function body of the module.
pub fn instrument_functions(
    module: &mut Module,
    data: &ExportModuleData,
    write_barrier: FlagStatus,
)
    requires
        functions_are_sound(old(module)@),
    ensures
        final(module)@ == (ModuleView {
            code_sections: instrumented_code(old(module)@, *data, write_barrier),
            ..old(module)@
        }),
{
    let ghost before = module@;
    let n = module.code_sections.len();
    let mut i: usize = 0;
    while i < n
        invariant
            n == module.code_sections.len(),
            n == before.code_sections.len(),
            before == old(module)@,
            functions_are_sound(before),
            i <= n,
            forall|j: int|
                0 <= j < i ==> (#[trigger] module.code_sections@[j])@ == instrumented_code(
                    before,
                    *data,
                    write_barrier,
                )[j],
            forall|j: int| i <= j < n ==> module.code_sections@[j] == old(module).code_sections@[j],
            module.types == old(module).types,
            module.imports == old(module).imports,
            module.functions == old(module).functions,
            module.tables == old(module).tables,
            module.memories == old(module).memories,
            module.globals == old(module).globals,
            module.exports == old(module).exports,
            module.start == old(module).start,
            module.elements == old(module).elements,
            module.data == old(module).data,
        decreases n - i,
    {
        proof {
            let _ = before.functions[i as int];
            assert(before.code_sections[i as int] == module.code_sections@[i as int]@);
            assert(before.types[before.functions[i as int] as int]
                == module.types@[module.functions@[i as int] as int]@);
        }
        let type_index = module.functions[i] as usize;
        let func_type = module.types[type_index].duplicate();
        instrument_body(&mut module.code_sections[i], &func_type, data, write_barrier);
        i = i + 1;
    }
    proof {
        assert(views(module.code_sections@) =~= instrumented_code(before, *data, write_barrier));
    }
}

/// The module as the function bodies are instrumented in it: with the host
/// functions imported, the table and the heap exported under their names,
/// the memories of the instrumentation added, and every mutable global
/// exported.
pub open spec fn prepared(
    m: ModuleView,
    write_barrier: FlagStatus,
    wasm_native_stable_memory: FlagStatus,
) -> ModuleView {
    with_global_exports(
        with_memories(
            with_table_export(with_helper_functions(m, wasm_native_stable_memory)),
            write_barrier,
            wasm_native_stable_memory,
        ),
    )
}

/// Where the instrumentation puts what it adds to the prepared module `p`:
/// the counters behind its globals, the functions behind its functions. The
/// start function is the one that the module has.
pub open spec fn planned_export_data(
    p: ModuleView,
    wasm_native_stable_memory: FlagStatus,
) -> ExportModuleData {
    let num_functions = p.function_count() as u32;
    let num_globals = p.global_count() as u32;
    let stable = wasm_native_stable_memory == FlagStatus::Enabled;
    ExportModuleData {
        instructions_counter_ix: num_globals,
        dirty_pages_counter_ix: if stable {
            Some((num_globals + 1) as u32)
        } else {
            None
        },
        decr_instruction_counter_fn: num_functions,
        count_clean_pages_fn: if stable {
            Some((num_functions + 1) as u32)
        } else {
            None
        },
        start_fn_ix: p.start,
    }
}

/// The instrumented module.
///
/// The module is prepared; every function body is instrumented; the start
/// function is exported in place of being the start function; the
/// functions and counters that the inserted code uses are added; with the
/// stable memory, the replacements take the place of the host functions that
/// they stand for; and the data segments are taken out.
pub open spec fn instrumented(
    m: ModuleView,
    write_barrier: FlagStatus,
    wasm_native_stable_memory: FlagStatus,
    replacements: Seq<ReplacementView>,
) -> ModuleView {
    let p = prepared(m, write_barrier, wasm_native_stable_memory);
    let data = planned_export_data(p, wasm_native_stable_memory);
    let stable_index = stable_memory_index(m, write_barrier, wasm_native_stable_memory);
    let with_code = ModuleView {
        start: None,
        code_sections: instrumented_code(p, data, write_barrier),
        ..p
    };
    let with_symbols = with_additional_symbols(
        with_code,
        data,
        wasm_native_stable_memory,
        (stable_index + 1) as u32,
    );
    let replaced = if wasm_native_stable_memory == FlagStatus::Enabled {
        with_system_api_replaced(with_symbols, replacements)
    } else {
        with_symbols
    };
    ModuleView { data: Seq::empty(), ..replaced }
}

/// Whether every function index in the module names one of its functions.
pub open spec fn function_indices_in_bounds(m: ModuleView) -> bool {
    all_function_indices(m, |i: u32| i < m.function_count())
}

/// Whether the module can be instrumented with `replacements` replacements
/// at hand: its functions are sound, every function index and every
/// exported global names what the module has, and what the instrumentation
/// adds to the items of each kind leaves their number below 2^32.
pub open spec fn instrumentable(
    m: ModuleView,
    wasm_native_stable_memory: FlagStatus,
    replacements: nat,
) -> bool {
    &&& functions_are_sound(m)
    &&& m.types.len() + 7 + replacements <= u32::MAX
    &&& m.imports.len() + m.functions.len() + 7 + replacements <= u32::MAX
    &&& m.imports.len() + m.globals.len() + 2 <= u32::MAX
    &&& function_indices_in_bounds(m)
    &&& global_exports_in_bounds(m)
    &&& wasm_native_stable_memory == FlagStatus::Enabled ==> m.memories.len() + 3 <= u32::MAX
}

/// The number of memories that an instrumented module may have: its heap,
/// the bytemap of the heap with the write barrier, the stable memory and its
/// bytemap with the stable memory.
pub open spec fn expected_memories(
    write_barrier: FlagStatus,
    wasm_native_stable_memory: FlagStatus,
) -> usize {
    let heap_bytemap: usize = if write_barrier == FlagStatus::Enabled {
        1
    } else {
        0
    };
    let stable: usize = if wasm_native_stable_memory == FlagStatus::Enabled {
        2
    } else {
        0
    };
    (1 + heap_bytemap + stable) as usize
}

/// The pages that the heap has at first; none for a module without a memory.
pub open spec fn initial_pages(m: ModuleView) -> usize {
    if m.memories.len() == 0 {
        0
    } else {
        m.memories[0].initial as usize
    }
}

/// Why the module cannot be instrumented, if it cannot. Of several reasons
/// the first one counts: the module is not instrumentable; it has too many
/// memories; a data segment has no constant offset; a data segment does not
/// fit into the initial heap.
pub open spec fn instrumentation_error(
    m: ModuleView,
    write_barrier: FlagStatus,
    wasm_native_stable_memory: FlagStatus,
    replacements: nat,
) -> Option<WasmInstrumentationErrorView> {
    let expected = expected_memories(write_barrier, wasm_native_stable_memory);
    let got = prepared(m, write_barrier, wasm_native_stable_memory).memories.len();
    let rejected = first_rejected_segment(m.data);
    let segments = extracted_segments(m.data);
    let misfit = first_misfit(segments, initial_pages(m) as nat);
    if !instrumentable(m, wasm_native_stable_memory, replacements) {
        Some(WasmInstrumentationErrorView::InconsistentModule)
    } else if got > expected {
        Some(
            WasmInstrumentationErrorView::IncorrectNumberMemorySections {
                expected,
                got: got as usize,
            },
        )
    } else if rejected < m.data.len() {
        Some(
            WasmInstrumentationErrorView::WasmDeserializeError(
                segment_rejection(m.data[rejected].kind),
            ),
        )
    } else if misfit < segments.len() {
        Some(
            WasmInstrumentationErrorView::InvalidDataSegment {
                offset: segments[misfit].offset,
                len: segments[misfit].bytes.len() as usize,
            },
        )
    } else {
        None
    }
}

/// What the preparation of a module leaves as it is, and what it adds.
pub proof fn lemma_prepared_shape(
    m: ModuleView,
    write_barrier: FlagStatus,
    wasm_native_stable_memory: FlagStatus,
)
    ensures
        ({
            let h = with_helper_functions(m, wasm_native_stable_memory);
            let p = prepared(m, write_barrier, wasm_native_stable_memory);
            let count = InjectedImports::spec_count(wasm_native_stable_memory);
            &&& p.functions == m.functions
            &&& p.globals == m.globals
            &&& p.tables == m.tables
            &&& p.data == m.data
            &&& p.types == h.types
            &&& p.imports == h.imports
            &&& p.code_sections == h.code_sections
            &&& p.start == h.start
            &&& p.elements == h.elements
            &&& p.function_count() == m.function_count() + count
            &&& p.global_count() == m.global_count()
            &&& p.memories.len() == m.memories.len() + (if write_barrier == FlagStatus::Enabled
                && m.memories.len() > 0 {
                1nat
            } else {
                0nat
            }) + (if wasm_native_stable_memory == FlagStatus::Enabled {
                2nat
            } else {
                0nat
            })
            &&& m.memories.len() > 0 ==> p.memories[0] == m.memories[0]
            &&& m.memories.len() == 0 && p.memories.len() > 0 ==> p.memories[0].initial == 0
            &&& functions_are_sound(m) ==> functions_are_sound(p)
        }),
{
    lemma_helper_functions_shape(m, wasm_native_stable_memory);
    let h = with_helper_functions(m, wasm_native_stable_memory);
    let p = prepared(m, write_barrier, wasm_native_stable_memory);
    if functions_are_sound(m) {
        assert forall|i: int| 0 <= i < p.functions.len() implies {
            &&& (#[trigger] p.functions[i]) < p.types.len()
            &&& first_free_local_of(
                p.code_sections[i].locals,
                param_count(p, i),
                INSTRUMENTATION_LOCALS,
            ) is Some
        } by {
            let _ = m.functions[i];
            let _ = h.code_sections[i];
            let _ = h.types[m.functions[i] as int];
        }
    }
}

/// The exported globals stay inside the globals of the module while it is
/// prepared.
pub proof fn lemma_global_exports_stay_in_bounds(
    m: ModuleView,
    write_barrier: FlagStatus,
    wasm_native_stable_memory: FlagStatus,
)
    requires
        global_exports_in_bounds(m),
    ensures
        global_exports_in_bounds(
            with_memories(
                with_table_export(with_helper_functions(m, wasm_native_stable_memory)),
                write_barrier,
                wasm_native_stable_memory,
            ),
        ),
{
    lemma_helper_functions_shape(m, wasm_native_stable_memory);
    let h = with_helper_functions(m, wasm_native_stable_memory);
    let t = with_table_export(h);
    let q = with_memories(t, write_barrier, wasm_native_stable_memory);
    assert(global_exports_in_bounds(h)) by {
        assert forall|e: int|
            0 <= e < h.exports.len() && (#[trigger] h.exports[e]).kind
                == ExternalKind::Global implies h.exports[e].index < h.globals.len() by {
            let _ = m.exports[e];
        }
    }
    assert(global_exports_in_bounds(t)) by {
        assert forall|e: int|
            0 <= e < t.exports.len() && (#[trigger] t.exports[e]).kind
                == ExternalKind::Global implies t.exports[e].index < t.globals.len() by {
            if e < h.exports.len() {
                let _ = h.exports[e];
            }
        }
    }
    assert forall|e: int|
        0 <= e < q.exports.len() && (#[trigger] q.exports[e]).kind
            == ExternalKind::Global implies q.exports[e].index < q.globals.len() by {
        if e < t.exports.len() {
            let _ = t.exports[e];
        }
    }
}

fn body_indices_below(body: &Body, bound: u32) -> (ok: bool)
    ensures
        ok == forall|k: int|
            0 <= k < body.instructions.len() ==> (function_operand(
                #[trigger] body.instructions@[k],
            ) matches Some(i) ==> i < bound),
{
    let mut k: usize = 0;
    while k < body.instructions.len()
        invariant
            k <= body.instructions.len(),
            forall|j: int|
                0 <= j < k ==> (function_operand(#[trigger] body.instructions@[j]) matches Some(i)
                    ==> i < bound),
        decreases body.instructions.len() - k,
    {
        let index = match body.instructions[k] {
            Instruction::Call { function_index } => Some(function_index),
            Instruction::ReturnCall { function_index } => Some(function_index),
            Instruction::RefFunc { function_index } => Some(function_index),
            _ => None,
        };
        if let Some(i) = index {
            if i >= bound {
                return false;
            }
        }
        k = k + 1;
    }
    true
}

fn items_below(items: &Vec<u32>, bound: u32) -> (ok: bool)
    ensures
        ok == forall|k: int| 0 <= k < items.len() ==> #[trigger] items@[k] < bound,
{
    let mut k: usize = 0;
    while k < items.len()
        invariant
            k <= items.len(),
            forall|j: int| 0 <= j < k ==> #[trigger] items@[j] < bound,
        decreases items.len() - k,
    {
        if items[k] >= bound {
            return false;
        }
        k = k + 1;
    }
    true
}

/// Tells whether every function index in the module is below `bound`.
fn function_indices_below(module: &Module, bound: u32) -> (ok: bool)
    ensures
        ok == all_function_indices(module@, |i: u32| i < bound),
{
    let ghost m = module@;
    let ghost below = |i: u32| i < bound;
    let mut b: usize = 0;
    while b < module.code_sections.len()
        invariant
            b <= module.code_sections.len(),
            m == module@,
            forall|j: int, k: int|
                0 <= j < b && 0 <= k < m.code_sections[j].instructions.len() ==> (function_operand(
                    #[trigger] m.code_sections[j].instructions[k],
                ) matches Some(i) ==> i < bound),
        decreases module.code_sections.len() - b,
    {
        assert(m.code_sections[b as int] == module.code_sections@[b as int]@);
        if !body_indices_below(&module.code_sections[b], bound) {
            proof {
                let k = choose|k: int|
                    0 <= k < m.code_sections[b as int].instructions.len() && !(function_operand(
                        #[trigger] m.code_sections[b as int].instructions[k],
                    ) matches Some(i) ==> i < bound);
                if all_function_indices(m, below) {
                    let i = function_operand(m.code_sections[b as int].instructions[k]).unwrap();
                    assert(below(i));
                }
            }
            return false;
        }
        b = b + 1;
    }
    let mut e: usize = 0;
    while e < module.exports.len()
        invariant
            e <= module.exports.len(),
            m == module@,
            forall|j: int|
                0 <= j < e && (#[trigger] m.exports[j]).kind == ExternalKind::Func
                    ==> m.exports[j].index < bound,
        decreases module.exports.len() - e,
    {
        assert(m.exports[e as int] == module.exports@[e as int]@);
        if let ExternalKind::Func = module.exports[e].kind {
            if module.exports[e].index >= bound {
                proof {
                    if all_function_indices(m, below) {
                        assert(below(m.exports[e as int].index));
                    }
                }
                return false;
            }
        }
        e = e + 1;
    }
    let mut s: usize = 0;
    while s < module.elements.len()
        invariant
            s <= module.elements.len(),
            m == module@,
            forall|j: int, k: int|
                0 <= j < s && 0 <= k < element_functions(m.elements[j]).len()
                    ==> #[trigger] element_functions(m.elements[j])[k] < bound,
        decreases module.elements.len() - s,
    {
        assert(m.elements[s as int] == module.elements@[s as int]@);
        if let ElementItems::Functions(items) = &module.elements[s].items {
            if !items_below(items, bound) {
                proof {
                    let k = choose|k: int| 0 <= k < items.len() && !(#[trigger] items@[k] < bound);
                    if all_function_indices(m, below) {
                        assert(below(element_functions(m.elements[s as int])[k]));
                    }
                }
                return false;
            }
        }
        s = s + 1;
    }
    if let Some(start) = module.start {
        if start >= bound {
            proof {
                if all_function_indices(m, below) {
                    assert(below(start));
                }
            }
            return false;
        }
    }
    true
}

/// Tells whether every function has a body, a type, and room for the locals
/// of the instrumentation.
fn check_functions(module: &Module) -> (ok: bool)
    ensures
        ok == functions_are_sound(module@),
{
    if module.functions.len() != module.code_sections.len() {
        return false;
    }
    let ghost m = module@;
    let mut i: usize = 0;
    while i < module.functions.len()
        invariant
            i <= module.functions.len(),
            module.functions.len() == module.code_sections.len(),
            m == module@,
            forall|j: int|
                0 <= j < i ==> {
                    &&& (#[trigger] m.functions[j]) < m.types.len()
                    &&& first_free_local_of(
                        m.code_sections[j].locals,
                        param_count(m, j),
                        INSTRUMENTATION_LOCALS,
                    ) is Some
                },
        decreases module.functions.len() - i,
    {
        let ghost _f = m.functions[i as int];
        let type_index = module.functions[i] as usize;
        if type_index >= module.types.len() {
            return false;
        }
        assert(m.types[type_index as int] == module.types@[type_index as int]@);
        assert(m.code_sections[i as int] == module.code_sections@[i as int]@);
        let params = module.types[type_index].params.len();
        if module.code_sections[i].first_free_local(params, INSTRUMENTATION_LOCALS).is_none() {
            return false;
        }
        i = i + 1;
    }
    true
}

/// Tells whether every exported global is one of the globals of the module.
fn check_global_exports(module: &Module) -> (ok: bool)
    ensures
        ok == global_exports_in_bounds(module@),
{
    let ghost m = module@;
    let mut e: usize = 0;
    while e < module.exports.len()
        invariant
            e <= module.exports.len(),
            m == module@,
            forall|j: int|
                0 <= j < e && (#[trigger] m.exports[j]).kind == ExternalKind::Global
                    ==> m.exports[j].index < m.globals.len(),
        decreases module.exports.len() - e,
    {
        assert(m.exports[e as int] == module.exports@[e as int]@);
        if let ExternalKind::Global = module.exports[e].kind {
            if module.exports[e].index as u128 >= module.globals.len() as u128 {
                return false;
            }
        }
        e = e + 1;
    }
    true
}

/// Tells whether the module can be instrumented with `replacements`
/// replacements at hand.
pub fn is_instrumentable(
    module: &Module,
    wasm_native_stable_memory: FlagStatus,
    replacements: usize,
) -> (ok: bool)
    ensures
        ok == instrumentable(module@, wasm_native_stable_memory, replacements as nat),
{
    let limit: u128 = 0xffff_ffff;
    let types = module.types.len() as u128;
    let imports = module.imports.len() as u128;
    let functions = module.functions.len() as u128;
    let globals = module.globals.len() as u128;
    let memories = module.memories.len() as u128;
    if types + 7 + replacements as u128 > limit {
        return false;
    }
    if imports + functions + 7 + replacements as u128 > limit {
        return false;
    }
    if imports + globals + 2 > limit {
        return false;
    }
    if wasm_native_stable_memory == FlagStatus::Enabled && memories + 3 > limit {
        return false;
    }
    if !check_functions(module) {
        return false;
    }
    if !check_global_exports(module) {
        return false;
    }
    proof {
        lemma_import_counts(module@.imports);
    }
    let function_count = count_function_imports(&module.imports) + module.functions.len();
    function_indices_below(module, function_count as u32)
}

/// The indices that replacement functions have to know, since their code
/// refers to them.
#[derive(Clone, Copy, Debug, PartialEq, Eq)]
pub struct ReplacementIndices {
    /// The index of the stable memory; its bytemap is the memory behind it.
    pub stable_memory_index: u32,
    /// The index of the function that counts clean pages.
    pub count_clean_pages_fn_index: u32,
    /// The index of the global that counts dirty pages.
    pub dirty_pages_counter_index: u32,
}

/// Tells where the instrumentation with the stable memory will put what
/// replacement functions refer to; nothing for a module that cannot be
/// instrumented.
pub fn replacement_indices(module: &Module, write_barrier: FlagStatus) -> (indices: Option<
    ReplacementIndices,
>)
    ensures
        indices is Some <==> instrumentable(module@, FlagStatus::Enabled, 0),
        indices matches Some(ix) ==> {
            let data = planned_export_data(
                prepared(module@, write_barrier, FlagStatus::Enabled),
                FlagStatus::Enabled,
            );
            &&& ix.stable_memory_index == stable_memory_index(
                module@,
                write_barrier,
                FlagStatus::Enabled,
            )
            &&& data.count_clean_pages_fn == Some(ix.count_clean_pages_fn_index)
            &&& data.dirty_pages_counter_ix == Some(ix.dirty_pages_counter_index)
        },
{
    if !is_instrumentable(module, FlagStatus::Enabled, 0) {
        return None;
    }
    proof {
        lemma_import_counts(module@.imports);
        lemma_prepared_shape(module@, write_barrier, FlagStatus::Enabled);
    }
    let heap_bytemap: usize = if write_barrier == FlagStatus::Enabled
        && !module.memories.is_empty() {
        1
    } else {
        0
    };
    let functions = count_function_imports(&module.imports) + module.functions.len();
    let globals = count_global_imports(&module.imports) + module.globals.len();
    Some(
        ReplacementIndices {
            stable_memory_index: (module.memories.len() + heap_bytemap) as u32,
            count_clean_pages_fn_index: (functions + 6) as u32,
            dirty_pages_counter_index: (globals + 1) as u32,
        },
    )
}

/// What the instrumentation of a module gives.
#[derive(Clone, Debug, PartialEq, Eq)]
pub struct InstrumentationOutput {
    /// The names of the exports of the instrumented module, in their order.
    pub exported_functions: Vec<String>,
    /// The initial contents of the heap.
    pub data: Segments,
    /// The instrumented module.
    pub module: Module,
    /// An estimate of what it costs to compile the instrumented module.
    pub compilation_cost: u64,
}

/// The names of the exports.
pub open spec fn export_names(exports: Seq<ExportView>) -> Seq<Seq<char>> {
    exports.map_values(|e: ExportView| e.name)
}

fn collect_export_names(exports: &Vec<Export>) -> (names: Vec<String>)
    ensures
        views(names@) == export_names(views(exports@)),
{
    let mut names: Vec<String> = Vec::new();
    let mut i: usize = 0;
    while i < exports.len()
        invariant
            i <= exports.len(),
            names.len() == i,
            forall|j: int| 0 <= j < i ==> (#[trigger] names@[j])@ == exports@[j].name@,
        decreases exports.len() - i,
    {
        names.push(exports[i].name.clone());
        i = i + 1;
    }
    assert(views(names@) =~= export_names(views(exports@)));
    names
}

/// Instruments a module: inserts the metering of instructions and the
/// guard of `memory.grow` into every function and, with the write barrier,
/// the marking of written pages; adds the counters, memories, functions and
/// exports that the host expects; and takes the initial contents of the
/// heap out of the module.
///
/// `replacements` are used with the stable memory only.
///
/// The cost of compilation is `cost_to_compile_wasm_instruction` for every
/// instruction of the instrumented module, up to the largest `u64`.
pub fn instrument(
    module: Module,
    cost_to_compile_wasm_instruction: u64,
    write_barrier: FlagStatus,
    wasm_native_stable_memory: FlagStatus,
    replacements: &Vec<Replacement>,
) -> (result: Result<InstrumentationOutput, WasmInstrumentationError>)
    ensures
        match result {
            Ok(output) => {
                &&& instrumentation_error(
                    module@,
                    write_barrier,
                    wasm_native_stable_memory,
                    replacements.len() as nat,
                ) is None
                &&& output.module@ == instrumented(
                    module@,
                    write_barrier,
                    wasm_native_stable_memory,
                    views(replacements@),
                )
                &&& output.data@ == extracted_segments(module@.data)
                &&& views(output.exported_functions@) == export_names(output.module@.exports)
                &&& output.compilation_cost == saturated(
                    cost_to_compile_wasm_instruction * instruction_count(output.module@),
                )
            },
            Err(error) => instrumentation_error(
                module@,
                write_barrier,
                wasm_native_stable_memory,
                replacements.len() as nat,
            ) == Some(error@),
        },
{
    broadcast use group_views;

    let ghost m = module@;
    let ghost reps = views(replacements@);
    if !is_instrumentable(&module, wasm_native_stable_memory, replacements.len()) {
        return Err(WasmInstrumentationError::InconsistentModule);
    }
    let ghost p = prepared(m, write_barrier, wasm_native_stable_memory);
    proof {
        lemma_import_counts(m.imports);
        lemma_all_function_indices_weaken(
            m,
            |i: u32| i < m.function_count(),
            |i: u32| i + InjectedImports::spec_count(wasm_native_stable_memory) <= u32::MAX,
        );
        lemma_helper_functions_shape(m, wasm_native_stable_memory);
        lemma_prepared_shape(m, write_barrier, wasm_native_stable_memory);
        lemma_global_exports_stay_in_bounds(m, write_barrier, wasm_native_stable_memory);
        lemma_import_counts(p.imports);
    }
    let module = inject_helper_functions(module, wasm_native_stable_memory);
    let module = export_table(module);
    let (module, stable_memory_index) = update_memories(
        module,
        write_barrier,
        wasm_native_stable_memory,
    );
    let mut module = export_mutable_globals(module);
    assert(module@ == p);

    let num_imported_functions = count_function_imports(&module.imports);
    let num_imported_globals = count_global_imports(&module.imports);
    let num_functions = (module.functions.len() + num_imported_functions) as u32;
    let num_globals = (module.globals.len() + num_imported_globals) as u32;
    let dirty_pages_counter_ix;
    let count_clean_pages_fn;
    match wasm_native_stable_memory {
        FlagStatus::Enabled => {
            dirty_pages_counter_ix = Some(num_globals + 1);
            count_clean_pages_fn = Some(num_functions + 1);
        },
        FlagStatus::Disabled => {
            dirty_pages_counter_ix = None;
            count_clean_pages_fn = None;
        },
    }
    let export_module_data = ExportModuleData {
        instructions_counter_ix: num_globals,
        dirty_pages_counter_ix,
        decr_instruction_counter_fn: num_functions,
        count_clean_pages_fn,
        start_fn_ix: module.start,
    };
    assert(export_module_data == planned_export_data(p, wasm_native_stable_memory));
    if export_module_data.start_fn_ix.is_some() {
        module.start = None;
    }
    let ghost without_start = ModuleView { start: None, ..p };
    assert(module@ == without_start);

    instrument_functions(&mut module, &export_module_data, write_barrier);
    proof {
        assert(instrumented_code(without_start, export_module_data, write_barrier)
            =~= instrumented_code(p, export_module_data, write_barrier));
    }
    let ghost with_code = ModuleView {
        start: None,
        code_sections: instrumented_code(p, export_module_data, write_barrier),
        ..p
    };
    assert(module@ == with_code);
    assert(module.types@.len() == module@.types.len());

    let mut module = export_additional_symbols(
        module,
        &export_module_data,
        wasm_native_stable_memory,
        stable_memory_index + 1,
    );
    let ghost with_symbols = module@;
    assert(module.types@.len() == module@.types.len());
    assert(module.imports@.len() == module@.imports.len());
    assert(module.functions@.len() == module@.functions.len());

    if wasm_native_stable_memory == FlagStatus::Enabled {
        replace_system_api_functions(&mut module, replacements);
        proof {
            lemma_replacement_functions_shape(with_symbols, reps, reps.len());
        }
    }
    let ghost replaced = module@;

    let exported_functions = collect_export_names(&module.exports);

    let expected_memories: usize = 1 + match write_barrier {
        FlagStatus::Enabled => 1,
        FlagStatus::Disabled => 0,
    } + match wasm_native_stable_memory {
        FlagStatus::Enabled => 2,
        FlagStatus::Disabled => 0,
    };
    assert(module.memories@ == p.memories);
    if module.memories.len() > expected_memories {
        return Err(
            WasmInstrumentationError::IncorrectNumberMemorySections {
                expected: expected_memories,
                got: module.memories.len(),
            },
        );
    }
    let initial_limit: u64 = if module.memories.is_empty() {
        // A module without a memory has nothing to put data into.
        0
    } else {
        module.memories[0].initial
    };
    assert(#[verifier::truncate] (initial_limit as usize) == initial_pages(m));

    assert(views(module.data@) == m.data);
    let ghost data_before = module.data@;
    let data = match get_data(&mut module.data) {
        Ok(data) => data,
        Err(error) => {
            proof {
                let rejected = first_rejected_segment(m.data);
                lemma_first_rejected_segment(m.data);
                assert(views(data_before) == m.data);
                assert(m.data[rejected] == data_before[rejected]@);
            }
            return Err(error);
        },
    };
    assert(views(module.data@) =~= Seq::empty());
    assert(module@ == ModuleView { data: Seq::empty(), ..replaced });
    match data.validate(#[verifier::truncate] (initial_limit as usize)) {
        Ok(()) => {},
        Err(error) => {
            return Err(error);
        },
    }
    let wasm_instruction_count = count_instructions(&module);
    let compilation_cost = compilation_cost(
        wasm_instruction_count,
        cost_to_compile_wasm_instruction,
    );
    proof {
        lemma_cost_of_saturated(instruction_count(module@), cost_to_compile_wasm_instruction);
    }
    Ok(InstrumentationOutput { exported_functions, data, module, compilation_cost })
}

} // verus!
