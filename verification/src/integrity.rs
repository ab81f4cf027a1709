//! The function indices of an instrumented module name functions of the
//! module.

use crate::analysis::{injection_points, InjectionPoint};
use crate::exports::{
    persistent_global_exports, stable_memory_index, with_global_exports, with_memories,
    with_table_export,
};
use crate::host_imports::{
    lemma_helper_functions_keep_bounds, lemma_helper_functions_shape, with_helper_functions,
};
use crate::instrument::{
    function_indices_in_bounds, instrumentable, instrumented, instrumented_body,
    instrumented_code, lemma_prepared_shape, param_count, planned_export_data, prepared,
};
use crate::memory_grow::{body_with_grow_guards, with_grow_guard, with_grow_guards};
use crate::metering::{
    lemma_injection_points_ordered, metered, metered_from, metering_code, ExportModuleData,
    FlagStatus, InjectedImports,
};
use crate::model::{lemma_import_counts, BodyView, ExternalKind, Instruction, ModuleView};
use crate::renumber::{element_functions, function_operand, replaced, FunctionIndexMapView};
use crate::replacements::{api_index, with_replacement_functions, ReplacementView};
use crate::support::{
    count_clean_pages_body, decr_instruction_counter_body, with_additional_symbols,
};
use crate::write_barrier::{body_with_barriers, with_barrier, with_barriers};
use vstd::prelude::*;

verus! {

/// Whether every function that the code names has an index below `bound`.
pub open spec fn names_functions_below(code: Seq<Instruction>, bound: nat) -> bool {
    forall|k: int|
        0 <= k < code.len() ==> (function_operand(#[trigger] code[k]) matches Some(i) ==> i < bound)
}

proof fn lemma_names_concat(a: Seq<Instruction>, b: Seq<Instruction>, bound: nat)
    requires
        names_functions_below(a, bound),
        names_functions_below(b, bound),
    ensures
        names_functions_below(a + b, bound),
{
    assert forall|k: int| 0 <= k < (a + b).len() implies (function_operand(
        #[trigger] (a + b)[k],
    ) matches Some(i) ==> i < bound) by {
        if k < a.len() {
            assert((a + b)[k] == a[k]);
        } else {
            assert((a + b)[k] == b[k - a.len()]);
        }
    }
}

proof fn lemma_metered_from_names(
    code: Seq<Instruction>,
    points: Seq<InjectionPoint>,
    data: ExportModuleData,
    start: int,
    bound: nat,
)
    requires
        names_functions_below(code, bound),
        InjectedImports::OutOfInstructions.spec_index() < bound,
        data.decr_instruction_counter_fn < bound,
        0 <= start <= code.len(),
        forall|i: int| 0 <= i < points.len() ==> start <= (#[trigger] points[i]).position
            <= code.len(),
        forall|i: int, j: int|
            0 <= i <= j < points.len() ==> points[i].position <= points[j].position,
    ensures
        names_functions_below(metered_from(code, points, data, start), bound),
    decreases points.len(),
{
    if points.len() == 0 {
        let rest = code.subrange(start, code.len() as int);
        assert forall|k: int| 0 <= k < rest.len() implies (function_operand(
            #[trigger] rest[k],
        ) matches Some(i) ==> i < bound) by {
            assert(rest[k] == code[start + k]);
        }
    } else {
        let point = points.first();
        let rest = points.drop_first();
        assert forall|i: int| 0 <= i < rest.len() implies point.position <= (
        #[trigger] rest[i]).position <= code.len() by {
            assert(rest[i] == points[i + 1]);
        }
        assert forall|i: int, j: int| 0 <= i <= j < rest.len() implies rest[i].position
            <= rest[j].position by {
            assert(rest[i] == points[i + 1] && rest[j] == points[j + 1]);
        }
        lemma_metered_from_names(code, rest, data, point.position as int, bound);
        lemma_metered_from_names(code, rest, data, start, bound);
        let head = code.subrange(start, point.position as int);
        assert forall|k: int| 0 <= k < head.len() implies (function_operand(
            #[trigger] head[k],
        ) matches Some(i) ==> i < bound) by {
            assert(head[k] == code[start + k]);
        }
        lemma_names_concat(head, metering_code(point, data), bound);
        lemma_names_concat(
            head + metering_code(point, data),
            metered_from(code, rest, data, point.position as int),
            bound,
        );
    }
}

proof fn lemma_with_grow_guards_names(code: Seq<Instruction>, local: u32, bound: nat)
    requires
        names_functions_below(code, bound),
        InjectedImports::UpdateAvailableMemory.spec_index() < bound,
    ensures
        names_functions_below(with_grow_guards(code, local), bound),
    decreases code.len(),
{
    if code.len() > 0 {
        let rest = code.drop_last();
        assert forall|k: int| 0 <= k < rest.len() implies (function_operand(
            #[trigger] rest[k],
        ) matches Some(i) ==> i < bound) by {
            assert(rest[k] == code[k]);
        }
        lemma_with_grow_guards_names(rest, local, bound);
        let _ = code[code.len() - 1];
        lemma_names_concat(
            with_grow_guards(rest, local),
            with_grow_guard(code.last(), local),
            bound,
        );
    }
}

proof fn lemma_with_barriers_names(code: Seq<Instruction>, first_local: u32, bound: nat)
    requires
        names_functions_below(code, bound),
    ensures
        names_functions_below(with_barriers(code, first_local), bound),
    decreases code.len(),
{
    if code.len() > 0 {
        let rest = code.drop_last();
        assert forall|k: int| 0 <= k < rest.len() implies (function_operand(
            #[trigger] rest[k],
        ) matches Some(i) ==> i < bound) by {
            assert(rest[k] == code[k]);
        }
        lemma_with_barriers_names(rest, first_local, bound);
        let _ = code[code.len() - 1];
        lemma_names_concat(
            with_barriers(rest, first_local),
            with_barrier(code.last(), first_local),
            bound,
        );
    }
}

/// The code that the instrumentation puts into a function body names the
/// host functions and the function that charges a dynamic cost: where these
/// and the functions that the body names have indices below `bound`, so
/// have the functions that the instrumented body names.
pub proof fn lemma_instrumented_body_names(
    body: BodyView,
    params: nat,
    data: ExportModuleData,
    write_barrier: FlagStatus,
    bound: nat,
)
    requires
        body.instructions.len() <= usize::MAX,
        names_functions_below(body.instructions, bound),
        InjectedImports::UpdateAvailableMemory.spec_index() < bound,
        data.decr_instruction_counter_fn < bound,
    ensures
        names_functions_below(
            instrumented_body(body, params, data, write_barrier).instructions,
            bound,
        ),
{
    lemma_injection_points_ordered(body.instructions);
    lemma_metered_from_names(body.instructions, injection_points(body.instructions), data, 0, bound);
    let with_metering = BodyView {
        locals: body.locals,
        instructions: metered(body.instructions, data),
    };
    let with_guards = body_with_grow_guards(with_metering, params);
    assert(names_functions_below(with_guards.instructions, bound)) by {
        if with_guards != with_metering {
            let local = choose|local: u32|
                with_guards.instructions == with_grow_guards(with_metering.instructions, local);
            lemma_with_grow_guards_names(with_metering.instructions, local, bound);
        }
    }
    let with_barrier_code = body_with_barriers(with_guards, params);
    if with_barrier_code != with_guards {
        let first_local = choose|first_local: u32|
            with_barrier_code.instructions == with_barriers(with_guards.instructions, first_local);
        lemma_with_barriers_names(with_guards.instructions, first_local, bound);
    }
}

proof fn lemma_persistent_global_exports_kind(m: ModuleView, n: nat)
    ensures
        forall|e: int|
            0 <= e < persistent_global_exports(m, n).len() ==> (#[trigger] persistent_global_exports(
                m,
                n,
            )[e]).kind == ExternalKind::Global,
    decreases n,
{
    if n > 0 {
        lemma_persistent_global_exports_kind(m, (n - 1) as nat);
    }
}

/// The preparation of a module exports no function that the module did not
/// export.
proof fn lemma_prepared_function_exports(
    h: ModuleView,
    write_barrier: FlagStatus,
    wasm_native_stable_memory: FlagStatus,
    bound: nat,
)
    requires
        forall|e: int|
            0 <= e < h.exports.len() && (#[trigger] h.exports[e]).kind == ExternalKind::Func
                ==> h.exports[e].index < bound,
    ensures
        ({
            let p = with_global_exports(
                with_memories(with_table_export(h), write_barrier, wasm_native_stable_memory),
            );
            forall|e: int|
                0 <= e < p.exports.len() && (#[trigger] p.exports[e]).kind == ExternalKind::Func
                    ==> p.exports[e].index < bound
        }),
{
    let t = with_table_export(h);
    let q = with_memories(t, write_barrier, wasm_native_stable_memory);
    let p = with_global_exports(q);
    assert forall|e: int|
        0 <= e < t.exports.len() && (#[trigger] t.exports[e]).kind
            == ExternalKind::Func implies t.exports[e].index < bound by {
        if e < h.exports.len() {
            let _ = h.exports[e];
        }
    }
    assert forall|e: int|
        0 <= e < q.exports.len() && (#[trigger] q.exports[e]).kind
            == ExternalKind::Func implies q.exports[e].index < bound by {
        if e < t.exports.len() {
            let _ = t.exports[e];
        }
    }
    lemma_persistent_global_exports_kind(q, q.globals.len());
    assert forall|e: int|
        0 <= e < p.exports.len() && (#[trigger] p.exports[e]).kind
            == ExternalKind::Func implies p.exports[e].index < bound by {
        if e < q.exports.len() {
            let _ = q.exports[e];
        } else {
            let _ = persistent_global_exports(q, q.globals.len())[e - q.exports.len()];
        }
    }
}

/// Whether the code of the module can be held in memory.
pub open spec fn code_is_finite(m: ModuleView) -> bool {
    forall|b: int|
        0 <= b < m.code_sections.len() ==> (#[trigger] m.code_sections[b]).instructions.len()
            <= usize::MAX
}

/// The module with the instrumented code and with what the inserted code
/// needs, before the replacements take the place of host functions.
pub open spec fn with_symbols(
    m: ModuleView,
    write_barrier: FlagStatus,
    wasm_native_stable_memory: FlagStatus,
) -> ModuleView {
    let p = prepared(m, write_barrier, wasm_native_stable_memory);
    let data = planned_export_data(p, wasm_native_stable_memory);
    with_additional_symbols(
        ModuleView {
            start: None,
            code_sections: instrumented_code(p, data, write_barrier),
            ..p
        },
        data,
        wasm_native_stable_memory,
        (stable_memory_index(m, write_barrier, wasm_native_stable_memory) + 1) as u32,
    )
}

proof fn lemma_with_symbols_in_bounds(
    m: ModuleView,
    write_barrier: FlagStatus,
    stable: FlagStatus,
    replacements: nat,
)
    requires
        instrumentable(m, stable, replacements),
        code_is_finite(m),
    ensures
        function_indices_in_bounds(with_symbols(m, write_barrier, stable)),
        with_symbols(m, write_barrier, stable).function_count() == m.function_count()
            + InjectedImports::spec_count(stable) + if stable == FlagStatus::Enabled {
            2nat
        } else {
            1nat
        },
        with_symbols(m, write_barrier, stable).function_count() + replacements <= u32::MAX,
{
    let h = with_helper_functions(m, stable);
    let p = prepared(m, write_barrier, stable);
    let data = planned_export_data(p, stable);
    let result = with_symbols(m, write_barrier, stable);
    lemma_import_counts(m.imports);
    lemma_helper_functions_keep_bounds(m, stable);
    lemma_helper_functions_shape(m, stable);
    lemma_prepared_shape(m, write_barrier, stable);
    lemma_prepared_function_exports(h, write_barrier, stable, h.function_count());
    let bound = result.function_count();
    assert(data.decr_instruction_counter_fn == p.function_count());
    let below = |i: u32| i < h.function_count();
    assert forall|b: int, k: int|
        0 <= b < result.code_sections.len() && 0 <= k
            < result.code_sections[b].instructions.len() implies (function_operand(
        #[trigger] result.code_sections[b].instructions[k],
    ) matches Some(i) ==> i < bound) by {
        if b < p.code_sections.len() {
            let body = p.code_sections[b];
            assert(body.instructions.len() == m.code_sections[b].instructions.len());
            assert(names_functions_below(body.instructions, bound)) by {
                assert forall|j: int| 0 <= j < body.instructions.len() implies (function_operand(
                    #[trigger] body.instructions[j],
                ) matches Some(i) ==> i < bound) by {
                    let _ = h.code_sections[b].instructions[j];
                }
            }
            lemma_instrumented_body_names(body, param_count(p, b), data, write_barrier, bound);
            assert(result.code_sections[b] == instrumented_body(
                body,
                param_count(p, b),
                data,
                write_barrier,
            ));
        } else if b == p.code_sections.len() {
            assert(result.code_sections[b] == decr_instruction_counter_body(
                data.instructions_counter_ix,
            ));
        } else {
            assert(result.code_sections[b] == count_clean_pages_body(
                (stable_memory_index(m, write_barrier, stable) + 1) as u32,
            ));
        }
    }
    assert forall|e: int|
        0 <= e < result.exports.len() && (#[trigger] result.exports[e]).kind
            == ExternalKind::Func implies result.exports[e].index < bound by {
        if e < p.exports.len() {
            let _ = p.exports[e];
        }
    }
    assert forall|s: int, k: int|
        0 <= s < result.elements.len() && 0 <= k < element_functions(
            result.elements[s],
        ).len() implies #[trigger] element_functions(result.elements[s])[k] < bound by {
        assert(below(element_functions(h.elements[s])[k]));
    }
}

/// What the replacements that a module has a use for add to it: functions
/// behind its functions, each with a body of the replacements; and the
/// renumbering that they ask for names these functions.
proof fn lemma_replacement_functions_in_bounds(
    m: ModuleView,
    replacements: Seq<ReplacementView>,
    n: nat,
)
    requires
        n <= replacements.len(),
        function_indices_in_bounds(m),
        m.function_count() + n <= u32::MAX,
        forall|k: int|
            0 <= k < replacements.len() ==> names_functions_below(
                (#[trigger] replacements[k]).body.instructions,
                m.function_count(),
            ),
    ensures
        ({
            let (added, pairs) = with_replacement_functions(m, replacements, n);
            &&& added.imports == m.imports
            &&& added.exports == m.exports
            &&& added.elements == m.elements
            &&& added.start == m.start
            &&& m.function_count() <= added.function_count() <= m.function_count() + n
            &&& added.code_sections.len() >= m.code_sections.len()
            &&& forall|b: int|
                0 <= b < added.code_sections.len() ==> names_functions_below(
                    (#[trigger] added.code_sections[b]).instructions,
                    added.function_count(),
                )
            &&& forall|j: int| 0 <= j < pairs.len() ==> (#[trigger] pairs[j]).1 < added.function_count()
        }),
    decreases n,
{
    if n == 0 {
        assert forall|b: int| 0 <= b < m.code_sections.len() implies names_functions_below(
            (#[trigger] m.code_sections[b]).instructions,
            m.function_count(),
        ) by {
            assert forall|k: int|
                0 <= k < m.code_sections[b].instructions.len() implies (function_operand(
                #[trigger] m.code_sections[b].instructions[k],
            ) matches Some(i) ==> i < m.function_count()) by {}
        }
    } else {
        lemma_replacement_functions_in_bounds(m, replacements, (n - 1) as nat);
        let (so_far, pairs_so_far) = with_replacement_functions(m, replacements, (n - 1) as nat);
        let (added, pairs) = with_replacement_functions(m, replacements, n);
        let replacement = replacements[n - 1];
        if api_index(m.imports, replacement.name) is Some {
            assert forall|b: int| 0 <= b < added.code_sections.len() implies names_functions_below(
                (#[trigger] added.code_sections[b]).instructions,
                added.function_count(),
            ) by {
                if b < so_far.code_sections.len() {
                    assert(added.code_sections[b] == so_far.code_sections[b]);
                    lemma_names_weaken(
                        so_far.code_sections[b].instructions,
                        so_far.function_count(),
                        added.function_count(),
                    );
                } else {
                    lemma_names_weaken(
                        replacement.body.instructions,
                        m.function_count(),
                        added.function_count(),
                    );
                }
            }
            assert forall|j: int| 0 <= j < pairs.len() implies (#[trigger] pairs[j]).1
                < added.function_count() by {
                if j < pairs_so_far.len() {
                    assert(pairs[j] == pairs_so_far[j]);
                }
            }
        }
    }
}

proof fn lemma_names_weaken(code: Seq<Instruction>, bound: nat, weaker: nat)
    requires
        names_functions_below(code, bound),
        bound <= weaker,
    ensures
        names_functions_below(code, weaker),
{
}

proof fn lemma_replaced_in_bounds(pairs: Seq<(u32, u32)>, i: u32, bound: nat)
    requires
        i < bound,
        forall|j: int| 0 <= j < pairs.len() ==> (#[trigger] pairs[j]).1 < bound,
    ensures
        replaced(pairs, i) < bound,
    decreases pairs.len(),
{
    if pairs.len() > 0 {
        let _ = pairs[pairs.len() - 1];
        assert forall|j: int| 0 <= j < pairs.drop_last().len() implies (
        #[trigger] pairs.drop_last()[j]).1 < bound by {
            assert(pairs.drop_last()[j] == pairs[j]);
        }
        lemma_replaced_in_bounds(pairs.drop_last(), i, bound);
    }
}

/// Instrumentation keeps the function indices of a module in bounds: in
/// the instrumented module, every function index, among them those in the
/// code that was inserted, names a function of the module. With the stable
/// memory this holds where the replacements name no functions but those
/// that the module has before they are added.
pub proof fn lemma_instrumented_indices_in_bounds(
    m: ModuleView,
    write_barrier: FlagStatus,
    wasm_native_stable_memory: FlagStatus,
    replacements: Seq<ReplacementView>,
)
    requires
        instrumentable(m, wasm_native_stable_memory, replacements.len()),
        code_is_finite(m),
        wasm_native_stable_memory == FlagStatus::Enabled ==> forall|k: int|
            0 <= k < replacements.len() ==> names_functions_below(
                (#[trigger] replacements[k]).body.instructions,
                m.function_count() + 7,
            ),
    ensures
        function_indices_in_bounds(
            instrumented(m, write_barrier, wasm_native_stable_memory, replacements),
        ),
{
    let before = with_symbols(m, write_barrier, wasm_native_stable_memory);
    let result = instrumented(m, write_barrier, wasm_native_stable_memory, replacements);
    lemma_with_symbols_in_bounds(m, write_barrier, wasm_native_stable_memory, replacements.len());
    if wasm_native_stable_memory == FlagStatus::Enabled {
        lemma_replacement_functions_in_bounds(before, replacements, replacements.len());
        let (added, pairs) = with_replacement_functions(before, replacements, replacements.len());
        let bound = added.function_count();
        let map = FunctionIndexMapView::Replace { pairs };
        assert(result.function_count() == bound);
        let below = |i: u32| i < before.function_count();
        assert forall|b: int, k: int|
            0 <= b < result.code_sections.len() && 0 <= k
                < result.code_sections[b].instructions.len() implies (function_operand(
            #[trigger] result.code_sections[b].instructions[k],
        ) matches Some(i) ==> i < bound) by {
            let i = added.code_sections[b].instructions[k];
            assert(names_functions_below(added.code_sections[b].instructions, bound));
            if let Some(index) = function_operand(i) {
                lemma_replaced_in_bounds(pairs, index, bound);
            }
        }
        assert forall|e: int|
            0 <= e < result.exports.len() && (#[trigger] result.exports[e]).kind
                == ExternalKind::Func implies result.exports[e].index < bound by {
            assert(below(before.exports[e].index));
            lemma_replaced_in_bounds(pairs, before.exports[e].index, bound);
        }
        assert forall|s: int, k: int|
            0 <= s < result.elements.len() && 0 <= k < element_functions(
                result.elements[s],
            ).len() implies #[trigger] element_functions(result.elements[s])[k] < bound by {
            let index = element_functions(before.elements[s])[k];
            assert(below(index));
            lemma_replaced_in_bounds(pairs, index, bound);
        }
    }
}

} // verus!
