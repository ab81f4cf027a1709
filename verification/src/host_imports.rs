//! The import of the host functions that the instrumented code calls.

use crate::metering::{FlagStatus, InjectedImports};
use crate::model::{
    function_import_count, group_views, lemma_function_imports, lemma_import_counts_concat,
    ExternalKind, FuncType, FuncTypeView, Import, ImportView, Module, ModuleView, TypeRef, ValType,
};
use crate::renumber::{
    all_function_indices, element_functions, function_operand, mutate_function_indices,
    remap_module, FunctionIndexMap, FunctionIndexMapView,
};
use vstd::prelude::*;

verus! {

/// The module name under which the host functions are imported.
pub const INSTRUMENTED_FUN_MODULE: &'static str = "__";

/// Called when the instructions counter has gone below zero.
pub const OUT_OF_INSTRUCTIONS_FUN_NAME: &'static str = "out_of_instructions";

/// Called after every `memory.grow` of the heap.
pub const UPDATE_MEMORY_FUN_NAME: &'static str = "update_available_memory";

/// Called to grow the stable memory.
pub const TRY_GROW_STABLE_MEMORY_FUN_NAME: &'static str = "try_grow_stable_memory";

/// Called to give pages of the stable memory back.
pub const DEALLOCATE_PAGES_NAME: &'static str = "deallocate_pages";

/// Called to stop the execution with an error code.
pub const INTERNAL_TRAP_FUN_NAME: &'static str = "internal_trap";

/// The index of the first type of `types` that equals `ty`; their number if
/// there is none.
pub open spec fn type_index(types: Seq<FuncTypeView>, ty: FuncTypeView) -> int {
    match types.index_of_first(ty) {
        Some(i) => i,
        None => types.len() as int,
    }
}

/// The types with `ty` among them: it is appended unless it is there.
pub open spec fn with_type(types: Seq<FuncTypeView>, ty: FuncTypeView) -> Seq<FuncTypeView> {
    if types.contains(ty) {
        types
    } else {
        types.push(ty)
    }
}

/// What `type_index` is: the place of the first occurrence.
pub proof fn lemma_type_index(types: Seq<FuncTypeView>, ty: FuncTypeView, i: int)
    requires
        0 <= i <= types.len(),
        forall|j: int| 0 <= j < i ==> types[j] != ty,
        i < types.len() ==> types[i] == ty,
    ensures
        type_index(types, ty) == i,
        types.contains(ty) <==> i < types.len(),
{
    types.index_of_first_ensures(ty);
    if i < types.len() {
        assert(types.contains(ty));
    } else if types.contains(ty) {
        let j = choose|j: int| 0 <= j < types.len() && types[j] == ty;
        assert(types[j] != ty);
    }
}

/// One more type does not move the first occurrence of a type that is there.
pub proof fn lemma_type_index_stable(
    types: Seq<FuncTypeView>,
    ty: FuncTypeView,
    other: FuncTypeView,
)
    requires
        types.contains(ty),
    ensures
        type_index(with_type(types, other), ty) == type_index(types, ty),
        with_type(types, other).contains(ty),
{
    types.index_of_first_ensures(ty);
    let i = type_index(types, ty);
    let after = with_type(types, other);
    assert(after[i] == ty);
    assert forall|j: int| 0 <= j < i implies after[j] != ty by {
        assert(after[j] == types[j]);
    }
    lemma_type_index(after, ty, i);
}

/// Whether two signatures are the same.
pub fn func_type_eq(a: &FuncType, b: &FuncType) -> (same: bool)
    ensures
        same == (a@ == b@),
{
    if a.params.len() != b.params.len() || a.results.len() != b.results.len() {
        return false;
    }
    let mut i: usize = 0;
    while i < a.params.len()
        invariant
            i <= a.params.len(),
            a.params.len() == b.params.len(),
            forall|j: int| 0 <= j < i ==> a.params@[j] == b.params@[j],
        decreases a.params.len() - i,
    {
        if a.params[i] != b.params[i] {
            return false;
        }
        i = i + 1;
    }
    let mut i: usize = 0;
    while i < a.results.len()
        invariant
            i <= a.results.len(),
            a.results.len() == b.results.len(),
            a.params@ =~= b.params@,
            forall|j: int| 0 <= j < i ==> a.results@[j] == b.results@[j],
        decreases a.results.len() - i,
    {
        if a.results[i] != b.results[i] {
            return false;
        }
        i = i + 1;
    }
    assert(a.results@ =~= b.results@);
    true
}

/// Gives the index of the first type of the module that equals `ty`; where
/// there is none, `ty` becomes the last type of the module.
pub fn add_type(module: &mut Module, ty: FuncType) -> (idx: u32)
    requires
        old(module).types.len() <= u32::MAX,
    ensures
        idx == type_index(old(module)@.types, ty@),
        final(module)@ == (ModuleView {
            types: with_type(old(module)@.types, ty@),
            ..old(module)@
        }),
{
    broadcast use group_views;

    let n = module.types.len();
    let mut idx: usize = 0;
    while idx < n
        invariant
            n == module.types.len(),
            n <= u32::MAX,
            *module == *old(module),
            idx <= n,
            forall|j: int| 0 <= j < idx ==> module@.types[j] != ty@,
        decreases n - idx,
    {
        if func_type_eq(&module.types[idx], &ty) {
            proof {
                lemma_type_index(module@.types, ty@, idx as int);
            }
            return idx as u32;
        }
        idx = idx + 1;
    }
    proof {
        lemma_type_index(module@.types, ty@, n as int);
    }
    module.types.push(ty);
    n as u32
}

/// The host functions that are imported: `out_of_instructions` and
/// `update_available_memory` always, the other three for the stable memory.
pub open spec fn host_functions(wasm_native_stable_memory: FlagStatus) -> Seq<InjectedImports> {
    if wasm_native_stable_memory == FlagStatus::Enabled {
        seq![
            InjectedImports::OutOfInstructions,
            InjectedImports::UpdateAvailableMemory,
            InjectedImports::TryGrowStableMemory,
            InjectedImports::DeallocatePages,
            InjectedImports::InternalTrap,
        ]
    } else {
        seq![InjectedImports::OutOfInstructions, InjectedImports::UpdateAvailableMemory]
    }
}

/// The signature of a host function.
pub open spec fn host_function_type(host: InjectedImports) -> FuncTypeView {
    match host {
        InjectedImports::OutOfInstructions => FuncTypeView { params: seq![], results: seq![] },
        InjectedImports::UpdateAvailableMemory => FuncTypeView {
            params: seq![ValType::I32, ValType::I32],
            results: seq![ValType::I32],
        },
        InjectedImports::TryGrowStableMemory => FuncTypeView {
            params: seq![ValType::I64, ValType::I64, ValType::I32],
            results: seq![ValType::I64],
        },
        InjectedImports::DeallocatePages => FuncTypeView {
            params: seq![ValType::I64],
            results: seq![],
        },
        InjectedImports::InternalTrap => FuncTypeView {
            params: seq![ValType::I32],
            results: seq![],
        },
    }
}

/// The name under which a host function is imported.
pub open spec fn host_function_name(host: InjectedImports) -> Seq<char> {
    match host {
        InjectedImports::OutOfInstructions => OUT_OF_INSTRUCTIONS_FUN_NAME@,
        InjectedImports::UpdateAvailableMemory => UPDATE_MEMORY_FUN_NAME@,
        InjectedImports::TryGrowStableMemory => TRY_GROW_STABLE_MEMORY_FUN_NAME@,
        InjectedImports::DeallocatePages => DEALLOCATE_PAGES_NAME@,
        InjectedImports::InternalTrap => INTERNAL_TRAP_FUN_NAME@,
    }
}

/// The types with the signatures of the first `n` of `hosts` among them.
pub open spec fn with_host_types(
    types: Seq<FuncTypeView>,
    hosts: Seq<InjectedImports>,
    n: nat,
) -> Seq<FuncTypeView>
    decreases n,
{
    if n == 0 {
        types
    } else {
        with_type(with_host_types(types, hosts, (n - 1) as nat), host_function_type(hosts[n - 1]))
    }
}

/// The import of a host function into a module with the types `types`: it
/// names the first type that equals its signature.
pub open spec fn host_import(types: Seq<FuncTypeView>, host: InjectedImports) -> ImportView {
    ImportView {
        module: INSTRUMENTED_FUN_MODULE@,
        name: host_function_name(host),
        ty: TypeRef::Func(type_index(types, host_function_type(host)) as u32),
    }
}

/// The module with the host functions as its first imports.
///
/// Their signatures are appended to the types where they are missing. Every
/// function that the module had has moved up by the number of the host
/// functions, and every function index in it has grown by that number.
pub open spec fn with_helper_functions(
    m: ModuleView,
    wasm_native_stable_memory: FlagStatus,
) -> ModuleView {
    let hosts = host_functions(wasm_native_stable_memory);
    let types = with_host_types(m.types, hosts, hosts.len());
    remap_module(
        ModuleView {
            types,
            imports: hosts.map_values(|host: InjectedImports| host_import(types, host))
                + m.imports,
            ..m
        },
        FunctionIndexMapView::Shift { by: hosts.len() as u32 },
    )
}

fn host_type(host: InjectedImports) -> (ty: FuncType)
    ensures
        ty@ == host_function_type(host),
{
    let ty = match host {
        InjectedImports::OutOfInstructions => FuncType { params: vec![], results: vec![] },
        InjectedImports::UpdateAvailableMemory => FuncType {
            params: vec![ValType::I32, ValType::I32],
            results: vec![ValType::I32],
        },
        InjectedImports::TryGrowStableMemory => FuncType {
            params: vec![ValType::I64, ValType::I64, ValType::I32],
            results: vec![ValType::I64],
        },
        InjectedImports::DeallocatePages => FuncType {
            params: vec![ValType::I64],
            results: vec![],
        },
        InjectedImports::InternalTrap => FuncType { params: vec![ValType::I32], results: vec![] },
    };
    assert(ty@.params =~= host_function_type(host).params);
    assert(ty@.results =~= host_function_type(host).results);
    ty
}

fn host_name(host: InjectedImports) -> (name: String)
    ensures
        name@ == host_function_name(host),
{
    match host {
        InjectedImports::OutOfInstructions => OUT_OF_INSTRUCTIONS_FUN_NAME.to_owned(),
        InjectedImports::UpdateAvailableMemory => UPDATE_MEMORY_FUN_NAME.to_owned(),
        InjectedImports::TryGrowStableMemory => TRY_GROW_STABLE_MEMORY_FUN_NAME.to_owned(),
        InjectedImports::DeallocatePages => DEALLOCATE_PAGES_NAME.to_owned(),
        InjectedImports::InternalTrap => INTERNAL_TRAP_FUN_NAME.to_owned(),
    }
}

/// Imports the host functions that the instrumented code calls:
/// `out_of_instructions`, called when the counter has gone below zero, and
/// `update_available_memory`, called after every `memory.grow`; with the
/// stable memory, three more.
///
/// They become the first imports, so that every function index of the
/// module grows by their number, whether it names an import or not.
pub fn inject_helper_functions(module: Module, wasm_native_stable_memory: FlagStatus) -> (result:
    Module)
    requires
        module.types.len() + InjectedImports::spec_count(wasm_native_stable_memory) <= u32::MAX,
        all_function_indices(
            module@,
            |i: u32| i + InjectedImports::spec_count(wasm_native_stable_memory) <= u32::MAX,
        ),
    ensures
        result@ == with_helper_functions(module@, wasm_native_stable_memory),
{
    broadcast use group_views;

    let ghost before = module@;
    let mut module = module;
    let mut hosts: Vec<InjectedImports> = Vec::new();
    hosts.push(InjectedImports::OutOfInstructions);
    hosts.push(InjectedImports::UpdateAvailableMemory);
    if wasm_native_stable_memory == FlagStatus::Enabled {
        hosts.push(InjectedImports::TryGrowStableMemory);
        hosts.push(InjectedImports::DeallocatePages);
        hosts.push(InjectedImports::InternalTrap);
    }
    assert(hosts@ =~= host_functions(wasm_native_stable_memory));
    let cnt = hosts.len();
    let mut imports: Vec<Import> = Vec::new();
    let mut k: usize = 0;
    while k < cnt
        invariant
            k <= cnt,
            cnt == hosts.len(),
            cnt <= 5,
            before.types.len() + cnt <= u32::MAX,
            module.types.len() <= before.types.len() + k,
            module@ == (ModuleView {
                types: with_host_types(before.types, hosts@, k as nat),
                ..before
            }),
            imports.len() == k,
            forall|j: int|
                0 <= j < k ==> (#[trigger] imports@[j])@ == host_import(module@.types, hosts@[j])
                    && module@.types.contains(host_function_type(hosts@[j])),
        decreases cnt - k,
    {
        let host = hosts[k];
        let ghost types = module@.types;
        let ty = host_type(host);
        let idx = add_type(&mut module, ty);
        proof {
            module@.types.index_of_first_ensures(host_function_type(host));
            types.index_of_first_ensures(host_function_type(host));
            if types.contains(host_function_type(host)) {
                lemma_type_index_stable(types, host_function_type(host), host_function_type(host));
            } else {
                assert(module@.types.last() == host_function_type(host));
                lemma_type_index(module@.types, host_function_type(host), types.len() as int);
            }
            assert forall|j: int| 0 <= j < k implies (#[trigger] imports@[j])@ == host_import(
                module@.types,
                hosts@[j],
            ) && module@.types.contains(host_function_type(hosts@[j])) by {
                lemma_type_index_stable(
                    types,
                    host_function_type(hosts@[j]),
                    host_function_type(host),
                );
            }
        }
        imports.push(
            Import {
                module: INSTRUMENTED_FUN_MODULE.to_owned(),
                name: host_name(host),
                ty: TypeRef::Func(idx),
            },
        );
        k = k + 1;
    }
    imports.append(&mut module.imports);
    module.imports = imports;
    proof {
        let types = with_host_types(before.types, hosts@, cnt as nat);
        assert(module@.imports =~= hosts@.map_values(
            |host: InjectedImports| host_import(types, host),
        ) + before.imports);
    }
    let map = FunctionIndexMap::Shift { by: cnt as u32 };
    mutate_function_indices(&mut module, &map);
    module
}

/// The signatures of host functions are appended to the types: the types
/// that were there stay where they are.
pub proof fn lemma_with_host_types(types: Seq<FuncTypeView>, hosts: Seq<InjectedImports>, n: nat)
    ensures
        types.len() <= with_host_types(types, hosts, n).len() <= types.len() + n,
        forall|j: int|
            0 <= j < types.len() ==> (#[trigger] with_host_types(types, hosts, n)[j]) == types[j],
    decreases n,
{
    if n > 0 {
        lemma_with_host_types(types, hosts, (n - 1) as nat);
    }
}

/// What the import of the host functions leaves as it is, and what it adds.
pub proof fn lemma_helper_functions_shape(m: ModuleView, wasm_native_stable_memory: FlagStatus)
    ensures
        ({
            let h = with_helper_functions(m, wasm_native_stable_memory);
            let count = InjectedImports::spec_count(wasm_native_stable_memory);
            &&& h.functions == m.functions
            &&& h.globals == m.globals
            &&& h.memories == m.memories
            &&& h.tables == m.tables
            &&& h.data == m.data
            &&& m.types.len() <= h.types.len() <= m.types.len() + count
            &&& forall|j: int| 0 <= j < m.types.len() ==> (#[trigger] h.types[j]) == m.types[j]
            &&& h.imports.len() == m.imports.len() + count
            &&& h.function_count() == m.function_count() + count
            &&& h.global_count() == m.global_count()
            &&& h.code_sections.len() == m.code_sections.len()
            &&& forall|i: int|
                0 <= i < m.code_sections.len() ==> (#[trigger] h.code_sections[i]).locals
                    == m.code_sections[i].locals
            &&& h.exports.len() == m.exports.len()
            &&& forall|e: int|
                0 <= e < m.exports.len() ==> (#[trigger] h.exports[e]).kind == m.exports[e].kind
                    && (m.exports[e].kind != ExternalKind::Func ==> h.exports[e] == m.exports[e])
        }),
{
    let hosts = host_functions(wasm_native_stable_memory);
    let types = with_host_types(m.types, hosts, hosts.len());
    let imports = hosts.map_values(|host: InjectedImports| host_import(types, host));
    lemma_with_host_types(m.types, hosts, hosts.len());
    lemma_function_imports(imports);
    lemma_import_counts_concat(imports, m.imports);
}

/// What a function index names.
pub enum FunctionOrigin {
    /// A function that the module imports.
    Imported(ImportView),
    /// The function that the module defines at this place of its list of
    /// functions.
    Defined(int),
}

/// The import of the function `i`, among imports of which at least `i + 1`
/// are functions.
pub open spec fn function_import(imports: Seq<ImportView>, i: nat) -> ImportView
    decreases imports.len(),
{
    if imports.len() == 0 {
        arbitrary()
    } else if imports.first().ty is Func {
        if i == 0 {
            imports.first()
        } else {
            function_import(imports.drop_first(), (i - 1) as nat)
        }
    } else {
        function_import(imports.drop_first(), i)
    }
}

/// The function that the index `i` names in the module: the imported
/// functions come first, in the order of their imports; the functions of
/// the module follow.
pub open spec fn function_origin(m: ModuleView, i: nat) -> Option<FunctionOrigin> {
    let imported = function_import_count(m.imports);
    if i < imported {
        Some(FunctionOrigin::Imported(function_import(m.imports, i)))
    } else if i < imported + m.functions.len() {
        Some(FunctionOrigin::Defined(i - imported))
    } else {
        None
    }
}

/// Behind `hosts` more imports, all of them functions, the function import
/// `i` is the function import `i + hosts.len()`.
proof fn lemma_function_import_shifted(hosts: Seq<ImportView>, imports: Seq<ImportView>, i: nat)
    requires
        forall|j: int| 0 <= j < hosts.len() ==> (#[trigger] hosts[j]).ty is Func,
    ensures
        function_import(hosts + imports, i + hosts.len()) == function_import(imports, i),
    decreases hosts.len(),
{
    if hosts.len() == 0 {
        assert(hosts + imports =~= imports);
    } else {
        assert((hosts + imports).drop_first() =~= hosts.drop_first() + imports);
        assert((hosts + imports).first() == hosts[0]);
        lemma_function_import_shifted(hosts.drop_first(), imports, i);
    }
}

/// The import of the host functions keeps every reference to a function on
/// its function.
///
/// With `count` host functions imported, the function that had the index
/// `i` has the index `i + count`: it is the same import, or the function at
/// the same place of the list of functions. And wherever the module named
/// the function `i`, in an instruction, an export, an element segment or
/// as its start function, it now names `i + count`.
pub proof fn lemma_index_integrity(m: ModuleView, wasm_native_stable_memory: FlagStatus, i: u32)
    requires
        i + InjectedImports::spec_count(wasm_native_stable_memory) <= u32::MAX,
    ensures
        ({
            let h = with_helper_functions(m, wasm_native_stable_memory);
            let count = InjectedImports::spec_count(wasm_native_stable_memory);
            let moved = (i + count) as u32;
            &&& function_origin(h, moved as nat) == function_origin(m, i as nat)
            &&& h.functions == m.functions
            &&& h.code_sections.len() == m.code_sections.len()
            &&& forall|b: int, k: int|
                0 <= b < m.code_sections.len() && 0 <= k < m.code_sections[b].instructions.len()
                    && function_operand(#[trigger] m.code_sections[b].instructions[k]) == Some(i)
                    ==> function_operand(h.code_sections[b].instructions[k]) == Some(moved)
            &&& forall|e: int|
                0 <= e < m.exports.len() && (#[trigger] m.exports[e]).kind == ExternalKind::Func
                    && m.exports[e].index == i ==> h.exports[e].kind == ExternalKind::Func
                    && h.exports[e].index == moved
            &&& forall|s: int, k: int|
                0 <= s < m.elements.len() && 0 <= k < element_functions(m.elements[s]).len()
                    && #[trigger] element_functions(m.elements[s])[k] == i ==> element_functions(
                    h.elements[s],
                )[k] == moved
            &&& m.start == Some(i) ==> h.start == Some(moved)
        }),
{
    let hosts = host_functions(wasm_native_stable_memory);
    let types = with_host_types(m.types, hosts, hosts.len());
    let imports = hosts.map_values(|host: InjectedImports| host_import(types, host));
    lemma_function_import_shifted(imports, m.imports, i as nat);
    lemma_function_imports(imports);
    lemma_import_counts_concat(imports, m.imports);
}

/// In a module whose function indices all name functions of the module,
/// they still do when the host functions are imported.
pub proof fn lemma_helper_functions_keep_bounds(m: ModuleView, wasm_native_stable_memory: FlagStatus)
    requires
        all_function_indices(m, |i: u32| i < m.function_count()),
        m.function_count() + InjectedImports::spec_count(wasm_native_stable_memory) <= u32::MAX,
    ensures
        all_function_indices(
            with_helper_functions(m, wasm_native_stable_memory),
            |i: u32| i < with_helper_functions(m, wasm_native_stable_memory).function_count(),
        ),
{
    let hosts = host_functions(wasm_native_stable_memory);
    let types = with_host_types(m.types, hosts, hosts.len());
    let imports = hosts.map_values(|host: InjectedImports| host_import(types, host));
    lemma_function_imports(imports);
    lemma_import_counts_concat(imports, m.imports);
    let h = with_helper_functions(m, wasm_native_stable_memory);
    let below = |i: u32| i < m.function_count();
    assert forall|b: int, k: int|
        0 <= b < h.code_sections.len() && 0 <= k < h.code_sections[b].instructions.len() implies (
    function_operand(#[trigger] h.code_sections[b].instructions[k]) matches Some(i) ==> i
        < h.function_count()) by {
        if let Some(i) = function_operand(m.code_sections[b].instructions[k]) {
            assert(below(i));
        }
    }
    assert forall|e: int|
        0 <= e < h.exports.len() && (#[trigger] h.exports[e]).kind
            == ExternalKind::Func implies h.exports[e].index < h.function_count() by {
        assert(m.exports[e].kind == ExternalKind::Func);
        assert(below(m.exports[e].index));
    }
    assert forall|s: int, k: int|
        0 <= s < h.elements.len() && 0 <= k < element_functions(
            h.elements[s],
        ).len() implies #[trigger] element_functions(h.elements[s])[k] < h.function_count() by {
        assert(below(element_functions(m.elements[s])[k]));
    }
    if let Some(i) = m.start {
        assert(below(i));
    }
}

} // verus!
