//! The exports and memories that the host expects of an instrumented module.

use crate::metering::FlagStatus;
use crate::model::{
    group_views, views, Export, ExportView, ExternalKind, Global, MemoryType, Module, ModuleView,
};
use crate::write_barrier::PAGE_SIZE;
use vstd::prelude::*;
use vstd::string::StringExecFns;

verus! {

/// The name under which the table is exported.
pub const TABLE_STR: &'static str = "table";

/// The name under which the heap is exported.
pub const WASM_HEAP_MEMORY_NAME: &'static str = "memory";

/// The name of the memory that holds one byte for each page of the heap.
pub const WASM_HEAP_BYTEMAP_MEMORY_NAME: &'static str = "bytemap_memory";

/// The name of the stable memory.
pub const STABLE_MEMORY_NAME: &'static str = "stable_memory";

/// The name of the memory that holds one byte for each page of the stable
/// memory.
pub const STABLE_BYTEMAP_MEMORY_NAME: &'static str = "stable_memory_bytemap";

/// The name of the export of a mutable global that had none is this prefix
/// and the index of the global in decimal.
pub const PERSISTENT_GLOBAL_PREFIX: &'static str = "__persistent_mutable_global_";

/// The size of a page of a memory of the module, in bytes.
pub const WASM_PAGE_SIZE: u64 = 65536;

/// The largest heap, in bytes.
pub const MAX_WASM_MEMORY_IN_BYTES: u64 = 4 * 1024 * 1024 * 1024;

/// The largest stable memory, in bytes.
pub const MAX_STABLE_MEMORY_IN_BYTES: u64 = 48 * 1024 * 1024 * 1024;

/// The pages of the memory that holds one byte for each host page of the
/// largest heap.
pub const BYTEMAP_SIZE_IN_WASM_PAGES: u64 = MAX_WASM_MEMORY_IN_BYTES / PAGE_SIZE / WASM_PAGE_SIZE;

/// The pages of the largest stable memory.
pub const MAX_STABLE_MEMORY_IN_WASM_PAGES: u64 = MAX_STABLE_MEMORY_IN_BYTES / WASM_PAGE_SIZE;

/// The pages of the memory that holds one byte for each page of the largest
/// stable memory.
pub const STABLE_BYTEMAP_SIZE_IN_WASM_PAGES: u64 = MAX_STABLE_MEMORY_IN_WASM_PAGES / PAGE_SIZE;

/// The exports, each of the given kind under the name `name`.
pub open spec fn renamed(exports: Seq<ExportView>, kind: ExternalKind, name: Seq<char>) -> Seq<
    ExportView,
> {
    exports.map_values(
        |e: ExportView|
            if e.kind == kind {
                ExportView { name, ..e }
            } else {
                e
            },
    )
}

/// Whether something of the given kind is exported.
pub open spec fn exports_kind(exports: Seq<ExportView>, kind: ExternalKind) -> bool {
    exists|i: int| 0 <= i < exports.len() && (#[trigger] exports[i]).kind == kind
}

/// The exports with what the module has of `kind` under the name `name`:
/// every export of that kind is renamed; where there is none and the module
/// has `count` > 0 items of the kind, the first of them is exported.
pub open spec fn normalized_exports(
    exports: Seq<ExportView>,
    kind: ExternalKind,
    name: Seq<char>,
    count: nat,
) -> Seq<ExportView> {
    if !exports_kind(exports, kind) && count > 0 {
        renamed(exports, kind, name).push(ExportView { name, kind, index: 0 })
    } else {
        renamed(exports, kind, name)
    }
}

/// The module with its table exported as `table`.
pub open spec fn with_table_export(m: ModuleView) -> ModuleView {
    ModuleView {
        exports: normalized_exports(m.exports, ExternalKind::Table, TABLE_STR@, m.tables.len()),
        ..m
    }
}

/// Renames every export of `kind` to `name`; tells whether there was one.
fn rename_exports(exports: &mut Vec<Export>, kind: ExternalKind, name: &str) -> (found: bool)
    ensures
        found == exports_kind(views(old(exports)@), kind),
        views(final(exports)@) == renamed(views(old(exports)@), kind, name@),
{
    let mut found = false;
    let n = exports.len();
    let mut i: usize = 0;
    while i < n
        invariant
            n == exports.len(),
            n == old(exports).len(),
            i <= n,
            found <==> exists|j: int| 0 <= j < i && (#[trigger] old(exports)@[j]).kind == kind,
            forall|j: int|
                0 <= j < i ==> (#[trigger] exports@[j])@ == renamed(
                    views(old(exports)@),
                    kind,
                    name@,
                )[j],
            forall|j: int| i <= j < n ==> exports@[j] == old(exports)@[j],
        decreases n - i,
    {
        if exports[i].kind == kind {
            found = true;
            rename(&mut exports[i], name);
        }
        i = i + 1;
    }
    proof {
        assert(views(exports@) =~= renamed(views(old(exports)@), kind, name@));
        if found {
            let j = choose|j: int| 0 <= j < n && (#[trigger] old(exports)@[j]).kind == kind;
            assert(views(old(exports)@)[j].kind == kind);
        }
        if exports_kind(views(old(exports)@), kind) {
            let j = choose|j: int|
                0 <= j < n && (#[trigger] views(old(exports)@)[j]).kind == kind;
            assert(old(exports)@[j].kind == kind);
        }
    }
    found
}

fn rename(export: &mut Export, name: &str)
    ensures
        final(export)@ == (ExportView { name: name@, ..old(export)@ }),
{
    export.name = name.to_owned();
}

/// Exports the table of the module under the name `table`: an export of a
/// table gets that name; where the module has a table and exports none, its
/// first table is exported.
pub fn export_table(module: Module) -> (result: Module)
    ensures
        result@ == with_table_export(module@),
{
    broadcast use group_views;

    let mut module = module;
    let table_already_exported = rename_exports(&mut module.exports, ExternalKind::Table, TABLE_STR);
    if !table_already_exported && !module.tables.is_empty() {
        let table_export = Export {
            name: TABLE_STR.to_owned(),
            kind: ExternalKind::Table,
            index: 0,
        };
        module.exports.push(table_export);
    }
    module
}

/// Exports that were normalized are normal: to normalize them once more
/// changes nothing.
pub proof fn lemma_normalized_exports_idempotent(
    exports: Seq<ExportView>,
    kind: ExternalKind,
    name: Seq<char>,
    count: nat,
)
    ensures
        normalized_exports(normalized_exports(exports, kind, name, count), kind, name, count)
            == normalized_exports(exports, kind, name, count),
{
    let once = normalized_exports(exports, kind, name, count);
    let twice = normalized_exports(once, kind, name, count);
    if exports_kind(exports, kind) {
        let i = choose|i: int| 0 <= i < exports.len() && (#[trigger] exports[i]).kind == kind;
        assert(once[i].kind == kind);
    } else if count > 0 {
        assert(once[once.len() - 1].kind == kind);
    } else {
        if exports_kind(once, kind) {
            let i = choose|i: int| 0 <= i < once.len() && (#[trigger] once[i]).kind == kind;
            assert(exports[i].kind == kind);
        }
    }
    assert(twice =~= once);
}

/// To export the table of a module whose table has been exported changes
/// nothing.
pub proof fn lemma_export_table_idempotent(m: ModuleView)
    ensures
        with_table_export(with_table_export(m)) == with_table_export(m),
{
    lemma_normalized_exports_idempotent(m.exports, ExternalKind::Table, TABLE_STR@, m.tables.len());
}

/// The memory that holds one byte for each host page of the heap.
pub open spec fn bytemap_memory() -> MemoryType {
    MemoryType {
        memory64: false,
        shared: false,
        initial: BYTEMAP_SIZE_IN_WASM_PAGES,
        maximum: Some(BYTEMAP_SIZE_IN_WASM_PAGES),
    }
}

/// The stable memory: empty at first, addressed with 64 bits.
pub open spec fn stable_memory() -> MemoryType {
    MemoryType {
        memory64: true,
        shared: false,
        initial: 0,
        maximum: Some(MAX_STABLE_MEMORY_IN_WASM_PAGES),
    }
}

/// The memory that holds one byte for each page of the stable memory.
pub open spec fn stable_bytemap_memory() -> MemoryType {
    MemoryType {
        memory64: false,
        shared: false,
        initial: STABLE_BYTEMAP_SIZE_IN_WASM_PAGES,
        maximum: Some(STABLE_BYTEMAP_SIZE_IN_WASM_PAGES),
    }
}

/// Whether the heap gets a bytemap memory: the write barrier is on and there is a
/// heap.
pub open spec fn heap_has_bytemap(m: ModuleView, write_barrier: FlagStatus) -> bool {
    write_barrier == FlagStatus::Enabled && m.memories.len() > 0
}

/// The index of the stable memory in the instrumented module: it follows the
/// memories of the module and the bytemap of the heap. Without a stable
/// memory, zero.
pub open spec fn stable_memory_index(
    m: ModuleView,
    write_barrier: FlagStatus,
    wasm_native_stable_memory: FlagStatus,
) -> u32 {
    if wasm_native_stable_memory == FlagStatus::Enabled {
        if heap_has_bytemap(m, write_barrier) {
            (m.memories.len() + 1) as u32
        } else {
            m.memories.len() as u32
        }
    } else {
        0
    }
}

/// The export of the memory `index` under `name`.
pub open spec fn memory_export(name: Seq<char>, index: u32) -> ExportView {
    ExportView { name, kind: ExternalKind::Memory, index }
}

/// The module with its heap exported as `memory` and with the memories of
/// the instrumentation, each exported under its name: the bytemap of the
/// heap as memory 1 where the heap has one; the stable memory and, right
/// behind it, its bytemap where the stable memory is on.
pub open spec fn with_memories(
    m: ModuleView,
    write_barrier: FlagStatus,
    wasm_native_stable_memory: FlagStatus,
) -> ModuleView {
    let exports = normalized_exports(
        m.exports,
        ExternalKind::Memory,
        WASM_HEAP_MEMORY_NAME@,
        m.memories.len(),
    );
    let with_bytemap = if heap_has_bytemap(m, write_barrier) {
        ModuleView {
            memories: m.memories.push(bytemap_memory()),
            exports: exports.push(memory_export(WASM_HEAP_BYTEMAP_MEMORY_NAME@, 1)),
            ..m
        }
    } else {
        ModuleView { exports, ..m }
    };
    if wasm_native_stable_memory == FlagStatus::Enabled {
        let stable = stable_memory_index(m, write_barrier, wasm_native_stable_memory);
        ModuleView {
            memories: with_bytemap.memories.push(stable_memory()).push(stable_bytemap_memory()),
            exports: with_bytemap.exports.push(memory_export(STABLE_MEMORY_NAME@, stable)).push(
                memory_export(STABLE_BYTEMAP_MEMORY_NAME@, (stable + 1) as u32),
            ),
            ..with_bytemap
        }
    } else {
        with_bytemap
    }
}

/// Exports the heap under the name `memory` and adds the memories of the
/// instrumentation. Returns the module and the index of the stable memory
/// (zero without one); the bytemap of the stable memory is the memory right
/// behind it.
pub fn update_memories(
    module: Module,
    write_barrier: FlagStatus,
    wasm_native_stable_memory: FlagStatus,
) -> (result: (Module, u32))
    requires
        wasm_native_stable_memory == FlagStatus::Enabled ==> module.memories.len() + 2 <= u32::MAX,
    ensures
        result.0@ == with_memories(module@, write_barrier, wasm_native_stable_memory),
        result.1 == stable_memory_index(module@, write_barrier, wasm_native_stable_memory),
{
    broadcast use group_views;

    let mut module = module;
    let mut stable_index: u32 = 0;
    let memory_already_exported = rename_exports(
        &mut module.exports,
        ExternalKind::Memory,
        WASM_HEAP_MEMORY_NAME,
    );
    if !memory_already_exported && !module.memories.is_empty() {
        module.exports.push(
            Export { name: WASM_HEAP_MEMORY_NAME.to_owned(), kind: ExternalKind::Memory, index: 0 },
        );
    }
    if write_barrier == FlagStatus::Enabled && !module.memories.is_empty() {
        module.memories.push(
            MemoryType {
                memory64: false,
                shared: false,
                initial: BYTEMAP_SIZE_IN_WASM_PAGES,
                maximum: Some(BYTEMAP_SIZE_IN_WASM_PAGES),
            },
        );
        module.exports.push(
            Export {
                name: WASM_HEAP_BYTEMAP_MEMORY_NAME.to_owned(),
                kind: ExternalKind::Memory,
                index: 1,
            },
        );
    }
    if wasm_native_stable_memory == FlagStatus::Enabled {
        stable_index = module.memories.len() as u32;
        module.memories.push(
            MemoryType {
                memory64: true,
                shared: false,
                initial: 0,
                maximum: Some(MAX_STABLE_MEMORY_IN_WASM_PAGES),
            },
        );
        module.exports.push(
            Export {
                name: STABLE_MEMORY_NAME.to_owned(),
                kind: ExternalKind::Memory,
                index: stable_index,
            },
        );
        module.memories.push(
            MemoryType {
                memory64: false,
                shared: false,
                initial: STABLE_BYTEMAP_SIZE_IN_WASM_PAGES,
                maximum: Some(STABLE_BYTEMAP_SIZE_IN_WASM_PAGES),
            },
        );
        module.exports.push(
            Export {
                name: STABLE_BYTEMAP_MEMORY_NAME.to_owned(),
                kind: ExternalKind::Memory,
                // The bytemap of a memory is the memory behind it.
                index: stable_index + 1,
            },
        );
    }
    (module, stable_index)
}

/// One decimal digit.
pub open spec fn digit(d: nat) -> Seq<char> {
    if d == 0 {
        "0"@
    } else if d == 1 {
        "1"@
    } else if d == 2 {
        "2"@
    } else if d == 3 {
        "3"@
    } else if d == 4 {
        "4"@
    } else if d == 5 {
        "5"@
    } else if d == 6 {
        "6"@
    } else if d == 7 {
        "7"@
    } else if d == 8 {
        "8"@
    } else {
        "9"@
    }
}

/// The number `n` in decimal, without leading zeros.
pub open spec fn decimal(n: nat) -> Seq<char>
    decreases n,
{
    if n < 10 {
        digit(n)
    } else {
        decimal(n / 10) + digit(n % 10)
    }
}

/// The name under which the mutable global `ix` is exported if the module
/// does not export it.
pub open spec fn persistent_global_name(ix: nat) -> Seq<char> {
    PERSISTENT_GLOBAL_PREFIX@ + decimal(ix)
}

fn append_decimal(s: &mut String, n: usize)
    ensures
        final(s)@ == old(s)@ + decimal(n as nat),
    decreases n,
{
    if n >= 10 {
        append_decimal(s, n / 10);
    }
    let d = n % 10;
    let text = if d == 0 {
        "0"
    } else if d == 1 {
        "1"
    } else if d == 2 {
        "2"
    } else if d == 3 {
        "3"
    } else if d == 4 {
        "4"
    } else if d == 5 {
        "5"
    } else if d == 6 {
        "6"
    } else if d == 7 {
        "7"
    } else if d == 8 {
        "8"
    } else {
        "9"
    };
    s.append(text);
    assert(s@ =~= old(s)@ + decimal(n as nat));
}

/// Whether the global `ix` is exported.
pub open spec fn global_is_exported(exports: Seq<ExportView>, ix: int) -> bool {
    exists|e: int|
        0 <= e < exports.len() && (#[trigger] exports[e]).kind == ExternalKind::Global
            && exports[e].index == ix
}

/// The exports that the mutable globals below `n` need: one for each that
/// the module does not export, in the order of the globals.
pub open spec fn persistent_global_exports(m: ModuleView, n: nat) -> Seq<ExportView>
    decreases n,
{
    if n == 0 {
        Seq::empty()
    } else {
        let rest = persistent_global_exports(m, (n - 1) as nat);
        if m.globals[n - 1].ty.mutable && !global_is_exported(m.exports, n - 1) {
            rest.push(
                ExportView {
                    name: persistent_global_name((n - 1) as nat),
                    kind: ExternalKind::Global,
                    index: (n - 1) as u32,
                },
            )
        } else {
            rest
        }
    }
}

/// The module with every mutable global exported.
pub open spec fn with_global_exports(m: ModuleView) -> ModuleView {
    ModuleView { exports: m.exports + persistent_global_exports(m, m.globals.len()), ..m }
}

/// Whether every exported global is one of the globals of the module.
pub open spec fn global_exports_in_bounds(m: ModuleView) -> bool {
    forall|e: int|
        0 <= e < m.exports.len() && (#[trigger] m.exports[e]).kind == ExternalKind::Global
            ==> m.exports[e].index < m.globals.len()
}

/// Exports every mutable global that the module does not export, so that the
/// host can save and restore it.
pub fn export_mutable_globals(module: Module) -> (result: Module)
    requires
        module.globals.len() <= u32::MAX,
        global_exports_in_bounds(module@),
    ensures
        result@ == with_global_exports(module@),
{
    broadcast use group_views;

    let mut module = module;
    let ghost before = module@;
    let n = module.globals.len();
    let mut exported: Vec<bool> = Vec::new();
    while exported.len() < n
        invariant
            exported.len() <= n,
            forall|j: int| 0 <= j < exported.len() ==> !exported@[j],
        decreases n - exported.len(),
    {
        exported.push(false);
    }
    let count = module.exports.len();
    let mut e: usize = 0;
    while e < count
        invariant
            module@ == before,
            global_exports_in_bounds(before),
            n == module.globals.len(),
            count == module.exports.len(),
            exported.len() == n,
            e <= count,
            forall|ix: int|
                0 <= ix < n ==> (#[trigger] exported@[ix] <==> global_is_exported(
                    before.exports.take(e as int),
                    ix,
                )),
        decreases count - e,
    {
        let ghost seen = before.exports.take(e as int);
        let ghost next = before.exports.take(e + 1);
        assert(before.exports[e as int] == module.exports@[e as int]@);
        if let ExternalKind::Global = module.exports[e].kind {
            let index = module.exports[e].index as usize;
            exported.set(index, true);
        }
        proof {
            assert forall|ix: int| 0 <= ix < n implies (#[trigger] exported@[ix]
                <==> global_is_exported(next, ix)) by {
                if global_is_exported(seen, ix) {
                    let w = choose|w: int|
                        0 <= w < seen.len() && (#[trigger] seen[w]).kind == ExternalKind::Global
                            && seen[w].index == ix;
                    assert(next[w] == seen[w]);
                }
                if global_is_exported(next, ix) {
                    let w = choose|w: int|
                        0 <= w < next.len() && (#[trigger] next[w]).kind == ExternalKind::Global
                            && next[w].index == ix;
                    if w < e {
                        assert(seen[w] == next[w]);
                    }
                }
                if next[e as int].kind == ExternalKind::Global && next[e as int].index == ix {
                    assert(global_is_exported(next, ix));
                }
            }
        }
        e = e + 1;
    }
    assert(before.exports.take(count as int) =~= before.exports);
    let mut ix: usize = 0;
    while ix < n
        invariant
            n == module.globals.len(),
            n <= u32::MAX,
            exported.len() == n,
            ix <= n,
            forall|j: int|
                0 <= j < n ==> (#[trigger] exported@[j] <==> global_is_exported(before.exports, j)),
            module@ == (ModuleView {
                exports: before.exports + persistent_global_exports(before, ix as nat),
                ..before
            }),
        decreases n - ix,
    {
        assert(before.globals[ix as int] == module.globals@[ix as int]@);
        let ghost so_far = persistent_global_exports(before, ix as nat);
        if module.globals[ix].ty.mutable && !exported[ix] {
            let mut name = PERSISTENT_GLOBAL_PREFIX.to_owned();
            append_decimal(&mut name, ix);
            let ghost exports_before = module.exports@;
            let export = Export { name, kind: ExternalKind::Global, index: ix as u32 };
            module.exports.push(export);
            assert(views(module.exports@) == (before.exports + so_far).push(export@));
        }
        proof {
            assert(module@.exports =~= before.exports + persistent_global_exports(
                before,
                (ix + 1) as nat,
            ));
        }
        ix = ix + 1;
    }
    module
}

/// To export the heap of a module whose heap has been exported changes
/// nothing, where no memory is added.
pub proof fn lemma_export_memory_idempotent(m: ModuleView)
    ensures
        with_memories(
            with_memories(m, FlagStatus::Disabled, FlagStatus::Disabled),
            FlagStatus::Disabled,
            FlagStatus::Disabled,
        ) == with_memories(m, FlagStatus::Disabled, FlagStatus::Disabled),
{
    lemma_normalized_exports_idempotent(
        m.exports,
        ExternalKind::Memory,
        WASM_HEAP_MEMORY_NAME@,
        m.memories.len(),
    );
}

} // verus!
