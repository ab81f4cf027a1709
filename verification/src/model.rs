//! The in-memory representation of a module, and its mathematical view.

use vstd::prelude::*;

verus! {

/// A value type.
#[derive(Clone, Copy, Debug, PartialEq, Eq, Structural)]
pub enum ValType {
    I32,
    I64,
    F32,
    F64,
    V128,
    FuncRef,
    ExternRef,
}

/// The type of a block, loop or if.
#[derive(Clone, Copy, Debug, PartialEq, Eq, Structural)]
pub enum BlockType {
    Empty,
    Type(ValType),
    FuncType(u32),
}

/// The immediate of a memory instruction.
#[derive(Clone, Copy, Debug, PartialEq, Eq, Structural)]
pub struct MemArg {
    pub align: u8,
    pub max_align: u8,
    pub offset: u64,
    pub memory: u32,
}

/// A range of bytes in the binary that the module was read from.
///
/// It stands for a piece of the input that no pass looks into and that the
/// encoder copies as it is.
#[derive(Clone, Copy, Debug, PartialEq, Eq, Structural)]
pub struct SourceRange {
    pub start: usize,
    pub end: usize,
}

/// One instruction of a function body.
///
/// The instructions that a pass reads or emits have a variant of their own;
/// every other one is `Other`, with the place of its encoding in the input.
#[allow(inconsistent_fields)]
#[derive(Clone, Copy, Debug, PartialEq, Eq, Structural)]
pub enum Instruction {
    Block { blockty: BlockType },
    Loop { blockty: BlockType },
    If { blockty: BlockType },
    Else,
    End,
    Br { relative_depth: u32 },
    BrIf { relative_depth: u32 },
    BrTable { targets: SourceRange },
    Call { function_index: u32 },
    ReturnCall { function_index: u32 },
    RefFunc { function_index: u32 },
    LocalGet { local_index: u32 },
    LocalSet { local_index: u32 },
    LocalTee { local_index: u32 },
    GlobalGet { global_index: u32 },
    GlobalSet { global_index: u32 },
    I32Load8U { memarg: MemArg },
    I32Store { memarg: MemArg },
    I64Store { memarg: MemArg },
    F32Store { memarg: MemArg },
    F64Store { memarg: MemArg },
    I32Store8 { memarg: MemArg },
    I32Store16 { memarg: MemArg },
    I64Store8 { memarg: MemArg },
    I64Store16 { memarg: MemArg },
    I64Store32 { memarg: MemArg },
    MemoryGrow { mem: u32, mem_byte: u8 },
    MemoryInit { data_index: u32, mem: u32 },
    MemoryCopy { dst_mem: u32, src_mem: u32 },
    MemoryFill { mem: u32 },
    TableInit { elem_index: u32, table: u32 },
    TableCopy { dst_table: u32, src_table: u32 },
    I32Const { value: i32 },
    I64Const { value: i64 },
    I32LtU,
    I64LtS,
    I32Add,
    I32Sub,
    I32ShrU,
    I64Sub,
    I64ExtendI32U,
    Other { source: SourceRange },
}

/// The signature of a function.
#[derive(Clone, Debug, PartialEq, Eq)]
pub struct FuncType {
    pub params: Vec<ValType>,
    pub results: Vec<ValType>,
}

/// The view of a signature.
pub struct FuncTypeView {
    pub params: Seq<ValType>,
    pub results: Seq<ValType>,
}

impl View for FuncType {
    type V = FuncTypeView;

    open spec fn view(&self) -> FuncTypeView {
        FuncTypeView { params: self.params@, results: self.results@ }
    }
}

/// The type of a table.
#[derive(Clone, Copy, Debug, PartialEq, Eq)]
pub struct TableType {
    pub element_type: ValType,
    pub initial: u32,
    pub maximum: Option<u32>,
}

/// The type of a memory; `initial` and `maximum` count pages of 64 KiB.
#[derive(Clone, Copy, Debug, PartialEq, Eq)]
pub struct MemoryType {
    pub memory64: bool,
    pub shared: bool,
    pub initial: u64,
    pub maximum: Option<u64>,
}

/// The type of a global.
#[derive(Clone, Copy, Debug, PartialEq, Eq)]
pub struct GlobalType {
    pub content_type: ValType,
    pub mutable: bool,
}

/// What an import brings in.
#[derive(Clone, Copy, Debug, PartialEq, Eq)]
pub enum TypeRef {
    /// A function, with the index of its type.
    Func(u32),
    Table(TableType),
    Memory(MemoryType),
    Global(GlobalType),
    /// A tag, with the index of its type.
    Tag(u32),
}

/// An import: what is imported, and under which names.
#[derive(Clone, Debug, PartialEq, Eq)]
pub struct Import {
    pub module: String,
    pub name: String,
    pub ty: TypeRef,
}

/// The view of an import.
pub struct ImportView {
    pub module: Seq<char>,
    pub name: Seq<char>,
    pub ty: TypeRef,
}

impl View for Import {
    type V = ImportView;

    open spec fn view(&self) -> ImportView {
        ImportView { module: self.module@, name: self.name@, ty: self.ty }
    }
}

/// The index space that an export refers to.
#[derive(Clone, Copy, Debug, PartialEq, Eq, Structural)]
pub enum ExternalKind {
    Func,
    Table,
    Memory,
    Global,
    Tag,
}

/// An export: the item `index` of the index space `kind`, under `name`.
#[derive(Clone, Debug, PartialEq, Eq)]
pub struct Export {
    pub name: String,
    pub kind: ExternalKind,
    pub index: u32,
}

/// The view of an export.
pub struct ExportView {
    pub name: Seq<char>,
    pub kind: ExternalKind,
    pub index: u32,
}

impl View for Export {
    type V = ExportView;

    open spec fn view(&self) -> ExportView {
        ExportView { name: self.name@, kind: self.kind, index: self.index }
    }
}

/// A global defined in the module; `init_expr` is the encoding of its
/// constant initializer, the closing `end` included.
#[derive(Clone, Debug, PartialEq, Eq)]
pub struct Global {
    pub ty: GlobalType,
    pub init_expr: Vec<u8>,
}

/// The view of a global.
pub struct GlobalView {
    pub ty: GlobalType,
    pub init_expr: Seq<u8>,
}

impl View for Global {
    type V = GlobalView;

    open spec fn view(&self) -> GlobalView {
        GlobalView { ty: self.ty, init_expr: self.init_expr@ }
    }
}

/// How an element segment is used. The offset of an active segment is a
/// constant expression, which no pass looks into.
#[derive(Clone, Copy, Debug, PartialEq, Eq)]
pub enum ElementKind {
    Passive,
    Declared,
    Active { table_index: u32, offset_expr: SourceRange },
}

/// What an element segment holds.
#[derive(Clone, Debug, PartialEq, Eq)]
pub enum ElementItems {
    /// Indices of functions.
    Functions(Vec<u32>),
    /// Constant expressions, which no pass looks into.
    Expressions(SourceRange),
}

/// The view of the items of an element segment.
pub enum ElementItemsView {
    Functions(Seq<u32>),
    Expressions(SourceRange),
}

impl View for ElementItems {
    type V = ElementItemsView;

    open spec fn view(&self) -> ElementItemsView {
        match self {
            ElementItems::Functions(f) => ElementItemsView::Functions(f@),
            ElementItems::Expressions(r) => ElementItemsView::Expressions(*r),
        }
    }
}

/// An element segment: items for a table.
#[derive(Clone, Debug, PartialEq, Eq)]
pub struct ElementSegment {
    pub kind: ElementKind,
    pub ty: ValType,
    pub items: ElementItems,
}

/// The view of an element segment.
pub struct ElementSegmentView {
    pub kind: ElementKind,
    pub ty: ValType,
    pub items: ElementItemsView,
}

impl View for ElementSegment {
    type V = ElementSegmentView;

    open spec fn view(&self) -> ElementSegmentView {
        ElementSegmentView { kind: self.kind, ty: self.ty, items: self.items@ }
    }
}

/// How a data segment is used.
#[derive(Clone, Copy, Debug, PartialEq, Eq)]
pub enum DataSegmentKind {
    Passive,
    /// Copied into memory `memory_index` at instantiation, at the offset that
    /// the instruction `offset_expr` computes.
    Active { memory_index: u32, offset_expr: Instruction },
}

/// A data segment: bytes for a memory.
#[derive(Clone, Debug, PartialEq, Eq)]
pub struct DataSegment {
    pub kind: DataSegmentKind,
    pub data: Vec<u8>,
}

/// The view of a data segment.
pub struct DataSegmentView {
    pub kind: DataSegmentKind,
    pub data: Seq<u8>,
}

impl View for DataSegment {
    type V = DataSegmentView;

    open spec fn view(&self) -> DataSegmentView {
        DataSegmentView { kind: self.kind, data: self.data@ }
    }
}

/// The body of a locally defined function. An entry `(n, t)` of `locals`
/// declares `n` locals of type `t`.
#[derive(Clone, Debug, PartialEq, Eq)]
pub struct Body {
    pub locals: Vec<(u32, ValType)>,
    pub instructions: Vec<Instruction>,
}

/// The view of a function body.
pub struct BodyView {
    pub locals: Seq<(u32, ValType)>,
    pub instructions: Seq<Instruction>,
}

impl View for Body {
    type V = BodyView;

    open spec fn view(&self) -> BodyView {
        BodyView { locals: self.locals@, instructions: self.instructions@ }
    }
}

/// A module. In each index space the imported entries come first, in the
/// order of `imports`, and the locally defined ones follow.
#[derive(Clone, Debug, PartialEq, Eq)]
pub struct Module {
    pub types: Vec<FuncType>,
    pub imports: Vec<Import>,
    /// For each locally defined function, the index of its type.
    pub functions: Vec<u32>,
    pub tables: Vec<TableType>,
    pub memories: Vec<MemoryType>,
    pub globals: Vec<Global>,
    pub exports: Vec<Export>,
    pub start: Option<u32>,
    pub elements: Vec<ElementSegment>,
    /// The bodies of the locally defined functions, parallel to `functions`.
    pub code_sections: Vec<Body>,
    pub data: Vec<DataSegment>,
}

/// The view of a module: the mathematical value that the contracts of
/// the passes speak of.
pub struct ModuleView {
    pub types: Seq<FuncTypeView>,
    pub imports: Seq<ImportView>,
    pub functions: Seq<u32>,
    pub tables: Seq<TableType>,
    pub memories: Seq<MemoryType>,
    pub globals: Seq<GlobalView>,
    pub exports: Seq<ExportView>,
    pub start: Option<u32>,
    pub elements: Seq<ElementSegmentView>,
    pub code_sections: Seq<BodyView>,
    pub data: Seq<DataSegmentView>,
}

/// The views of the items of a sequence.
pub open spec fn views<T: View>(s: Seq<T>) -> Seq<T::V> {
    s.map_values(|t: T| t@)
}

impl View for Module {
    type V = ModuleView;

    open spec fn view(&self) -> ModuleView {
        ModuleView {
            types: views(self.types@),
            imports: views(self.imports@),
            functions: self.functions@,
            tables: self.tables@,
            memories: self.memories@,
            globals: views(self.globals@),
            exports: views(self.exports@),
            start: self.start,
            elements: views(self.elements@),
            code_sections: views(self.code_sections@),
            data: views(self.data@),
        }
    }
}

/// The views of a sequence with one more item.
pub broadcast proof fn lemma_views_push<T: View>(s: Seq<T>, t: T)
    ensures
        #[trigger] views(s.push(t)) == views(s).push(t@),
{
    assert(views(s.push(t)) =~= views(s).push(t@));
}

/// The views of a sequence with one item replaced.
pub broadcast proof fn lemma_views_update<T: View>(s: Seq<T>, i: int, t: T)
    requires
        0 <= i < s.len(),
    ensures
        #[trigger] views(s.update(i, t)) == views(s).update(i, t@),
{
    assert(views(s.update(i, t)) =~= views(s).update(i, t@));
}

/// The views of two sequences, one behind the other.
pub broadcast proof fn lemma_views_concat<T: View>(s: Seq<T>, t: Seq<T>)
    ensures
        #[trigger] views(s + t) == views(s) + views(t),
{
    assert(views(s + t) =~= views(s) + views(t));
}

/// The views of no items.
pub broadcast proof fn lemma_views_empty<T: View>()
    ensures
        #[trigger] views(Seq::<T>::empty()) == Seq::<T::V>::empty(),
{
    assert(views(Seq::<T>::empty()) =~= Seq::<T::V>::empty());
}

/// What the views of a sequence are after the usual changes to it.
pub broadcast group group_views {
    lemma_views_push,
    lemma_views_update,
    lemma_views_concat,
    lemma_views_empty,
}

/// The number of the imports that are functions.
pub open spec fn function_import_count(imports: Seq<ImportView>) -> nat
    decreases imports.len(),
{
    if imports.len() == 0 {
        0
    } else {
        function_import_count(imports.drop_last()) + if imports.last().ty is Func {
            1nat
        } else {
            0nat
        }
    }
}

/// The number of the imports that are globals.
pub open spec fn global_import_count(imports: Seq<ImportView>) -> nat
    decreases imports.len(),
{
    if imports.len() == 0 {
        0
    } else {
        global_import_count(imports.drop_last()) + if imports.last().ty is Global {
            1nat
        } else {
            0nat
        }
    }
}

/// No more imports are functions, and no more are globals, than there are
/// imports.
pub proof fn lemma_import_counts(imports: Seq<ImportView>)
    ensures
        function_import_count(imports) + global_import_count(imports) <= imports.len(),
    decreases imports.len(),
{
    if imports.len() > 0 {
        lemma_import_counts(imports.drop_last());
    }
}

/// The imports of two lists count together.
pub proof fn lemma_import_counts_concat(a: Seq<ImportView>, b: Seq<ImportView>)
    ensures
        function_import_count(a + b) == function_import_count(a) + function_import_count(b),
        global_import_count(a + b) == global_import_count(a) + global_import_count(b),
    decreases b.len(),
{
    if b.len() == 0 {
        assert(a + b =~= a);
    } else {
        lemma_import_counts_concat(a, b.drop_last());
        assert((a + b).drop_last() =~= a + b.drop_last());
    }
}

/// Imports that are all functions.
pub proof fn lemma_function_imports(imports: Seq<ImportView>)
    requires
        forall|i: int| 0 <= i < imports.len() ==> (#[trigger] imports[i]).ty is Func,
    ensures
        function_import_count(imports) == imports.len(),
        global_import_count(imports) == 0,
    decreases imports.len(),
{
    if imports.len() > 0 {
        lemma_function_imports(imports.drop_last());
    }
}

impl ModuleView {
    /// The number of functions: the imported ones and those of the module.
    pub open spec fn function_count(self) -> nat {
        function_import_count(self.imports) + self.functions.len()
    }

    /// The number of globals: the imported ones and those of the module.
    pub open spec fn global_count(self) -> nat {
        global_import_count(self.imports) + self.globals.len()
    }
}

/// The number of locals that the declarations `locals` make.
pub open spec fn local_count(locals: Seq<(u32, ValType)>) -> nat
    decreases locals.len(),
{
    if locals.len() == 0 {
        0
    } else {
        local_count(locals.drop_last()) + locals.last().0 as nat
    }
}

/// The declarations `locals[..n]` make no more locals than all of them.
pub proof fn lemma_local_count_prefix(locals: Seq<(u32, ValType)>, n: int)
    requires
        0 <= n <= locals.len(),
    ensures
        local_count(locals.take(n)) <= local_count(locals),
    decreases locals.len() - n,
{
    if n < locals.len() {
        lemma_local_count_prefix(locals, n + 1);
        assert(locals.take(n + 1).drop_last() =~= locals.take(n));
    } else {
        assert(locals.take(n) =~= locals);
    }
}

impl FuncType {
    /// A copy of the signature.
    pub fn duplicate(&self) -> (copy: FuncType)
        ensures
            copy@ == self@,
    {
        let mut params: Vec<ValType> = Vec::new();
        let mut i: usize = 0;
        while i < self.params.len()
            invariant
                i <= self.params.len(),
                params@ == self.params@.take(i as int),
            decreases self.params.len() - i,
        {
            params.push(self.params[i]);
            i = i + 1;
            assert(params@ =~= self.params@.take(i as int));
        }
        assert(self.params@.take(i as int) =~= self.params@);
        let mut results: Vec<ValType> = Vec::new();
        let mut i: usize = 0;
        while i < self.results.len()
            invariant
                i <= self.results.len(),
                results@ == self.results@.take(i as int),
            decreases self.results.len() - i,
        {
            results.push(self.results[i]);
            i = i + 1;
            assert(results@ =~= self.results@.take(i as int));
        }
        assert(self.results@.take(i as int) =~= self.results@);
        FuncType { params, results }
    }
}

impl Body {
    /// A copy of the body.
    pub fn duplicate(&self) -> (copy: Body)
        ensures
            copy@ == self@,
    {
        let mut locals: Vec<(u32, ValType)> = Vec::new();
        let mut i: usize = 0;
        while i < self.locals.len()
            invariant
                i <= self.locals.len(),
                locals@ == self.locals@.take(i as int),
            decreases self.locals.len() - i,
        {
            locals.push(self.locals[i]);
            i = i + 1;
            assert(locals@ =~= self.locals@.take(i as int));
        }
        assert(self.locals@.take(i as int) =~= self.locals@);
        let mut instructions: Vec<Instruction> = Vec::new();
        let mut i: usize = 0;
        while i < self.instructions.len()
            invariant
                i <= self.instructions.len(),
                instructions@ == self.instructions@.take(i as int),
            decreases self.instructions.len() - i,
        {
            instructions.push(self.instructions[i]);
            i = i + 1;
            assert(instructions@ =~= self.instructions@.take(i as int));
        }
        assert(self.instructions@.take(i as int) =~= self.instructions@);
        Body { locals, instructions }
    }

    /// The index of the first local that is neither a parameter nor declared
    /// in the body, for a function with `params` parameters; `None` if that
    /// index and the `extra` ones behind it do not all fit in 32 bits.
    pub fn first_free_local(&self, params: usize, extra: u32) -> (first: Option<u32>)
        ensures
            first == first_free_local_of(self.locals@, params as nat, extra),
    {
        let limit: u64 = 0xffff_ffff;
        if params as u64 > limit {
            proof {
                lemma_local_count_prefix(self.locals@, 0);
            }
            return None;
        }
        let mut total: u64 = params as u64 + extra as u64;
        let mut i: usize = 0;
        while i < self.locals.len()
            invariant
                i <= self.locals.len(),
                limit == 0xffff_ffff,
                total == params + extra + local_count(self.locals@.take(i as int)),
                total <= limit + limit,
            decreases self.locals.len() - i,
        {
            proof {
                assert(self.locals@.take(i + 1).drop_last() =~= self.locals@.take(i as int));
                lemma_local_count_prefix(self.locals@, i + 1);
            }
            total = total + self.locals[i].0 as u64;
            if total > limit {
                return None;
            }
            i = i + 1;
        }
        proof {
            assert(self.locals@.take(i as int) =~= self.locals@);
        }
        if total > limit {
            None
        } else {
            Some((total - extra as u64) as u32)
        }
    }
}

/// The index of the first local behind `params` parameters and the locals
/// that `locals` declare, if that index and `extra` more fit in 32 bits.
pub open spec fn first_free_local_of(locals: Seq<(u32, ValType)>, params: nat, extra: u32) -> Option<
    u32,
> {
    if params + local_count(locals) + extra <= u32::MAX {
        Some((params + local_count(locals)) as u32)
    } else {
        None
    }
}

} // verus!
