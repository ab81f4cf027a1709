//! Renumbering of the functions of a module, and the import of the host
//! functions that the instrumented code calls.

use crate::model::{
    views, Body, BodyView, ElementItems, ElementItemsView, ElementSegment, ElementSegmentView,
    Export, ExportView, ExternalKind, Instruction, Module, ModuleView,
};
use vstd::prelude::*;

verus! {

/// A renumbering of functions.
#[derive(Clone, Debug, PartialEq, Eq)]
pub enum FunctionIndexMap {
    /// Every index grows by `by`.
    Shift { by: u32 },
    /// The index `old` becomes `new` for each pair `(old, new)`; of two pairs
    /// with the same first index the later one counts. Every other index
    /// stays.
    Replace { pairs: Vec<(u32, u32)> },
}

/// The view of a renumbering.
pub enum FunctionIndexMapView {
    Shift { by: u32 },
    Replace { pairs: Seq<(u32, u32)> },
}

impl View for FunctionIndexMap {
    type V = FunctionIndexMapView;

    open spec fn view(&self) -> FunctionIndexMapView {
        match self {
            FunctionIndexMap::Shift { by } => FunctionIndexMapView::Shift { by: *by },
            FunctionIndexMap::Replace { pairs } => FunctionIndexMapView::Replace { pairs: pairs@ },
        }
    }
}

/// What the pairs make of the index `i`.
pub open spec fn replaced(pairs: Seq<(u32, u32)>, i: u32) -> u32
    decreases pairs.len(),
{
    if pairs.len() == 0 {
        i
    } else if pairs.last().0 == i {
        pairs.last().1
    } else {
        replaced(pairs.drop_last(), i)
    }
}

impl FunctionIndexMapView {
    /// The new index of the function `i`.
    pub open spec fn apply(self, i: u32) -> u32 {
        match self {
            FunctionIndexMapView::Shift { by } => (i + by) as u32,
            FunctionIndexMapView::Replace { pairs } => replaced(pairs, i),
        }
    }

    /// Whether the new index of `i` fits in 32 bits.
    pub open spec fn accepts(self, i: u32) -> bool {
        match self {
            FunctionIndexMapView::Shift { by } => i + by <= u32::MAX,
            FunctionIndexMapView::Replace { .. } => true,
        }
    }
}

impl FunctionIndexMap {
    /// The new index of the function `i`.
    pub fn apply(&self, i: u32) -> (new: u32)
        requires
            self@.accepts(i),
        ensures
            new == self@.apply(i),
    {
        match self {
            FunctionIndexMap::Shift { by } => i + *by,
            FunctionIndexMap::Replace { pairs } => {
                let mut k = pairs.len();
                assert(pairs@.take(k as int) =~= pairs@);
                while k > 0
                    invariant
                        k <= pairs.len(),
                        self@ == (FunctionIndexMapView::Replace { pairs: pairs@ }),
                        replaced(pairs@, i) == replaced(pairs@.take(k as int), i),
                    decreases k,
                {
                    proof {
                        assert(pairs@.take(k as int).drop_last() =~= pairs@.take(k - 1));
                        assert(pairs@.take(k as int).last() == pairs@[k - 1]);
                    }
                    if pairs[k - 1].0 == i {
                        return pairs[k - 1].1;
                    }
                    k = k - 1;
                }
                i
            },
        }
    }
}

/// The function that an instruction names.
pub open spec fn function_operand(i: Instruction) -> Option<u32> {
    match i {
        Instruction::Call { function_index } => Some(function_index),
        Instruction::ReturnCall { function_index } => Some(function_index),
        Instruction::RefFunc { function_index } => Some(function_index),
        _ => None,
    }
}

/// The instruction with its function renumbered, if it names one.
pub open spec fn remap_instruction(i: Instruction, map: FunctionIndexMapView) -> Instruction {
    match i {
        Instruction::Call { function_index } => Instruction::Call {
            function_index: map.apply(function_index),
        },
        Instruction::ReturnCall { function_index } => Instruction::ReturnCall {
            function_index: map.apply(function_index),
        },
        Instruction::RefFunc { function_index } => Instruction::RefFunc {
            function_index: map.apply(function_index),
        },
        _ => i,
    }
}

/// The body with the functions that its instructions name renumbered.
pub open spec fn remap_body(body: BodyView, map: FunctionIndexMapView) -> BodyView {
    BodyView {
        locals: body.locals,
        instructions: body.instructions.map_values(|i: Instruction| remap_instruction(i, map)),
    }
}

/// The export with its function renumbered, if it exports one.
pub open spec fn remap_export(export: ExportView, map: FunctionIndexMapView) -> ExportView {
    if export.kind == ExternalKind::Func {
        ExportView { index: map.apply(export.index), ..export }
    } else {
        export
    }
}

/// The element segment with its function entries renumbered.
pub open spec fn remap_element(segment: ElementSegmentView, map: FunctionIndexMapView) -> ElementSegmentView {
    match segment.items {
        ElementItemsView::Functions(items) => ElementSegmentView {
            items: ElementItemsView::Functions(items.map_values(|i: u32| map.apply(i))),
            ..segment
        },
        ElementItemsView::Expressions(_) => segment,
    }
}

/// The start function, renumbered.
pub open spec fn remap_start(start: Option<u32>, map: FunctionIndexMapView) -> Option<u32> {
    match start {
        Some(i) => Some(map.apply(i)),
        None => None,
    }
}

/// The module with every function index renumbered: the targets of calls and
/// tail calls, the operands of `ref.func`, the exported functions, the
/// function entries of element segments, and the start function.
pub open spec fn remap_module(m: ModuleView, map: FunctionIndexMapView) -> ModuleView {
    ModuleView {
        code_sections: m.code_sections.map_values(|b: BodyView| remap_body(b, map)),
        exports: m.exports.map_values(|e: ExportView| remap_export(e, map)),
        elements: m.elements.map_values(|s: ElementSegmentView| remap_element(s, map)),
        start: remap_start(m.start, map),
        ..m
    }
}

/// The function entries of an element segment.
pub open spec fn element_functions(segment: ElementSegmentView) -> Seq<u32> {
    match segment.items {
        ElementItemsView::Functions(items) => items,
        ElementItemsView::Expressions(_) => Seq::empty(),
    }
}

/// Whether `ok` holds of every function index that stands in the module.
pub open spec fn all_function_indices(m: ModuleView, ok: spec_fn(u32) -> bool) -> bool {
    &&& forall|b: int, k: int|
        0 <= b < m.code_sections.len() && 0 <= k < m.code_sections[b].instructions.len() ==> (
        function_operand(#[trigger] m.code_sections[b].instructions[k]) matches Some(i) ==> ok(i))
    &&& forall|e: int|
        0 <= e < m.exports.len() && (#[trigger] m.exports[e]).kind == ExternalKind::Func ==> ok(
            m.exports[e].index,
        )
    &&& forall|s: int, k: int|
        0 <= s < m.elements.len() && 0 <= k < element_functions(m.elements[s]).len() ==> ok(
            #[trigger] element_functions(m.elements[s])[k],
        )
    &&& m.start matches Some(i) ==> ok(i)
}

/// What holds of every function index of a module holds of them under a
/// weaker condition.
pub proof fn lemma_all_function_indices_weaken(
    m: ModuleView,
    strong: spec_fn(u32) -> bool,
    weak: spec_fn(u32) -> bool,
)
    requires
        all_function_indices(m, strong),
        forall|i: u32| #[trigger] strong(i) ==> weak(i),
    ensures
        all_function_indices(m, weak),
{
    assert forall|s: int, k: int|
        0 <= s < m.elements.len() && 0 <= k < element_functions(m.elements[s]).len() implies weak(
        #[trigger] element_functions(m.elements[s])[k],
    ) by {
        assert(strong(element_functions(m.elements[s])[k]));
    }
}

fn remap_code(body: &mut Body, map: &FunctionIndexMap)
    requires
        forall|k: int|
            0 <= k < old(body).instructions.len() ==> (function_operand(
                #[trigger] old(body).instructions@[k],
            ) matches Some(i) ==> map@.accepts(i)),
    ensures
        final(body)@ == remap_body(old(body)@, map@),
{
    let len = body.instructions.len();
    let mut k: usize = 0;
    while k < len
        invariant
            len == body.instructions.len(),
            len == old(body).instructions.len(),
            body.locals == old(body).locals,
            k <= len,
            forall|j: int|
                0 <= j < k ==> body.instructions@[j] == remap_instruction(
                    old(body).instructions@[j],
                    map@,
                ),
            forall|j: int| k <= j < len ==> body.instructions@[j] == old(body).instructions@[j],
            forall|k: int|
                0 <= k < old(body).instructions.len() ==> (function_operand(
                    #[trigger] old(body).instructions@[k],
                ) matches Some(i) ==> map@.accepts(i)),
        decreases len - k,
    {
        match body.instructions[k] {
            Instruction::Call { function_index } => {
                let new = map.apply(function_index);
                body.instructions.set(k, Instruction::Call { function_index: new });
            },
            Instruction::ReturnCall { function_index } => {
                let new = map.apply(function_index);
                body.instructions.set(k, Instruction::ReturnCall { function_index: new });
            },
            Instruction::RefFunc { function_index } => {
                let new = map.apply(function_index);
                body.instructions.set(k, Instruction::RefFunc { function_index: new });
            },
            _ => {},
        }
        k = k + 1;
    }
    assert(body.instructions@ =~= remap_body(old(body)@, map@).instructions);
}

fn remap_exported(export: &mut Export, map: &FunctionIndexMap)
    requires
        old(export).kind == ExternalKind::Func ==> map@.accepts(old(export).index),
    ensures
        final(export)@ == remap_export(old(export)@, map@),
{
    if let ExternalKind::Func = export.kind {
        export.index = map.apply(export.index);
    }
}

fn remap_items(items: &mut Vec<u32>, map: &FunctionIndexMap)
    requires
        forall|k: int| 0 <= k < old(items).len() ==> map@.accepts(#[trigger] old(items)@[k]),
    ensures
        final(items)@ == old(items)@.map_values(|i: u32| map@.apply(i)),
{
    let len = items.len();
    let mut k: usize = 0;
    while k < len
        invariant
            len == items.len(),
            len == old(items).len(),
            k <= len,
            forall|j: int| 0 <= j < k ==> items@[j] == map@.apply(old(items)@[j]),
            forall|j: int| k <= j < len ==> items@[j] == old(items)@[j],
            forall|k: int| 0 <= k < old(items).len() ==> map@.accepts(#[trigger] old(items)@[k]),
        decreases len - k,
    {
        let new = map.apply(items[k]);
        items.set(k, new);
        k = k + 1;
    }
    assert(items@ =~= old(items)@.map_values(|i: u32| map@.apply(i)));
}

fn remap_segment(segment: &mut ElementSegment, map: &FunctionIndexMap)
    requires
        forall|k: int|
            0 <= k < element_functions(old(segment)@).len() ==> map@.accepts(
                #[trigger] element_functions(old(segment)@)[k],
            ),
    ensures
        final(segment)@ == remap_element(old(segment)@, map@),
{
    match &mut segment.items {
        ElementItems::Functions(items) => {
            assert(items@ == element_functions(old(segment)@));
            remap_items(items, map);
        },
        ElementItems::Expressions(_) => {},
    }
}

/// Renumbers the functions in every place of the module that names one.
pub fn mutate_function_indices(module: &mut Module, map: &FunctionIndexMap)
    requires
        all_function_indices(old(module)@, |i: u32| map@.accepts(i)),
    ensures
        final(module)@ == remap_module(old(module)@, map@),
{
    let ghost before = module@;
    let n = module.code_sections.len();
    let mut b: usize = 0;
    while b < n
        invariant
            n == module.code_sections.len(),
            n == old(module).code_sections.len(),
            b <= n,
            before == old(module)@,
            all_function_indices(before, |i: u32| map@.accepts(i)),
            forall|j: int|
                0 <= j < b ==> (#[trigger] module.code_sections@[j])@ == remap_body(
                    before.code_sections[j],
                    map@,
                ),
            forall|j: int| b <= j < n ==> module.code_sections@[j] == old(module).code_sections@[j],
            module.types == old(module).types,
            module.imports == old(module).imports,
            module.functions == old(module).functions,
            module.tables == old(module).tables,
            module.memories == old(module).memories,
            module.globals == old(module).globals,
            module.exports == old(module).exports,
            module.start == old(module).start,
            module.elements == old(module).elements,
            module.data == old(module).data,
        decreases n - b,
    {
        proof {
            let body = before.code_sections[b as int];
            assert(body == module.code_sections@[b as int]@);
            assert forall|k: int| 0 <= k < body.instructions.len() implies (function_operand(
                #[trigger] body.instructions[k],
            ) matches Some(i) ==> map@.accepts(i)) by {
                let _ = before.code_sections[b as int].instructions[k];
            }
        }
        remap_code(&mut module.code_sections[b], map);
        b = b + 1;
    }
    let n = module.exports.len();
    let mut e: usize = 0;
    while e < n
        invariant
            n == module.exports.len(),
            n == old(module).exports.len(),
            e <= n,
            before == old(module)@,
            all_function_indices(before, |i: u32| map@.accepts(i)),
            forall|j: int|
                0 <= j < e ==> (#[trigger] module.exports@[j])@ == remap_export(
                    before.exports[j],
                    map@,
                ),
            forall|j: int| e <= j < n ==> module.exports@[j] == old(module).exports@[j],
            views(module.code_sections@) =~= remap_module(before, map@).code_sections,
            module.types == old(module).types,
            module.imports == old(module).imports,
            module.functions == old(module).functions,
            module.tables == old(module).tables,
            module.memories == old(module).memories,
            module.globals == old(module).globals,
            module.start == old(module).start,
            module.elements == old(module).elements,
            module.data == old(module).data,
        decreases n - e,
    {
        proof {
            let _ = before.exports[e as int];
        }
        remap_exported(&mut module.exports[e], map);
        e = e + 1;
    }
    let n = module.elements.len();
    let mut s: usize = 0;
    while s < n
        invariant
            n == module.elements.len(),
            n == old(module).elements.len(),
            s <= n,
            before == old(module)@,
            all_function_indices(before, |i: u32| map@.accepts(i)),
            forall|j: int|
                0 <= j < s ==> (#[trigger] module.elements@[j])@ == remap_element(
                    before.elements[j],
                    map@,
                ),
            forall|j: int| s <= j < n ==> module.elements@[j] == old(module).elements@[j],
            views(module.code_sections@) =~= remap_module(before, map@).code_sections,
            views(module.exports@) =~= remap_module(before, map@).exports,
            module.types == old(module).types,
            module.imports == old(module).imports,
            module.functions == old(module).functions,
            module.tables == old(module).tables,
            module.memories == old(module).memories,
            module.globals == old(module).globals,
            module.start == old(module).start,
            module.data == old(module).data,
        decreases n - s,
    {
        proof {
            assert(before.elements[s as int] == module.elements@[s as int]@);
        }
        remap_segment(&mut module.elements[s], map);
        s = s + 1;
    }
    match module.start {
        Some(start_idx) => {
            module.start = Some(map.apply(start_idx));
        },
        None => {},
    }
    proof {
        assert(views(module.elements@) =~= remap_module(before, map@).elements);
    }
}

} // verus!
