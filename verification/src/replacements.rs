//! Functions of the module that take the place of functions of the host.

use crate::model::{
    function_import_count, global_import_count, group_views, lemma_import_counts, views, Body,
    BodyView, FuncType, FuncTypeView, Import, ImportView, Module, ModuleView, TypeRef,
};
use crate::renumber::{
    mutate_function_indices, remap_module, FunctionIndexMap, FunctionIndexMapView,
};
use crate::support::{push_function, with_function, API_VERSION_IC0};
use vstd::prelude::*;

verus! {

/// A function that takes the place of the function that the module imports
/// from the host under `name`.
#[derive(Clone, Debug, PartialEq, Eq)]
pub struct Replacement {
    pub name: String,
    pub ty: FuncType,
    pub body: Body,
}

/// The view of a replacement.
pub struct ReplacementView {
    pub name: Seq<char>,
    pub ty: FuncTypeView,
    pub body: BodyView,
}

impl View for Replacement {
    type V = ReplacementView;

    open spec fn view(&self) -> ReplacementView {
        ReplacementView { name: self.name@, ty: self.ty@, body: self.body@ }
    }
}

/// Whether the import is the function `name` of the host.
pub open spec fn imports_api(import: ImportView, name: Seq<char>) -> bool {
    import.ty is Func && import.module == API_VERSION_IC0@ && import.name == name
}

/// The function index of the host function `name`: that of the last import
/// of it, if the module imports it.
pub open spec fn api_index(imports: Seq<ImportView>, name: Seq<char>) -> Option<u32>
    decreases imports.len(),
{
    if imports.len() == 0 {
        None
    } else if imports_api(imports.last(), name) {
        Some(function_import_count(imports.drop_last()) as u32)
    } else {
        api_index(imports.drop_last(), name)
    }
}

/// The module with the first `n` replacements as its last functions, and the
/// renumbering that they ask for: a replacement of a function that the
/// module imports becomes a function of the module, and the index of the
/// import is to become the index of that function. A replacement of a
/// function that the module does not import is left out.
pub open spec fn with_replacement_functions(
    m: ModuleView,
    replacements: Seq<ReplacementView>,
    n: nat,
) -> (ModuleView, Seq<(u32, u32)>)
    decreases n,
{
    if n == 0 {
        (m, Seq::empty())
    } else {
        let (so_far, pairs) = with_replacement_functions(m, replacements, (n - 1) as nat);
        let replacement = replacements[n - 1];
        match api_index(m.imports, replacement.name) {
            Some(old_index) => (
                with_function(so_far, replacement.ty, replacement.body),
                pairs.push((old_index, so_far.function_count() as u32)),
            ),
            None => (so_far, pairs),
        }
    }
}

/// The module with the replacements in place of the host functions: the
/// replacements that the module has a use for are its last functions, and
/// every function index that named the import of one names the replacement.
pub open spec fn with_system_api_replaced(
    m: ModuleView,
    replacements: Seq<ReplacementView>,
) -> ModuleView {
    let (with_functions, pairs) = with_replacement_functions(m, replacements, replacements.len());
    remap_module(with_functions, FunctionIndexMapView::Replace { pairs })
}

/// Finds the function index of the host function `name`.
pub fn calculate_api_index(imports: &Vec<Import>, name: &String) -> (index: Option<u32>)
    requires
        imports.len() <= u32::MAX,
    ensures
        index == api_index(views(imports@), name@),
{
    let api = API_VERSION_IC0.to_owned();
    let mut index: Option<u32> = None;
    let mut functions: u32 = 0;
    let mut i: usize = 0;
    while i < imports.len()
        invariant
            i <= imports.len(),
            imports.len() <= u32::MAX,
            api@ == API_VERSION_IC0@,
            functions == function_import_count(views(imports@).take(i as int)),
            functions <= i,
            index == api_index(views(imports@).take(i as int), name@),
        decreases imports.len() - i,
    {
        proof {
            assert(views(imports@).take(i + 1).drop_last() =~= views(imports@).take(i as int));
            assert(views(imports@).take(i + 1).last() == imports@[i as int]@);
        }
        if let TypeRef::Func(_) = imports[i].ty {
            if imports[i].module == api && imports[i].name == *name {
                index = Some(functions);
            }
            functions = functions + 1;
        }
        i = i + 1;
    }
    proof {
        assert(views(imports@).take(i as int) =~= views(imports@));
    }
    index
}

/// Counts the imports that are functions.
pub fn count_function_imports(imports: &Vec<Import>) -> (count: usize)
    ensures
        count == function_import_count(views(imports@)),
{
    let mut count: usize = 0;
    let mut i: usize = 0;
    while i < imports.len()
        invariant
            i <= imports.len(),
            count == function_import_count(views(imports@).take(i as int)),
            count <= i,
        decreases imports.len() - i,
    {
        proof {
            assert(views(imports@).take(i + 1).drop_last() =~= views(imports@).take(i as int));
            assert(views(imports@).take(i + 1).last() == imports@[i as int]@);
        }
        if let TypeRef::Func(_) = imports[i].ty {
            count = count + 1;
        }
        i = i + 1;
    }
    proof {
        assert(views(imports@).take(i as int) =~= views(imports@));
    }
    count
}

/// Counts the imports that are globals.
pub fn count_global_imports(imports: &Vec<Import>) -> (count: usize)
    ensures
        count == global_import_count(views(imports@)),
{
    let mut count: usize = 0;
    let mut i: usize = 0;
    while i < imports.len()
        invariant
            i <= imports.len(),
            count == global_import_count(views(imports@).take(i as int)),
            count <= i,
        decreases imports.len() - i,
    {
        proof {
            assert(views(imports@).take(i + 1).drop_last() =~= views(imports@).take(i as int));
            assert(views(imports@).take(i + 1).last() == imports@[i as int]@);
        }
        if let TypeRef::Global(_) = imports[i].ty {
            count = count + 1;
        }
        i = i + 1;
    }
    proof {
        assert(views(imports@).take(i as int) =~= views(imports@));
    }
    count
}

/// The replacements touch neither the imports of a module nor its memories,
/// globals, exports or data segments.
pub proof fn lemma_replacement_functions_shape(
    m: ModuleView,
    replacements: Seq<ReplacementView>,
    n: nat,
)
    ensures
        ({
            let with_functions = with_replacement_functions(m, replacements, n).0;
            &&& with_functions.imports == m.imports
            &&& with_functions.memories == m.memories
            &&& with_functions.globals == m.globals
            &&& with_functions.exports == m.exports
            &&& with_functions.data == m.data
            &&& with_functions.tables == m.tables
        }),
    decreases n,
{
    if n > 0 {
        lemma_replacement_functions_shape(m, replacements, (n - 1) as nat);
    }
}

/// Puts functions of the module in the place of functions of the host: each
/// replacement of a function that the module imports is added to the
/// module, and then, in one pass, every function index that named such an
/// import is made to name its replacement.
pub fn replace_system_api_functions(module: &mut Module, replacements: &Vec<Replacement>)
    requires
        old(module).imports.len() + old(module).functions.len() + replacements.len() <= u32::MAX,
        old(module).types.len() + replacements.len() <= u32::MAX,
    ensures
        final(module)@ == with_system_api_replaced(old(module)@, views(replacements@)),
{
    broadcast use group_views;

    let ghost before = module@;
    let ghost reps = views(replacements@);
    let number_of_func_imports = count_function_imports(&module.imports);
    proof {
        lemma_import_counts(before.imports);
    }
    let mut pairs: Vec<(u32, u32)> = Vec::new();
    let n = replacements.len();
    let mut k: usize = 0;
    while k < n
        invariant
            n == replacements.len(),
            reps == views(replacements@),
            k <= n,
            before == old(module)@,
            before.imports.len() + before.functions.len() + n <= u32::MAX,
            before.types.len() + n <= u32::MAX,
            number_of_func_imports == function_import_count(before.imports),
            number_of_func_imports <= before.imports.len(),
            module@.imports == before.imports,
            module.types.len() <= before.types.len() + k,
            module.functions.len() <= before.functions.len() + k,
            (module@, pairs@) == with_replacement_functions(before, reps, k as nat),
        decreases n - k,
    {
        let replacement = &replacements[k];
        assert(reps[k as int] == replacement@);
        if let Some(old_index) = calculate_api_index(&module.imports, &replacement.name) {
            let new_index = (number_of_func_imports + module.functions.len()) as u32;
            push_function(module, replacement.ty.duplicate(), replacement.body.duplicate());
            pairs.push((old_index, new_index));
            proof {
                assert(module.types@.len() == module@.types.len());
            }
        }
        k = k + 1;
    }
    let map = FunctionIndexMap::Replace { pairs };
    mutate_function_indices(module, &map);
}

} // verus!
