//! The estimate of what it costs to compile a module.

use crate::model::{BodyView, GlobalView, Module, ModuleView};
use vstd::prelude::*;

verus! {

/// How many operators the initializer with the encoding `init_expr` holds,
/// as `wasmparser` reads it.
pub uninterp spec fn init_expr_operator_count(init_expr: Seq<u8>) -> nat;

/// Counts the operators of an initializer with `wasmparser`:
/// `ConstExpr::new(..).get_operators_reader().into_iter().count()`.
///
/// The count is that of the items that the iterator of the operators reader
/// yields for these bytes, read from their start: one for each operator,
/// and one more for the error where the bytes do not decode to the end. It
/// depends on the bytes alone, which is all that the contract claims.
#[verifier::external_body]
fn count_init_expr_operators(init_expr: &Vec<u8>) -> (count: usize)
    ensures
        count == init_expr_operator_count(init_expr@),
{
    wasmparser::ConstExpr::new(init_expr.as_slice(), 0).get_operators_reader().into_iter().count()
}

/// The number of instructions in the first `n` bodies.
pub open spec fn code_size(code: Seq<BodyView>, n: nat) -> nat
    decreases n,
{
    if n == 0 {
        0
    } else {
        code_size(code, (n - 1) as nat) + code[n - 1].instructions.len()
    }
}

/// The number of operators in the initializers of the first `n` globals.
pub open spec fn init_size(globals: Seq<GlobalView>, n: nat) -> nat
    decreases n,
{
    if n == 0 {
        0
    } else {
        init_size(globals, (n - 1) as nat) + init_expr_operator_count(globals[n - 1].init_expr)
    }
}

/// The number of instructions of a module: those of its function bodies and
/// the operators of the initializers of its globals.
pub open spec fn instruction_count(m: ModuleView) -> nat {
    code_size(m.code_sections, m.code_sections.len()) + init_size(m.globals, m.globals.len())
}

/// `n`, or the largest `u64` if `n` is larger.
pub open spec fn saturated(n: int) -> u64 {
    if n <= u64::MAX {
        n as u64
    } else {
        u64::MAX
    }
}

fn saturating_sum(a: u64, b: usize) -> (sum: u64)
    ensures
        sum == saturated(a + b),
{
    if b as u64 > u64::MAX - a {
        u64::MAX
    } else {
        a + b as u64
    }
}

/// Counts the instructions of a module, up to the largest `u64`.
pub fn count_instructions(module: &Module) -> (count: u64)
    ensures
        count == saturated(instruction_count(module@) as int),
{
    let mut count: u64 = 0;
    let n = module.code_sections.len();
    let mut i: usize = 0;
    while i < n
        invariant
            n == module.code_sections.len(),
            i <= n,
            count == saturated(code_size(module@.code_sections, i as nat) as int),
        decreases n - i,
    {
        assert(module@.code_sections[i as int] == module.code_sections@[i as int]@);
        count = saturating_sum(count, module.code_sections[i].instructions.len());
        i = i + 1;
    }
    let ghost in_code = code_size(module@.code_sections, n as nat);
    let n = module.globals.len();
    let mut i: usize = 0;
    while i < n
        invariant
            n == module.globals.len(),
            i <= n,
            count == saturated((in_code + init_size(module@.globals, i as nat)) as int),
        decreases n - i,
    {
        assert(module@.globals[i as int] == module.globals@[i as int]@);
        count = saturating_sum(count, count_init_expr_operators(&module.globals[i].init_expr));
        i = i + 1;
    }
    count
}

/// The cost of compiling `wasm_instruction_count` instructions at
/// `cost_to_compile_wasm_instruction` each, up to the largest `u64`.
pub fn compilation_cost(wasm_instruction_count: u64, cost_to_compile_wasm_instruction: u64) -> (cost:
    u64)
    ensures
        cost == saturated(cost_to_compile_wasm_instruction * wasm_instruction_count),
{
    assert(cost_to_compile_wasm_instruction * wasm_instruction_count <= u64::MAX * u64::MAX)
        by (nonlinear_arith)
        requires
            cost_to_compile_wasm_instruction <= u64::MAX,
            wasm_instruction_count <= u64::MAX,
    ;
    let product: u128 = cost_to_compile_wasm_instruction as u128 * wasm_instruction_count as u128;
    if product > u64::MAX as u128 {
        u64::MAX
    } else {
        product as u64
    }
}

/// A count that was cut off at the largest `u64` gives the same cost as the
/// count itself.
pub proof fn lemma_cost_of_saturated(count: nat, cost_per_instruction: u64)
    ensures
        saturated(cost_per_instruction * saturated(count as int)) == saturated(
            cost_per_instruction * count,
        ),
{
    if cost_per_instruction == 0 {
        assert(cost_per_instruction * count == 0) by (nonlinear_arith)
            requires
                cost_per_instruction == 0,
        ;
        assert(cost_per_instruction * saturated(count as int) == 0) by (nonlinear_arith)
            requires
                cost_per_instruction == 0,
        ;
    } else if count > u64::MAX {
        assert(cost_per_instruction * count >= count) by (nonlinear_arith)
            requires
                cost_per_instruction >= 1,
                count >= 0,
        ;
        assert(cost_per_instruction * u64::MAX >= u64::MAX) by (nonlinear_arith)
            requires
                cost_per_instruction >= 1,
        ;
    }
}

} // verus!
