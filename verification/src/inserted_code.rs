//! What the inserted pieces of code do when they run.

use crate::analysis::{injection_points, InjectionPoint, Scope};
use crate::memory_grow::{
    is_memory_grow, lemma_with_grow_guards_concat, with_grow_guard, with_grow_guards,
};
use crate::metering::{
    decrement_code, is_metered, lemma_injection_points_ordered, metered, metered_from,
    metering_code, overflow_check_code, ExportModuleData, InjectedImports,
};
use crate::model::Instruction;
use crate::semantics::{
    charged, checked, growth_result, grown_pages, has_counter, push, step, Charging, Machine,
    Value,
};
use crate::structured::{
    advance, behind_matching_else, behind_matching_end, finish, lemma_finish_in_two,
    lemma_finish_over, Label, Run,
};
use crate::support::decr_instruction_counter_body;
use crate::write_barrier::{
    lemma_with_barriers_concat, store_of, store_offset, value_local, with_barrier, with_barriers,
    write_barrier_code, PAGE_SIZE, TRACKING_MEMORY_INDEX,
};
use vstd::prelude::*;

verus! {

/// Whether `piece` stands in `code` at `pc`.
pub open spec fn stands_at(code: Seq<Instruction>, pc: int, piece: Seq<Instruction>) -> bool {
    &&& 0 <= pc
    &&& pc + piece.len() <= code.len()
    &&& forall|k: int| 0 <= k < piece.len() ==> code[pc + k] == #[trigger] piece[k]
}

/// A cost that does not take the counter out of the range of `i64` is
/// taken from it exactly.
pub proof fn lemma_charged_exactly(s: Machine, counter: u32, cost: u64)
    requires
        has_counter(s, counter),
        cost <= i64::MAX,
        s.globals[counter]->I64_0 - cost >= i64::MIN,
    ensures
        charged(s, counter, cost as i64).globals[counter] == Value::I64(
            (s.globals[counter]->I64_0 - cost) as i64,
        ),
        charged(s, counter, cost as i64).globals[counter]->I64_0 == s.globals[counter]->I64_0
            - cost,
{
}

/// How many instructions of the metering code of a static point run on the
/// machine `s`: all of them, but for the call of `out_of_instructions` and
/// the `end` behind it where the counter stays at or above zero.
pub open spec fn metering_steps_of(point: InjectionPoint, data: ExportModuleData, s: Machine) -> nat {
    let counter = data.instructions_counter_ix;
    if point.cost_detail->scope == Scope::ReentrantBlockStart {
        if charged(s, counter, point.cost_detail->cost as i64).globals[counter]->I64_0 < 0 {
            10
        } else {
            8
        }
    } else {
        4
    }
}

/// The machine after the metering code of a static point has run.
pub open spec fn metered_machine(point: InjectionPoint, data: ExportModuleData, s: Machine) -> Machine {
    let counter = data.instructions_counter_ix;
    let after = charged(s, counter, point.cost_detail->cost as i64);
    if point.cost_detail->scope == Scope::ReentrantBlockStart {
        checked(after, counter)
    } else {
        after
    }
}

/// Where the code that takes a cost from the counter stands, the run goes
/// through it and on behind it, and the code has done that and nothing else.
pub proof fn lemma_decrement_advances(
    m: Seq<Instruction>,
    at: int,
    counter: u32,
    cost: u64,
    labels: Seq<Label>,
    s: Machine,
)
    requires
        stands_at(m, at, decrement_code(counter, cost)),
        !s.stuck,
        has_counter(s, counter),
    ensures
        finish(m, Run { pc: at, labels, machine: s }, 4) == (Run {
            pc: at + 4,
            labels,
            machine: charged(s, counter, cost as i64),
        }),
{
    let piece = decrement_code(counter, cost);
    let g = s.globals[counter]->I64_0;
    assert(m[at] == piece[0] && m[at + 1] == piece[1] && m[at + 2] == piece[2] && m[at + 3]
        == piece[3]);
    let r0 = Run { pc: at, labels, machine: s };
    let s1 = Machine { stack: s.stack.push(Value::I64(g)), ..s };
    let s2 = Machine { stack: s1.stack.push(Value::I64(cost as i64)), ..s };
    let s3 = Machine { stack: s.stack.push(Value::I64((g - (cost as i64)) as i64)), ..s };
    let r1 = Run { pc: at + 1, labels, machine: s1 };
    let r2 = Run { pc: at + 2, labels, machine: s2 };
    let r3 = Run { pc: at + 3, labels, machine: s3 };
    let r4 = Run { pc: at + 4, labels, machine: charged(s, counter, cost as i64) };
    assert(advance(m, r0) == r1);
    assert(advance(m, r1) == r2);
    assert(s2.stack.take(s2.stack.len() - 2) =~= s.stack);
    assert(advance(m, r2) == r3);
    assert(s3.stack.drop_last() =~= s.stack);
    assert(advance(m, r3) == r4);
    assert(finish(m, r0, 4) == finish(m, r4, 0)) by {
        reveal_with_fuel(finish, 5);
    }
}

/// Where the test of the counter stands, the run goes through it and on
/// behind it: `out_of_instructions` has been called if and only if the
/// counter is below zero, and nothing else has changed.
pub proof fn lemma_check_advances(
    m: Seq<Instruction>,
    at: int,
    counter: u32,
    labels: Seq<Label>,
    s: Machine,
)
    requires
        stands_at(m, at, overflow_check_code(counter)),
        !s.stuck,
        has_counter(s, counter),
    ensures
        finish(
            m,
            Run { pc: at, labels, machine: s },
            if s.globals[counter]->I64_0 < 0 {
                6
            } else {
                4
            },
        ) == (Run { pc: at + 6, labels, machine: checked(s, counter) }),
{
    let piece = overflow_check_code(counter);
    assert(m[at] == piece[0] && m[at + 1] == piece[1] && m[at + 2] == piece[2] && m[at + 3]
        == piece[3] && m[at + 4] == piece[4] && m[at + 5] == piece[5]);
    let h = s.globals[counter]->I64_0;
    let flag: u32 = if h < 0 {
        1
    } else {
        0
    };
    let t1 = Machine { stack: s.stack.push(Value::I64(h)), ..s };
    let t2 = Machine { stack: t1.stack.push(Value::I64(0)), ..s };
    let t3 = Machine { stack: s.stack.push(Value::I32(flag)), ..s };
    let r0 = Run { pc: at, labels, machine: s };
    let r1 = Run { pc: at + 1, labels, machine: t1 };
    let r2 = Run { pc: at + 2, labels, machine: t2 };
    let r3 = Run { pc: at + 3, labels, machine: t3 };
    assert(advance(m, r0) == r1);
    assert(advance(m, r1) == r2);
    assert(t2.stack.take(t2.stack.len() - 2) =~= s.stack);
    assert(advance(m, r2) == r3);
    assert(t3.stack.drop_last() =~= s.stack);
    assert(finish(m, r0, 3) == finish(m, r3, 0)) by {
        reveal_with_fuel(finish, 4);
    }
    assert(behind_matching_end(m, at + 4, 0) == at + 6) by {
        reveal_with_fuel(behind_matching_end, 3);
    }
    assert(behind_matching_else(m, at + 4, 0) is None) by {
        reveal_with_fuel(behind_matching_else, 3);
    }
    let done = Run { pc: at + 6, labels, machine: checked(s, counter) };
    if h < 0 {
        let inside = labels.push(Label { target: at + 6, is_loop: false });
        let r4 = Run { pc: at + 4, labels: inside, machine: s };
        let r5 = Run { pc: at + 5, labels: inside, machine: checked(s, counter) };
        assert(advance(m, r3) == r4);
        assert(advance(m, r4) == r5);
        assert(inside.drop_last() =~= labels);
        assert(advance(m, r5) == done);
        assert(finish(m, r3, 3) == finish(m, done, 0)) by {
            reveal_with_fuel(finish, 4);
        }
        lemma_finish_in_two(m, r0, 3, 3);
    } else {
        assert(advance(m, r3) == done);
        assert(finish(m, r3, 1) == finish(m, done, 0)) by {
            reveal_with_fuel(finish, 2);
        }
        lemma_finish_in_two(m, r0, 3, 1);
    }
}

/// Where the metering code of a static point stands, before other code,
/// the run goes through it and on behind it: the cost has been taken from
/// the counter, and at the start of a reentrant block the counter has been
/// tested; the open blocks are as they were.
pub proof fn lemma_metering_code_advances(
    m: Seq<Instruction>,
    at: int,
    point: InjectionPoint,
    data: ExportModuleData,
    labels: Seq<Label>,
    s: Machine,
)
    requires
        point.cost_detail is StaticCost,
        stands_at(m, at, metering_code(point, data)),
        !s.stuck,
        has_counter(s, data.instructions_counter_ix),
    ensures
        finish(m, Run { pc: at, labels, machine: s }, metering_steps_of(point, data, s)) == (Run {
            pc: at + metering_code(point, data).len(),
            labels,
            machine: metered_machine(point, data, s),
        }),
{
    let counter = data.instructions_counter_ix;
    let cost = point.cost_detail->cost;
    let piece = metering_code(point, data);
    let after = charged(s, counter, cost as i64);
    assert forall|k: int| 0 <= k < 4 implies m[at + k] == #[trigger] decrement_code(
        counter,
        cost,
    )[k] by {
        assert(piece[k] == decrement_code(counter, cost)[k]);
    }
    lemma_decrement_advances(m, at, counter, cost, labels, s);
    if point.cost_detail->scope == Scope::ReentrantBlockStart {
        assert forall|k: int| 0 <= k < 6 implies m[at + 4 + k] == #[trigger] overflow_check_code(
            counter,
        )[k] by {
            assert(piece[4 + k] == overflow_check_code(counter)[k]);
        }
        lemma_check_advances(m, at + 4, counter, labels, after);
        let steps: nat = if after.globals[counter]->I64_0 < 0 {
            6
        } else {
            4
        };
        lemma_finish_in_two(m, Run { pc: at, labels, machine: s }, 4, steps);
    }
}

/// The length of the metering code of the first `k` points.
pub open spec fn inserted_before(points: Seq<InjectionPoint>, data: ExportModuleData, k: nat) -> nat
    decreases k,
{
    if k == 0 {
        0
    } else {
        let point = points[k - 1];
        inserted_before(points, data, (k - 1) as nat) + if is_metered(point) {
            metering_code(point, data).len()
        } else {
            0
        }
    }
}

proof fn lemma_inserted_before_rest(points: Seq<InjectionPoint>, data: ExportModuleData, k: nat)
    requires
        1 <= k <= points.len(),
    ensures
        inserted_before(points, data, k) == inserted_before(
            points.drop_first(),
            data,
            (k - 1) as nat,
        ) + if is_metered(points[0]) {
            metering_code(points[0], data).len()
        } else {
            0
        },
    decreases k,
{
    if k > 1 {
        lemma_inserted_before_rest(points, data, (k - 1) as nat);
        assert(points.drop_first()[k - 2] == points[k - 1]);
    } else {
        reveal_with_fuel(inserted_before, 2);
    }
}

proof fn lemma_metering_code_stands(
    code: Seq<Instruction>,
    points: Seq<InjectionPoint>,
    data: ExportModuleData,
    start: int,
    k: int,
)
    requires
        0 <= k < points.len(),
        is_metered(points[k]),
        0 <= start <= points[0].position,
        forall|i: int| 0 <= i < points.len() ==> (#[trigger] points[i]).position <= code.len(),
        forall|i: int, j: int|
            0 <= i <= j < points.len() ==> points[i].position <= points[j].position,
    ensures
        stands_at(
            metered_from(code, points, data, start),
            points[k].position - start + inserted_before(points, data, k as nat),
            metering_code(points[k], data),
        ),
    decreases points.len(),
{
    let first = points.first();
    let rest = points.drop_first();
    let piece = metering_code(points[k], data);
    if k == 0 {
        assert(is_metered(first));
    } else {
        assert(rest[k - 1] == points[k]);
        assert forall|i: int| 0 <= i < rest.len() implies (#[trigger] rest[i]).position
            <= code.len() by {
            assert(rest[i] == points[i + 1]);
        }
        assert forall|i: int, j: int| 0 <= i <= j < rest.len() implies rest[i].position
            <= rest[j].position by {
            assert(rest[i] == points[i + 1] && rest[j] == points[j + 1]);
        }
        assert(rest[0] == points[1]);
        lemma_inserted_before_rest(points, data, k as nat);
        if is_metered(first) {
            lemma_metering_code_stands(code, rest, data, first.position as int, k - 1);
            let tail = metered_from(code, rest, data, first.position as int);
            let head = code.subrange(start, first.position as int) + metering_code(first, data);
            let at = points[k].position - first.position + inserted_before(
                rest,
                data,
                (k - 1) as nat,
            );
            assert(metered_from(code, points, data, start) =~= head + tail);
            assert forall|j: int| 0 <= j < piece.len() implies (head + tail)[head.len() + at + j]
                == #[trigger] piece[j] by {
                assert(tail[at + j] == piece[j]);
            }
        } else {
            lemma_metering_code_stands(code, rest, data, start, k - 1);
        }
    }
}

/// In a metered function body, the metering code of every injection point
/// that is metered stands at the point: behind the instructions of the body
/// before the position of the point and the metering code of the points
/// before it.
pub proof fn lemma_metering_code_stands_at_point(
    code: Seq<Instruction>,
    data: ExportModuleData,
    k: int,
)
    requires
        code.len() <= usize::MAX,
        0 <= k < injection_points(code).len(),
        is_metered(injection_points(code)[k]),
    ensures
        stands_at(
            metered(code, data),
            injection_points(code)[k].position + inserted_before(
                injection_points(code),
                data,
                k as nat,
            ),
            metering_code(injection_points(code)[k], data),
        ),
{
    lemma_injection_points_ordered(code);
    lemma_metering_code_stands(code, injection_points(code), data, 0, k);
}

/// Whenever the run of a metered function body comes to the place of a
/// static injection point, the cost of the block that starts there is taken
/// from the counter before any instruction of the block runs; at the start
/// of a reentrant block, `out_of_instructions` is called, before any
/// instruction of the block runs, if and only if the counter is then below
/// zero.
pub proof fn lemma_block_is_charged_on_entry(
    code: Seq<Instruction>,
    data: ExportModuleData,
    k: int,
    labels: Seq<Label>,
    s: Machine,
)
    requires
        code.len() <= usize::MAX,
        0 <= k < injection_points(code).len(),
        injection_points(code)[k].cost_detail is StaticCost,
        is_metered(injection_points(code)[k]),
        !s.stuck,
        has_counter(s, data.instructions_counter_ix),
    ensures
        ({
            let point = injection_points(code)[k];
            let at = point.position + inserted_before(injection_points(code), data, k as nat);
            finish(
                metered(code, data),
                Run { pc: at, labels, machine: s },
                metering_steps_of(point, data, s),
            ) == (Run {
                pc: at + metering_code(point, data).len(),
                labels,
                machine: metered_machine(point, data, s),
            })
        }),
{
    let point = injection_points(code)[k];
    lemma_metering_code_stands_at_point(code, data, k);
    lemma_metering_code_advances(
        metered(code, data),
        point.position + inserted_before(injection_points(code), data, k as nat),
        point,
        data,
        labels,
        s,
    );
}

/// What the function that charges a dynamic cost does, called with `n`:
/// the counter is lower by `n`, read as unsigned; `out_of_instructions` is
/// called if and only if the counter is then below zero; and `n` is on the
/// stack again when the function returns.
pub proof fn lemma_dynamic_metering(counter: u32, n: u32, s: Machine)
    requires
        !s.stuck,
        has_counter(s, counter),
        s.locals.contains_key(0),
        s.locals[0] == Value::I32(n),
    ensures
        ({
            let body = decr_instruction_counter_body(counter).instructions;
            let after = charged(s, counter, n as i64);
            finish(
                body,
                Run { pc: 0, labels: Seq::empty(), machine: s },
                if after.globals[counter]->I64_0 < 0 {
                    13
                } else {
                    11
                },
            ) == (Run {
                pc: body.len() as int,
                labels: Seq::empty(),
                machine: push(checked(after, counter), Value::I32(n)),
            })
        }),
{
    let code = decr_instruction_counter_body(counter).instructions;
    let labels = Seq::<Label>::empty();
    let g = s.globals[counter]->I64_0;
    let s1 = push(s, Value::I64(g));
    let s2 = push(s1, Value::I32(n));
    let s3 = push(s1, Value::I64(n as i64));
    let s4 = Machine { stack: s.stack.push(Value::I64((g - (n as i64)) as i64)), ..s };
    let s5 = charged(s, counter, n as i64);
    assert(code.len() == 13);
    assert(code[0] == Instruction::GlobalGet { global_index: counter });
    assert(code[1] == Instruction::LocalGet { local_index: 0 });
    assert(code[2] == Instruction::I64ExtendI32U);
    assert(code[3] == Instruction::I64Sub);
    assert(code[4] == Instruction::GlobalSet { global_index: counter });
    assert(code[11] == Instruction::LocalGet { local_index: 0 });
    assert(code[12] == Instruction::End);
    let r0 = Run { pc: 0, labels, machine: s };
    let r1 = Run { pc: 1, labels, machine: s1 };
    let r2 = Run { pc: 2, labels, machine: s2 };
    let r3 = Run { pc: 3, labels, machine: s3 };
    let r4 = Run { pc: 4, labels, machine: s4 };
    let r5 = Run { pc: 5, labels, machine: s5 };
    assert(advance(code, r0) == r1);
    assert(advance(code, r1) == r2);
    assert(s2.stack.drop_last() =~= s1.stack);
    assert(advance(code, r2) == r3);
    assert(s3.stack.take(s3.stack.len() - 2) =~= s.stack);
    assert(advance(code, r3) == r4);
    assert(s4.stack.drop_last() =~= s.stack);
    assert(advance(code, r4) == r5);
    assert(finish(code, r0, 5) == finish(code, r5, 0)) by {
        reveal_with_fuel(finish, 6);
    }
    assert forall|k: int| 0 <= k < 6 implies code[5 + k] == #[trigger] overflow_check_code(
        counter,
    )[k] by {}
    lemma_check_advances(code, 5, counter, labels, s5);
    let s6 = checked(s5, counter);
    let r11 = Run { pc: 11, labels, machine: s6 };
    let r12 = Run { pc: 12, labels, machine: push(s6, Value::I32(n)) };
    let r13 = Run { pc: 13, labels, machine: push(s6, Value::I32(n)) };
    assert(advance(code, r11) == r12);
    assert(advance(code, r12) == r13);
    assert(finish(code, r11, 2) == finish(code, r13, 0)) by {
        reveal_with_fuel(finish, 3);
    }
    let check_steps: nat = if s5.globals[counter]->I64_0 < 0 {
        6
    } else {
        4
    };
    lemma_finish_in_two(code, r0, 5, check_steps);
    lemma_finish_in_two(code, r0, 5 + check_steps, 2);
}

/// The machine's calls of the function that charges a dynamic cost are
/// calls of that function: a call with the cost on top of the stack does to
/// the counter and to the calls of the host what the body of the function
/// does when it is run with the cost as its argument, and leaves on the
/// stack what the function returns, the cost.
pub proof fn lemma_charging_call_is_the_body(function: u32, counter: u32, s: Machine)
    requires
        !s.stuck,
        has_counter(s, counter),
        s.charging == Some(Charging { function, counter }),
        function != InjectedImports::OutOfInstructions.spec_index(),
        function != InjectedImports::UpdateAvailableMemory.spec_index(),
        s.stack.len() >= 1,
        s.stack.last() is I32,
    ensures
        ({
            let n = s.stack.last()->I32_0;
            let callee = Machine {
                stack: Seq::empty(),
                locals: Map::empty().insert(0u32, Value::I32(n)),
                ..s
            };
            let body = decr_instruction_counter_body(counter).instructions;
            let returned = finish(
                body,
                Run { pc: 0, labels: Seq::empty(), machine: callee },
                13,
            ).machine;
            &&& returned.stack == seq![Value::I32(n)]
            &&& step(Instruction::Call { function_index: function }, s) == (Machine {
                stack: s.stack,
                locals: s.locals,
                ..returned
            })
        }),
{
    let n = s.stack.last()->I32_0;
    let callee = Machine {
        stack: Seq::empty(),
        locals: Map::empty().insert(0u32, Value::I32(n)),
        ..s
    };
    let body = decr_instruction_counter_body(counter).instructions;
    let start = Run { pc: 0, labels: Seq::empty(), machine: callee };
    lemma_dynamic_metering(counter, n, callee);
    let after = charged(callee, counter, n as i64);
    let steps: nat = if after.globals[counter]->I64_0 < 0 {
        13
    } else {
        11
    };
    lemma_finish_in_two(body, start, steps, (13 - steps) as nat);
    lemma_finish_over(body, finish(body, start, steps), (13 - steps) as nat);
    let returned = finish(body, start, 13).machine;
    assert(returned.stack =~= seq![Value::I32(n)]);
}

/// The page of the host that the byte at `address` lies in.
pub open spec fn page_of(address: int) -> int {
    address / (PAGE_SIZE as int)
}

/// How many instructions the code that marks the written page has.
pub open spec fn barrier_steps(offset: u64) -> nat {
    if offset % PAGE_SIZE == 0 {
        8
    } else {
        10
    }
}

/// The machine after the code that marks the written page has run before a
/// store of `v` to `address + offset`.
pub open spec fn marked(
    s: Machine,
    offset: u64,
    val_arg_idx: u32,
    addr_arg_idx: u32,
) -> Machine {
    let address = s.stack[s.stack.len() - 2]->I32_0;
    Machine {
        locals: s.locals.insert(val_arg_idx, s.stack.last()).insert(
            addr_arg_idx,
            Value::I32(address),
        ),
        memories: s.memories.insert((TRACKING_MEMORY_INDEX, page_of(address + offset)), 1u8),
        ..s
    }
}

/// The first two instructions of the code that marks the written page put
/// the value and the address of the store into their locals and leave the
/// address on the stack.
proof fn lemma_barrier_saves_operands(
    code: Seq<Instruction>,
    pc: int,
    offset: u64,
    val_arg_idx: u32,
    addr_arg_idx: u32,
    labels: Seq<Label>,
    s: Machine,
)
    requires
        stands_at(code, pc, write_barrier_code(offset, val_arg_idx, addr_arg_idx)),
        !s.stuck,
        s.stack.len() >= 2,
    ensures
        finish(code, Run { pc, labels, machine: s }, 2) == (Run {
            pc: pc + 2,
            labels,
            machine: Machine {
                stack: s.stack.drop_last(),
                locals: s.locals.insert(val_arg_idx, s.stack.last()).insert(
                    addr_arg_idx,
                    s.stack[s.stack.len() - 2],
                ),
                ..s
            },
        }),
{
    let piece = write_barrier_code(offset, val_arg_idx, addr_arg_idx);
    assert(code[pc] == piece[0] && code[pc + 1] == piece[1]);
    let s1 = Machine {
        stack: s.stack.drop_last(),
        locals: s.locals.insert(val_arg_idx, s.stack.last()),
        ..s
    };
    let s2 = Machine { locals: s1.locals.insert(addr_arg_idx, s1.stack.last()), ..s1 };
    let r0 = Run { pc, labels, machine: s };
    let r1 = Run { pc: pc + 1, labels, machine: s1 };
    let r2 = Run { pc: pc + 2, labels, machine: s2 };
    assert(advance(code, r0) == r1);
    assert(advance(code, r1) == r2);
    assert(finish(code, r0, 2) == finish(code, r2, 0)) by {
        reveal_with_fuel(finish, 3);
    }
}

/// The last three instructions of the code that marks the written page
/// write the mark and put the address and the value of the store back.
proof fn lemma_barrier_marks_and_restores(
    code: Seq<Instruction>,
    pc: int,
    mark: Instruction,
    val_arg_idx: u32,
    addr_arg_idx: u32,
    labels: Seq<Label>,
    s: Machine,
)
    requires
        0 <= pc,
        pc + 3 <= code.len(),
        mark matches Instruction::I32Store8 { .. },
        code[pc] == mark,
        code[pc + 1] == (Instruction::LocalGet { local_index: addr_arg_idx }),
        code[pc + 2] == (Instruction::LocalGet { local_index: val_arg_idx }),
        !s.stuck,
        s.stack.len() >= 2,
        s.stack[s.stack.len() - 1] is I32,
        s.stack[s.stack.len() - 2] is I32,
        s.locals.contains_key(addr_arg_idx),
        s.locals.contains_key(val_arg_idx),
    ensures
        finish(code, Run { pc, labels, machine: s }, 3) == (Run {
            pc: pc + 3,
            labels,
            machine: Machine {
                stack: s.stack.take(s.stack.len() - 2).push(s.locals[addr_arg_idx]).push(
                    s.locals[val_arg_idx],
                ),
                memories: s.memories.insert(
                    (mark->I32Store8_memarg.memory, s.stack[s.stack.len() - 2]->I32_0
                        + mark->I32Store8_memarg.offset),
                    s.stack[s.stack.len() - 1]->I32_0 as u8,
                ),
                ..s
            },
        }),
{
    let n = s.stack.len() as int;
    let s1 = step(mark, s);
    let s2 = push(s1, s.locals[addr_arg_idx]);
    let s3 = push(s2, s.locals[val_arg_idx]);
    let r0 = Run { pc, labels, machine: s };
    let r1 = Run { pc: pc + 1, labels, machine: s1 };
    let r2 = Run { pc: pc + 2, labels, machine: s2 };
    let r3 = Run { pc: pc + 3, labels, machine: s3 };
    assert(advance(code, r0) == r1);
    assert(advance(code, r1) == r2);
    assert(advance(code, r2) == r3);
    assert(finish(code, r0, 3) == finish(code, r3, 0)) by {
        reveal_with_fuel(finish, 4);
    }
}

/// Where the code that marks the written page stands before a store to
/// `address + offset`, with `address` and the value `v` on the stack, the
/// byte of the page of `address + offset` in the tracking memory is 1
/// afterwards, and that is the only byte of any memory that the code
/// writes. The stack is as it was: the store finds its address and its
/// value. The run goes on behind the code.
///
/// A store with an offset that is no multiple of the page size is covered
/// where `address + offset` is an address of 32 bits.
#[verifier::rlimit(30)]
pub proof fn lemma_write_barrier_marks_page(
    code: Seq<Instruction>,
    pc: int,
    offset: u64,
    val_arg_idx: u32,
    addr_arg_idx: u32,
    labels: Seq<Label>,
    s: Machine,
)
    requires
        stands_at(code, pc, write_barrier_code(offset, val_arg_idx, addr_arg_idx)),
        !s.stuck,
        val_arg_idx != addr_arg_idx,
        s.stack.len() >= 2,
        s.stack[s.stack.len() - 2] is I32,
        offset % PAGE_SIZE != 0 ==> s.stack[s.stack.len() - 2]->I32_0 + offset <= u32::MAX,
    ensures
        finish(code, Run { pc, labels, machine: s }, barrier_steps(offset)) == (Run {
            pc: pc + barrier_steps(offset),
            labels,
            machine: marked(s, offset, val_arg_idx, addr_arg_idx),
        }),
{
    let piece = write_barrier_code(offset, val_arg_idx, addr_arg_idx);
    let n = s.stack.len() as int;
    let a = s.stack[n - 2]->I32_0;
    let v = s.stack.last();
    let base = s.stack.take(n - 2);
    let r0 = Run { pc, labels, machine: s };
    lemma_barrier_saves_operands(code, pc, offset, val_arg_idx, addr_arg_idx, labels, s);
    let s2 = Machine {
        stack: base.push(Value::I32(a)),
        locals: s.locals.insert(val_arg_idx, v).insert(addr_arg_idx, Value::I32(a)),
        ..s
    };
    assert(s.stack.drop_last() =~= base.push(Value::I32(a)));
    let r2 = Run { pc: pc + 2, labels, machine: s2 };
    assert(finish(code, r0, 2) == r2);
    assert(a >> 12u32 == a / 4096) by (bit_vector);
    assert(12u32 % 32 == 12);
    if offset % PAGE_SIZE == 0 {
        assert(piece.len() == 8);
        assert(code[pc + 2] == piece[2] && code[pc + 3] == piece[3] && code[pc + 4] == piece[4]
            && code[pc + 5] == piece[5] && code[pc + 6] == piece[6] && code[pc + 7] == piece[7]);
        assert(offset >> 12 == offset / 4096) by (bit_vector);
        let shifted: u32 = a >> 12u32;
        assert(shifted + (offset >> 12) == page_of(a + offset));
        let s3 = push(s2, Value::I32(12));
        let s4 = Machine { stack: base.push(Value::I32(shifted)), ..s2 };
        let s5 = push(s4, Value::I32(1));
        assert(s3.stack.take(s3.stack.len() - 2) =~= base);
        let r3 = Run { pc: pc + 3, labels, machine: s3 };
        let r4 = Run { pc: pc + 4, labels, machine: s4 };
        let r5 = Run { pc: pc + 5, labels, machine: s5 };
        assert(advance(code, r2) == r3);
        assert(advance(code, r3) == r4);
        assert(advance(code, r4) == r5);
        assert(finish(code, r2, 3) == finish(code, r5, 0)) by {
            reveal_with_fuel(finish, 4);
        }
        lemma_barrier_marks_and_restores(
            code,
            pc + 5,
            piece[5],
            val_arg_idx,
            addr_arg_idx,
            labels,
            s5,
        );
        assert(s5.stack.take(s5.stack.len() - 2) =~= base);
        assert(base.push(Value::I32(a)).push(v) =~= s.stack);
        lemma_finish_in_two(code, r0, 2, 3);
        lemma_finish_in_two(code, r0, 5, 3);
    } else {
        assert(piece.len() == 10);
        assert(code[pc + 2] == piece[2] && code[pc + 3] == piece[3] && code[pc + 4] == piece[4]
            && code[pc + 5] == piece[5] && code[pc + 6] == piece[6] && code[pc + 7] == piece[7]
            && code[pc + 8] == piece[8] && code[pc + 9] == piece[9]);
        assert(offset <= 0xffff_ffff ==> ((offset as i32) as u32) as u64 == offset)
            by (bit_vector);
        let constant: u32 = (offset as i32) as u32;
        let sum: u32 = (a + offset) as u32;
        assert(sum >> 12u32 == sum / 4096) by (bit_vector);
        let shifted: u32 = sum >> 12u32;
        let s3 = push(s2, Value::I32(constant));
        let s4 = Machine { stack: base.push(Value::I32(sum)), ..s2 };
        let s5 = push(s4, Value::I32(12));
        let s6 = Machine { stack: base.push(Value::I32(shifted)), ..s2 };
        let s7 = push(s6, Value::I32(1));
        assert(s3.stack.take(s3.stack.len() - 2) =~= base);
        assert(s5.stack.take(s5.stack.len() - 2) =~= base);
        let r3 = Run { pc: pc + 3, labels, machine: s3 };
        let r4 = Run { pc: pc + 4, labels, machine: s4 };
        let r5 = Run { pc: pc + 5, labels, machine: s5 };
        let r6 = Run { pc: pc + 6, labels, machine: s6 };
        let r7 = Run { pc: pc + 7, labels, machine: s7 };
        assert(advance(code, r2) == r3);
        assert(advance(code, r3) == r4);
        assert(advance(code, r4) == r5);
        assert(advance(code, r5) == r6);
        assert(advance(code, r6) == r7);
        assert(finish(code, r2, 5) == finish(code, r7, 0)) by {
            reveal_with_fuel(finish, 6);
        }
        lemma_barrier_marks_and_restores(
            code,
            pc + 7,
            piece[7],
            val_arg_idx,
            addr_arg_idx,
            labels,
            s7,
        );
        assert(s7.stack.take(s7.stack.len() - 2) =~= base);
        assert(base.push(Value::I32(a)).push(v) =~= s.stack);
        lemma_finish_in_two(code, r0, 2, 5);
        lemma_finish_in_two(code, r0, 7, 3);
    }
}

/// In code with barriers, the code that marks the written page stands
/// right before every store: before the store at `p` of the code without
/// barriers it stands behind the barriers and instructions of the code up to
/// `p`, with the local for the type of the value, and the store follows it.
pub proof fn lemma_barrier_stands_before_store(code: Seq<Instruction>, first_local: u32, p: int)
    requires
        0 <= p < code.len(),
        store_of(code[p]) is Some,
    ensures
        ({
            let (memarg, ty) = store_of(code[p])->0;
            let barrier = write_barrier_code(
                memarg.offset,
                value_local(first_local, ty),
                first_local,
            );
            let at = with_barriers(code.take(p), first_local).len() as int;
            &&& stands_at(with_barriers(code, first_local), at, barrier)
            &&& at + barrier.len() < with_barriers(code, first_local).len()
            &&& with_barriers(code, first_local)[at + barrier.len()] == code[p]
        }),
{
    let before = code.take(p);
    let rest = code.skip(p + 1);
    let one = seq![code[p]];
    assert(code =~= before + one + rest);
    lemma_with_barriers_concat(before + one, rest, first_local);
    lemma_with_barriers_concat(before, one, first_local);
    assert(one.drop_last() =~= Seq::<Instruction>::empty());
    assert(with_barriers(one, first_local) =~= with_barrier(code[p], first_local)) by {
        reveal_with_fuel(with_barriers, 2);
    }
}

/// When the run of code with barriers comes to the code before a store, it
/// marks the page of the store, leaves the stack to the store, and the store
/// runs next.
pub proof fn lemma_store_marks_its_page(
    code: Seq<Instruction>,
    first_local: u32,
    p: int,
    labels: Seq<Label>,
    s: Machine,
)
    requires
        0 <= p < code.len(),
        store_of(code[p]) is Some,
        first_local + 4 <= u32::MAX,
        !s.stuck,
        s.stack.len() >= 2,
        s.stack[s.stack.len() - 2] is I32,
        store_offset(code[p]) % PAGE_SIZE != 0 ==> s.stack[s.stack.len() - 2]->I32_0
            + store_offset(code[p]) <= u32::MAX,
    ensures
        ({
            let (memarg, ty) = store_of(code[p])->0;
            let instrumented = with_barriers(code, first_local);
            let at = with_barriers(code.take(p), first_local).len() as int;
            let store = at + barrier_steps(memarg.offset);
            &&& store < instrumented.len()
            &&& instrumented[store] == code[p]
            &&& finish(instrumented, Run { pc: at, labels, machine: s }, barrier_steps(memarg.offset))
                == (Run {
                pc: store,
                labels,
                machine: marked(s, memarg.offset, value_local(first_local, ty), first_local),
            })
        }),
{
    let (memarg, ty) = store_of(code[p])->0;
    lemma_barrier_stands_before_store(code, first_local, p);
    lemma_write_barrier_marks_page(
        with_barriers(code, first_local),
        with_barriers(code.take(p), first_local).len() as int,
        memarg.offset,
        value_local(first_local, ty),
        first_local,
        labels,
        s,
    );
}

/// Where the guard of a growth of the heap stands, with the number of pages
/// asked for on the stack: the heap grows as it would without the guard;
/// the host is told the result of the growth and the number of pages asked
/// for; and what the host answers is on the stack in the place of the
/// result, whether the growth has succeeded or not. The run goes on behind
/// the guard.
pub proof fn lemma_growth_guard(
    code: Seq<Instruction>,
    pc: int,
    grow: Instruction,
    local: u32,
    labels: Seq<Label>,
    s: Machine,
)
    requires
        grow matches Instruction::MemoryGrow { mem, .. } && mem == 0,
        stands_at(code, pc, with_grow_guard(grow, local)),
        !s.stuck,
        s.stack.len() >= 1,
        s.stack.last() is I32,
    ensures
        ({
            let delta = s.stack.last()->I32_0;
            let result = growth_result(s, delta);
            finish(code, Run { pc, labels, machine: s }, 4) == (Run {
                pc: pc + 4,
                labels,
                machine: Machine {
                    stack: s.stack.drop_last().push(
                        Value::I32((s.update_available_memory)(result, delta)),
                    ),
                    locals: s.locals.insert(local, Value::I32(delta)),
                    heap_pages: grown_pages(s, delta),
                    calls: s.calls.push(InjectedImports::UpdateAvailableMemory.spec_index()),
                    ..s
                },
            })
        }),
{
    let piece = with_grow_guard(grow, local);
    let delta = s.stack.last()->I32_0;
    let result = growth_result(s, delta);
    let base = s.stack.drop_last();
    let locals = s.locals.insert(local, Value::I32(delta));
    assert(piece.len() == 4);
    assert(code[pc] == piece[0] && code[pc + 1] == piece[1] && code[pc + 2] == piece[2] && code[pc
        + 3] == piece[3]);
    let s1 = Machine { locals, ..s };
    let s2 = Machine {
        stack: base.push(Value::I32(result)),
        heap_pages: grown_pages(s, delta),
        ..s1
    };
    let s3 = push(s2, Value::I32(delta));
    let s4 = Machine {
        stack: base.push(Value::I32((s.update_available_memory)(result, delta))),
        calls: s.calls.push(InjectedImports::UpdateAvailableMemory.spec_index()),
        ..s2
    };
    assert(step(code[pc], s) == s1);
    assert(step(code[pc + 1], s1) == s2);
    assert(step(code[pc + 2], s2) == s3);
    assert(s3.stack.take(s3.stack.len() - 2) =~= base);
    assert(step(code[pc + 3], s3) == s4);
    let r0 = Run { pc, labels, machine: s };
    let r1 = Run { pc: pc + 1, labels, machine: s1 };
    let r2 = Run { pc: pc + 2, labels, machine: s2 };
    let r3 = Run { pc: pc + 3, labels, machine: s3 };
    let r4 = Run { pc: pc + 4, labels, machine: s4 };
    assert(advance(code, r0) == r1);
    assert(advance(code, r1) == r2);
    assert(advance(code, r2) == r3);
    assert(advance(code, r3) == r4);
    assert(finish(code, r0, 4) == finish(code, r4, 0)) by {
        reveal_with_fuel(finish, 5);
    }
}

/// In code with guards, the guard stands in the place of every
/// `memory.grow`: for the one at `p` of the code without guards, behind the
/// guards and instructions of the code up to `p`.
pub proof fn lemma_guard_stands_for_growth(code: Seq<Instruction>, local: u32, p: int)
    requires
        0 <= p < code.len(),
        is_memory_grow(code[p]),
    ensures
        stands_at(
            with_grow_guards(code, local),
            with_grow_guards(code.take(p), local).len() as int,
            with_grow_guard(code[p], local),
        ),
{
    let before = code.take(p);
    let rest = code.skip(p + 1);
    let one = seq![code[p]];
    assert(code =~= before + one + rest);
    lemma_with_grow_guards_concat(before + one, rest, local);
    lemma_with_grow_guards_concat(before, one, local);
    assert(one.drop_last() =~= Seq::<Instruction>::empty());
    assert(with_grow_guards(one, local) =~= with_grow_guard(code[p], local)) by {
        reveal_with_fuel(with_grow_guards, 2);
    }
}

} // verus!
