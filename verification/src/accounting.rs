//! Metered code runs as the code that it was made from runs on a machine
//! that keeps account of the costs: of the dynamic cost of every bulk
//! instruction that is run, and of the cost of every block that is entered.

use crate::analysis::{
    lemma_walk_inv, points_at, points_below, walk, InjectionPoint, InjectionPointCostDetail,
    Scope, Walk,
};
use crate::inserted_code::{
    lemma_metering_code_advances, metered_machine, metering_steps_of, stands_at,
};
use crate::metering::{
    is_metered, metered, metered_from, metering_code, ExportModuleData, InjectedImports,
};
use crate::model::Instruction;
use crate::semantics::{charged_dynamically, has_counter, step, Charging, Machine};
use crate::structured::{
    advance, behind_matching_else, behind_matching_end, branch, finish, is_over,
    lemma_finish_in_two, lemma_matching_else_bounds, lemma_matching_else_shifted,
    lemma_matching_end_bounds, lemma_matching_end_shifted, Label, Run,
};
use vstd::prelude::*;

verus! {

/// The call of the function that charges a dynamic cost.
pub open spec fn charging_call(data: ExportModuleData) -> Instruction {
    Instruction::Call { function_index: data.decr_instruction_counter_fn }
}

/// The metering code for the dynamic cost of the instruction at `p`, if it
/// has one.
pub open spec fn dynamic_code_before(w: Walk, data: ExportModuleData, p: int) -> Seq<Instruction> {
    if w.slots[p].dynamic {
        seq![charging_call(data)]
    } else {
        Seq::empty()
    }
}

/// The static injection point at `p`, for a block that starts there.
pub open spec fn static_point(w: Walk, p: int) -> InjectionPoint {
    InjectionPoint {
        cost_detail: InjectionPointCostDetail::StaticCost {
            scope: w.slots[p].block->0.scope,
            cost: w.slots[p].block->0.cost,
        },
        position: p as usize,
    }
}

/// Whether metering code for a block stands before the instruction at `p`:
/// a block starts there that has ended and is metered.
pub open spec fn is_charged_at(w: Walk, p: int) -> bool {
    w.slots[p].block is Some && w.slots[p].block->0.closed && is_metered(static_point(w, p))
}

/// The metering code for the block that starts at `p`, if one does.
pub open spec fn static_code_before(w: Walk, data: ExportModuleData, p: int) -> Seq<Instruction> {
    if is_charged_at(w, p) {
        metering_code(static_point(w, p), data)
    } else {
        Seq::empty()
    }
}

/// The metering code that stands before the instruction at `p`: that for
/// its dynamic cost, then that for the block that starts there.
pub open spec fn code_before(w: Walk, data: ExportModuleData, p: int) -> Seq<Instruction> {
    dynamic_code_before(w, data, p) + static_code_before(w, data, p)
}

/// The instructions from `p` on, each behind its metering code.
pub open spec fn metered_tail(
    code: Seq<Instruction>,
    w: Walk,
    data: ExportModuleData,
    p: int,
) -> Seq<Instruction>
    decreases code.len() - p,
{
    if p < 0 || p >= code.len() {
        Seq::empty()
    } else {
        code_before(w, data, p) + seq![code[p]] + metered_tail(code, w, data, p + 1)
    }
}

/// The injection points at the positions from `p` up to `n`.
pub open spec fn points_from(w: Walk, p: int, n: int) -> Seq<InjectionPoint>
    decreases n - p,
{
    if p >= n {
        Seq::empty()
    } else {
        points_at(w, p) + points_from(w, p + 1, n)
    }
}

proof fn lemma_points_from_last(w: Walk, p: int, n: int)
    requires
        0 <= p <= n,
    ensures
        points_from(w, p, n + 1) == points_from(w, p, n) + points_at(w, n),
    decreases n - p,
{
    if p < n {
        lemma_points_from_last(w, p + 1, n);
        assert(points_from(w, p, n + 1) =~= points_from(w, p, n) + points_at(w, n));
    } else {
        reveal_with_fuel(points_from, 2);
        assert(points_from(w, p, n + 1) =~= points_from(w, p, n) + points_at(w, n));
    }
}

proof fn lemma_points_below_from(w: Walk, n: nat)
    ensures
        points_below(w, n) == points_from(w, 0, n as int),
    decreases n,
{
    if n > 0 {
        lemma_points_below_from(w, (n - 1) as nat);
        lemma_points_from_last(w, 0, n - 1);
    }
}

/// The metered code, from the points at the positions from `p` on, is the
/// code up to `p` and the instructions from `p` on behind their metering
/// code.
proof fn lemma_metered_from_tail(
    code: Seq<Instruction>,
    w: Walk,
    data: ExportModuleData,
    start: int,
    p: int,
)
    requires
        0 <= start <= p <= code.len(),
        code.len() <= usize::MAX,
        w.slots.len() == code.len(),
    ensures
        metered_from(code, points_from(w, p, code.len() as int), data, start) == code.subrange(
            start,
            p,
        ) + metered_tail(code, w, data, p),
    decreases code.len() - p,
{
    let len = code.len() as int;
    if p >= len {
        assert(code.subrange(start, p) + metered_tail(code, w, data, p) =~= code.subrange(
            start,
            len,
        ));
    } else {
        let here = points_at(w, p);
        let rest = points_from(w, p + 1, len);
        let tail = metered_tail(code, w, data, p + 1);
        let slot = w.slots[p];
        let empty = Seq::<Instruction>::empty();
        assert(code.subrange(start, p + 1) =~= code.subrange(start, p) + seq![code[p]]);
        assert(code.subrange(p, p + 1) =~= seq![code[p]]);
        assert(code.subrange(p, p) =~= empty);
        lemma_metered_from_tail(code, w, data, p, p + 1);
        lemma_metered_from_tail(code, w, data, start, p + 1);
        let dynamic = InjectionPoint {
            cost_detail: InjectionPointCostDetail::DynamicCost,
            position: p as usize,
        };
        let has_static = slot.block is Some && slot.block->0.closed;
        if slot.dynamic {
            assert(here[0] == dynamic);
            assert((here + rest).first() == dynamic);
            assert(metering_code(dynamic, data) =~= seq![charging_call(data)]);
            if has_static {
                let point = static_point(w, p);
                assert(here =~= seq![dynamic, point]);
                let after = seq![point] + rest;
                assert((here + rest).drop_first() =~= after);
                assert(after.first() == point);
                assert(after.drop_first() =~= rest);
                if is_metered(point) {
                    assert(metered_from(code, after, data, p) =~= metering_code(point, data)
                        + (seq![code[p]] + tail));
                } else {
                    assert(static_code_before(w, data, p) =~= empty);
                    assert(metered_from(code, after, data, p) =~= seq![code[p]] + tail);
                }
            } else {
                assert(here =~= seq![dynamic]);
                assert((here + rest).drop_first() =~= rest);
                assert(static_code_before(w, data, p) =~= empty);
            }
            assert(metered_from(code, here + rest, data, start) =~= code.subrange(start, p)
                + metered_tail(code, w, data, p));
        } else if has_static {
            let point = static_point(w, p);
            assert(here =~= seq![point]);
            assert((here + rest).first() == point);
            assert((here + rest).drop_first() =~= rest);
            assert(dynamic_code_before(w, data, p) =~= empty);
            if !is_metered(point) {
                assert(static_code_before(w, data, p) =~= empty);
            }
            assert(metered_from(code, here + rest, data, start) =~= code.subrange(start, p)
                + metered_tail(code, w, data, p));
        } else {
            assert(here =~= Seq::<InjectionPoint>::empty());
            assert(here + rest =~= rest);
            assert(code_before(w, data, p) =~= empty);
            assert(code.subrange(start, p) + metered_tail(code, w, data, p) =~= code.subrange(
                start,
                p + 1,
            ) + tail);
        }
    }
}

/// Metered code is its instructions, each behind its metering code.
pub proof fn lemma_metered_is_tail(code: Seq<Instruction>, data: ExportModuleData)
    requires
        code.len() <= usize::MAX,
    ensures
        metered(code, data) == metered_tail(code, walk(code, code.len()), data, 0),
{
    let w = walk(code, code.len());
    lemma_walk_inv(code, code.len());
    lemma_points_below_from(w, code.len());
    lemma_metered_from_tail(code, w, data, 0, 0);
    assert(code.subrange(0, 0) + metered_tail(code, w, data, 0) =~= metered_tail(code, w, data, 0));
}

/// The machine as the dynamic cost of the instruction at `p`, if it has
/// one, is charged: the function that charges it is called.
pub open spec fn charged_at(w: Walk, data: ExportModuleData, p: int, s: Machine) -> Machine {
    if w.slots[p].dynamic {
        charged_dynamically(s, data.instructions_counter_ix)
    } else {
        s
    }
}

/// The machine as the block that starts at `p`, if one does, is entered:
/// the cost of the block is taken from the counter; at the start of a
/// reentrant block, `out_of_instructions` is called if the counter is then
/// below zero. A block of no cost that is not reentrant is entered without
/// any of this.
pub open spec fn block_entered(w: Walk, data: ExportModuleData, p: int, s: Machine) -> Machine {
    if is_charged_at(w, p) {
        metered_machine(static_point(w, p), data, s)
    } else {
        s
    }
}

/// The machine as it comes to the instruction at `p`: the dynamic cost of
/// the instruction is charged, if it has one, and the block that starts
/// there is entered, if one does.
pub open spec fn entered(w: Walk, data: ExportModuleData, p: int, s: Machine) -> Machine {
    block_entered(w, data, p, charged_at(w, data, p, s))
}

/// Whether the machine knows the function that charges a dynamic cost, and
/// the counter: those that the metering code uses.
pub open spec fn knows_charging(s: Machine, data: ExportModuleData) -> bool {
    &&& s.charging == Some(
        Charging {
            function: data.decr_instruction_counter_fn,
            counter: data.instructions_counter_ix,
        },
    )
    &&& data.decr_instruction_counter_fn != InjectedImports::OutOfInstructions.spec_index()
    &&& data.decr_instruction_counter_fn != InjectedImports::UpdateAvailableMemory.spec_index()
}

/// Whether the code neither sets the counter nor calls the function that
/// charges a dynamic cost.
pub open spec fn leaves_account_alone(code: Seq<Instruction>, data: ExportModuleData) -> bool {
    forall|k: int|
        0 <= k < code.len() ==> #[trigger] code[k] != (Instruction::GlobalSet {
            global_index: data.instructions_counter_ix,
        }) && code[k] != charging_call(data)
}

proof fn lemma_tail_is_suffix(
    code: Seq<Instruction>,
    w: Walk,
    data: ExportModuleData,
    p: int,
    e: int,
)
    requires
        0 <= p <= e <= code.len(),
    ensures
        metered_tail(code, w, data, e).len() <= metered_tail(code, w, data, p).len(),
        metered_tail(code, w, data, p) == metered_tail(code, w, data, p).take(
            metered_tail(code, w, data, p).len() - metered_tail(code, w, data, e).len(),
        ) + metered_tail(code, w, data, e),
    decreases e - p,
{
    let whole = metered_tail(code, w, data, p);
    let suffix = metered_tail(code, w, data, e);
    if p < e {
        lemma_tail_is_suffix(code, w, data, p + 1, e);
        let next = metered_tail(code, w, data, p + 1);
        let head = code_before(w, data, p) + seq![code[p]];
        assert(whole =~= head + next);
        assert(whole =~= whole.take(whole.len() - suffix.len()) + suffix);
    } else {
        assert(whole =~= whole.take(0) + suffix);
    }
}

proof fn lemma_step_keeps_counter(i: Instruction, s: Machine, counter: u32)
    requires
        has_counter(s, counter),
        i != (Instruction::GlobalSet { global_index: counter }),
    ensures
        has_counter(step(i, s), counter),
        step(i, s).charging == s.charging,
{
}

/// Metering code is closed: the search for the `end` or the `else` of a
/// block that is open around it goes through it, and goes on behind it as
/// it came.
proof fn lemma_metering_code_is_closed(
    point: InjectionPoint,
    data: ExportModuleData,
    b: Seq<Instruction>,
    depth: nat,
)
    requires
        point.cost_detail is StaticCost,
    ensures
        behind_matching_end(metering_code(point, data) + b, 0, depth) == metering_code(
            point,
            data,
        ).len() + behind_matching_end(b, 0, depth),
        behind_matching_else(metering_code(point, data) + b, 0, depth) == match behind_matching_else(
            b,
            0,
            depth,
        ) {
            Some(target) => Some(metering_code(point, data).len() + target),
            None => None,
        },
{
    let piece = metering_code(point, data);
    let whole = piece + b;
    lemma_matching_end_shifted(piece, b, 0, depth);
    lemma_matching_else_shifted(piece, b, 0, depth);
    assert(whole[0] == piece[0] && whole[1] == piece[1] && whole[2] == piece[2] && whole[3]
        == piece[3]);
    if point.cost_detail->scope == Scope::ReentrantBlockStart {
        assert(piece.len() == 10);
        assert(whole[4] == piece[4] && whole[5] == piece[5] && whole[6] == piece[6] && whole[7]
            == piece[7] && whole[8] == piece[8] && whole[9] == piece[9]);
        assert(behind_matching_end(whole, 0, depth) == behind_matching_end(whole, 10, depth)) by {
            reveal_with_fuel(behind_matching_end, 11);
        }
        assert(behind_matching_else(whole, 0, depth) == behind_matching_else(whole, 10, depth)) by {
            reveal_with_fuel(behind_matching_else, 11);
        }
    } else {
        assert(piece.len() == 4);
        assert(behind_matching_end(whole, 0, depth) == behind_matching_end(whole, 4, depth)) by {
            reveal_with_fuel(behind_matching_end, 5);
        }
        assert(behind_matching_else(whole, 0, depth) == behind_matching_else(whole, 4, depth)) by {
            reveal_with_fuel(behind_matching_else, 5);
        }
    }
}

/// The same for the metering code before the instruction at `p`, if there
/// is any.
proof fn lemma_code_before_is_closed(
    w: Walk,
    data: ExportModuleData,
    p: int,
    b: Seq<Instruction>,
    depth: nat,
)
    ensures
        behind_matching_end(code_before(w, data, p) + b, 0, depth) == code_before(w, data, p).len()
            + behind_matching_end(b, 0, depth),
        behind_matching_else(code_before(w, data, p) + b, 0, depth) == match behind_matching_else(
            b,
            0,
            depth,
        ) {
            Some(target) => Some(code_before(w, data, p).len() + target),
            None => None,
        },
{
    let dynamic = dynamic_code_before(w, data, p);
    let block = static_code_before(w, data, p);
    let rest = block + b;
    assert(code_before(w, data, p) + b =~= dynamic + rest);
    if block.len() > 0 {
        lemma_metering_code_is_closed(static_point(w, p), data, b, depth);
    } else {
        assert(rest =~= b);
    }
    if dynamic.len() > 0 {
        lemma_matching_end_shifted(dynamic, rest, 0, depth);
        lemma_matching_else_shifted(dynamic, rest, 0, depth);
        assert((dynamic + rest)[0] == charging_call(data));
    } else {
        assert(dynamic + rest =~= rest);
    }
}

/// The place in the metered code of the metering code before the
/// instruction at `t`; the end of the metered code for the end of the code.
pub open spec fn place(code: Seq<Instruction>, w: Walk, data: ExportModuleData, t: int) -> int {
    metered_tail(code, w, data, 0).len() - metered_tail(code, w, data, t).len()
}

/// The `end` of a block is found in the metered code where it has gone: the
/// search from the place of `q` ends behind the place of the `end` that the
/// search from `q` finds in the code.
proof fn lemma_matching_end_of_tail(
    code: Seq<Instruction>,
    w: Walk,
    data: ExportModuleData,
    q: int,
    depth: nat,
)
    requires
        0 <= q <= code.len(),
    ensures
        behind_matching_end(metered_tail(code, w, data, q), 0, depth) == metered_tail(
            code,
            w,
            data,
            q,
        ).len() - metered_tail(code, w, data, behind_matching_end(code, q, depth)).len(),
    decreases code.len() - q,
{
    let whole = metered_tail(code, w, data, q);
    if q < code.len() {
        let before = code_before(w, data, q);
        let next = metered_tail(code, w, data, q + 1);
        let rest = seq![code[q]] + next;
        assert(whole =~= before + rest);
        lemma_code_before_is_closed(w, data, q, rest, depth);
        assert(rest[0] == code[q]);
        lemma_matching_end_shifted(seq![code[q]], next, 0, depth + 1);
        lemma_matching_end_shifted(seq![code[q]], next, 0, depth);
        lemma_matching_end_of_tail(code, w, data, q + 1, depth + 1);
        lemma_matching_end_of_tail(code, w, data, q + 1, depth);
        lemma_matching_end_bounds(code, q + 1, depth + 1);
        lemma_matching_end_bounds(code, q + 1, depth);
        if depth > 0 {
            lemma_matching_end_shifted(seq![code[q]], next, 0, (depth - 1) as nat);
            lemma_matching_end_of_tail(code, w, data, q + 1, (depth - 1) as nat);
            lemma_matching_end_bounds(code, q + 1, (depth - 1) as nat);
        }
    }
}

/// The `else` of a conditional is found in the metered code where it has
/// gone.
proof fn lemma_matching_else_of_tail(
    code: Seq<Instruction>,
    w: Walk,
    data: ExportModuleData,
    q: int,
    depth: nat,
)
    requires
        0 <= q <= code.len(),
    ensures
        behind_matching_else(metered_tail(code, w, data, q), 0, depth) == match behind_matching_else(
            code,
            q,
            depth,
        ) {
            Some(target) => Some(
                metered_tail(code, w, data, q).len() - metered_tail(code, w, data, target).len(),
            ),
            None => None,
        },
    decreases code.len() - q,
{
    let whole = metered_tail(code, w, data, q);
    if q < code.len() {
        let before = code_before(w, data, q);
        let next = metered_tail(code, w, data, q + 1);
        let rest = seq![code[q]] + next;
        assert(whole =~= before + rest);
        lemma_code_before_is_closed(w, data, q, rest, depth);
        assert(rest[0] == code[q]);
        lemma_matching_else_shifted(seq![code[q]], next, 0, depth + 1);
        lemma_matching_else_shifted(seq![code[q]], next, 0, depth);
        lemma_matching_else_of_tail(code, w, data, q + 1, depth + 1);
        lemma_matching_else_of_tail(code, w, data, q + 1, depth);
        lemma_matching_else_bounds(code, q + 1, depth + 1);
        lemma_matching_else_bounds(code, q + 1, depth);
        if depth > 0 {
            lemma_matching_else_shifted(seq![code[q]], next, 0, (depth - 1) as nat);
            lemma_matching_else_of_tail(code, w, data, q + 1, (depth - 1) as nat);
            lemma_matching_else_bounds(code, q + 1, (depth - 1) as nat);
        }
    }
}

/// The place of an open block in the metered code.
pub open spec fn moved_label(
    code: Seq<Instruction>,
    w: Walk,
    data: ExportModuleData,
    label: Label,
) -> Label {
    Label { target: place(code, w, data, label.target), is_loop: label.is_loop }
}

/// The run of the metered code that stands for a run of the code: at the
/// place of the metering code before the instruction of the run, with the
/// open blocks at their places.
pub open spec fn moved(code: Seq<Instruction>, w: Walk, data: ExportModuleData, r: Run) -> Run {
    Run {
        pc: place(code, w, data, r.pc),
        labels: r.labels.map_values(|label: Label| moved_label(code, w, data, label)),
        machine: r.machine,
    }
}

/// Whether the run is at a place of the code, or at its end, and so are the
/// places where its open blocks go on.
pub open spec fn is_inside(code: Seq<Instruction>, r: Run) -> bool {
    &&& 0 <= r.pc <= code.len()
    &&& forall|j: int| 0 <= j < r.labels.len() ==> 0 <= (#[trigger] r.labels[j]).target <= code.len()
}

/// How many instructions of the metering code before the instruction at `p`
/// run on the machine `s`.
pub open spec fn metering_steps(w: Walk, data: ExportModuleData, p: int, s: Machine) -> nat {
    let dynamic: nat = if w.slots[p].dynamic {
        1
    } else {
        0
    };
    if is_charged_at(w, p) {
        dynamic + metering_steps_of(static_point(w, p), data, charged_at(w, data, p, s))
    } else {
        dynamic
    }
}

/// The run after the instruction at its place on the machine that keeps
/// account of the costs: the block that starts at the place, if one does,
/// is entered first.
pub open spec fn advance_accounting(
    code: Seq<Instruction>,
    w: Walk,
    data: ExportModuleData,
    r: Run,
) -> Run {
    advance(code, Run { machine: entered(w, data, r.pc, r.machine), ..r })
}

/// The run on the machine that keeps account of the costs after `steps`
/// more instructions, or as it is when it is over before that.
pub open spec fn finish_accounting(
    code: Seq<Instruction>,
    w: Walk,
    data: ExportModuleData,
    r: Run,
    steps: nat,
) -> Run
    decreases steps,
{
    if steps == 0 || is_over(code, r) {
        r
    } else {
        finish_accounting(code, w, data, advance_accounting(code, w, data, r), (steps - 1) as nat)
    }
}

/// The number of instructions of the metered code that stand for `steps`
/// instructions of the code from `r` on: each instruction, and what runs of
/// the metering code before it.
pub open spec fn metered_steps(
    code: Seq<Instruction>,
    w: Walk,
    data: ExportModuleData,
    r: Run,
    steps: nat,
) -> nat
    decreases steps,
{
    if steps == 0 || is_over(code, r) {
        0
    } else {
        metering_steps(w, data, r.pc, r.machine) + 1 + metered_steps(
            code,
            w,
            data,
            advance_accounting(code, w, data, r),
            (steps - 1) as nat,
        )
    }
}

proof fn lemma_place(code: Seq<Instruction>, w: Walk, data: ExportModuleData, t: int)
    requires
        0 <= t <= code.len(),
    ensures
        0 <= place(code, w, data, t) <= metered_tail(code, w, data, 0).len(),
        metered_tail(code, w, data, 0) == metered_tail(code, w, data, 0).take(
            place(code, w, data, t),
        ) + metered_tail(code, w, data, t),
        t < code.len() ==> {
            &&& stands_at(
                metered_tail(code, w, data, 0),
                place(code, w, data, t),
                code_before(w, data, t),
            )
            &&& place(code, w, data, t) + code_before(w, data, t).len() < metered_tail(
                code,
                w,
                data,
                0,
            ).len()
            &&& metered_tail(code, w, data, 0)[place(code, w, data, t) + code_before(
                w,
                data,
                t,
            ).len()] == code[t]
            &&& place(code, w, data, t + 1) == place(code, w, data, t) + code_before(
                w,
                data,
                t,
            ).len() + 1
        },
        t == code.len() ==> place(code, w, data, t) == metered_tail(code, w, data, 0).len(),
{
    lemma_tail_is_suffix(code, w, data, 0, t);
    if t < code.len() {
        let whole = metered_tail(code, w, data, 0);
        let tail = metered_tail(code, w, data, t);
        let before = code_before(w, data, t);
        assert(tail =~= before + seq![code[t]] + metered_tail(code, w, data, t + 1));
        let at = place(code, w, data, t);
        assert forall|k: int| 0 <= k < before.len() implies whole[at + k] == #[trigger] before[k] by {
            assert(whole[at + k] == tail[k]);
        }
        assert(whole[at + before.len()] == tail[before.len() as int]);
    }
}

proof fn lemma_matching_in_metered(code: Seq<Instruction>, w: Walk, data: ExportModuleData, q: int)
    requires
        0 <= q <= code.len(),
    ensures
        behind_matching_end(metered_tail(code, w, data, 0), place(code, w, data, q), 0) == place(
            code,
            w,
            data,
            behind_matching_end(code, q, 0),
        ),
        behind_matching_else(metered_tail(code, w, data, 0), place(code, w, data, q), 0)
            == match behind_matching_else(code, q, 0) {
            Some(target) => Some(place(code, w, data, target)),
            None => None,
        },
        q <= behind_matching_end(code, q, 0) <= code.len(),
        behind_matching_else(code, q, 0) matches Some(target) ==> q < target <= code.len(),
{
    lemma_place(code, w, data, q);
    let whole = metered_tail(code, w, data, 0);
    let prefix = whole.take(place(code, w, data, q));
    let tail = metered_tail(code, w, data, q);
    lemma_matching_end_shifted(prefix, tail, 0, 0);
    lemma_matching_else_shifted(prefix, tail, 0, 0);
    lemma_matching_end_of_tail(code, w, data, q, 0);
    lemma_matching_else_of_tail(code, w, data, q, 0);
    lemma_matching_end_bounds(code, q, 0);
    lemma_matching_else_bounds(code, q, 0);
}

/// A branch in the metered code goes where the branch in the code goes.
proof fn lemma_branch(
    code: Seq<Instruction>,
    w: Walk,
    data: ExportModuleData,
    here: Run,
    mid: Run,
    depth: u32,
)
    requires
        is_inside(code, here),
        here.pc < code.len(),
        mid.pc + 1 == place(code, w, data, here.pc + 1),
        mid.labels == here.labels.map_values(|label: Label| moved_label(code, w, data, label)),
        mid.machine == here.machine,
    ensures
        branch(metered_tail(code, w, data, 0), mid, depth) == moved(
            code,
            w,
            data,
            branch(code, here, depth),
        ),
        is_inside(code, branch(code, here, depth)),
{
    let m = metered_tail(code, w, data, 0);
    let open = here.labels.len() as int;
    let after = branch(code, here, depth);
    lemma_place(code, w, data, code.len() as int);
    if depth < open {
        let label = here.labels[open - 1 - depth];
        assert(mid.labels[open - 1 - depth] == moved_label(code, w, data, label));
    }
    assert(branch(m, mid, depth).labels =~= moved(code, w, data, after).labels);
    assert forall|j: int| 0 <= j < after.labels.len() implies 0 <= (
    #[trigger] after.labels[j]).target <= code.len() by {
        assert(after.labels[j] == here.labels[j]);
    }
}

/// An instruction in the metered code does what it does in the code, with
/// the places of the code for those of the metered code.
#[verifier::rlimit(30)]
proof fn lemma_instruction(
    code: Seq<Instruction>,
    w: Walk,
    data: ExportModuleData,
    here: Run,
    mid: Run,
)
    requires
        is_inside(code, here),
        !is_over(code, here),
        mid.pc == place(code, w, data, here.pc) + code_before(w, data, here.pc).len(),
        mid.labels == here.labels.map_values(|label: Label| moved_label(code, w, data, label)),
        mid.machine == here.machine,
    ensures
        advance(metered_tail(code, w, data, 0), mid) == moved(code, w, data, advance(code, here)),
        is_inside(code, advance(code, here)),
{
    let m = metered_tail(code, w, data, 0);
    let p = here.pc;
    let s = here.machine;
    let after = advance(code, here);
    let open = here.labels.len() as int;
    lemma_place(code, w, data, p);
    lemma_place(code, w, data, p + 1);
    lemma_place(code, w, data, code.len() as int);
    lemma_matching_in_metered(code, w, data, p + 1);
    assert(m[mid.pc] == code[p]);
    assert(mid.pc + 1 == place(code, w, data, p + 1));
    match code[p] {
        Instruction::Block { .. } => {
            assert(advance(m, mid).labels =~= moved(code, w, data, after).labels);
            assert forall|j: int| 0 <= j < after.labels.len() implies 0 <= (
            #[trigger] after.labels[j]).target <= code.len() by {
                if j < open {
                    assert(after.labels[j] == here.labels[j]);
                }
            }
        },
        Instruction::Loop { .. } => {
            assert(advance(m, mid).labels =~= moved(code, w, data, after).labels);
            assert forall|j: int| 0 <= j < after.labels.len() implies 0 <= (
            #[trigger] after.labels[j]).target <= code.len() by {
                if j < open {
                    assert(after.labels[j] == here.labels[j]);
                }
            }
        },
        Instruction::If { .. } => {
            assert(advance(m, mid).labels =~= moved(code, w, data, after).labels);
            assert forall|j: int| 0 <= j < after.labels.len() implies 0 <= (
            #[trigger] after.labels[j]).target <= code.len() by {
                if j < open {
                    assert(after.labels[j] == here.labels[j]);
                }
            }
        },
        Instruction::Else => {
            if open >= 1 {
                assert(mid.labels.last() == moved_label(code, w, data, here.labels.last()));
            }
            assert(advance(m, mid).labels =~= moved(code, w, data, after).labels);
            assert forall|j: int| 0 <= j < after.labels.len() implies 0 <= (
            #[trigger] after.labels[j]).target <= code.len() by {
                assert(after.labels[j] == here.labels[j]);
            }
        },
        Instruction::End => {
            assert(advance(m, mid).labels =~= moved(code, w, data, after).labels);
            assert forall|j: int| 0 <= j < after.labels.len() implies 0 <= (
            #[trigger] after.labels[j]).target <= code.len() by {
                assert(after.labels[j] == here.labels[j]);
            }
        },
        Instruction::Br { relative_depth } => {
            lemma_branch(code, w, data, here, mid, relative_depth);
        },
        Instruction::BrIf { relative_depth } => {
            if s.stack.len() >= 1 && s.stack.last() is I32 {
                let rest = Machine { stack: s.stack.drop_last(), ..s };
                lemma_branch(
                    code,
                    w,
                    data,
                    Run { machine: rest, ..here },
                    Run { machine: rest, ..mid },
                    relative_depth,
                );
            }
        },
        _ => {},
    }
}

/// One instruction of the code on the machine that keeps account of the
/// costs is, in the metered code, what runs of the metering code before the
/// instruction, and the instruction.
proof fn lemma_one_step(code: Seq<Instruction>, w: Walk, data: ExportModuleData, r: Run)
    requires
        w.slots.len() == code.len(),
        is_inside(code, r),
        !is_over(code, r),
        has_counter(r.machine, data.instructions_counter_ix),
        knows_charging(r.machine, data),
        leaves_account_alone(code, data),
    ensures
        finish(
            metered_tail(code, w, data, 0),
            moved(code, w, data, r),
            metering_steps(w, data, r.pc, r.machine) + 1,
        ) == moved(code, w, data, advance_accounting(code, w, data, r)),
        is_inside(code, advance_accounting(code, w, data, r)),
        has_counter(advance_accounting(code, w, data, r).machine, data.instructions_counter_ix),
        knows_charging(advance_accounting(code, w, data, r).machine, data),
{
    let counter = data.instructions_counter_ix;
    let m = metered_tail(code, w, data, 0);
    let p = r.pc;
    let s = r.machine;
    let s0 = charged_at(w, data, p, s);
    let s1 = entered(w, data, p, s);
    let k = metering_steps(w, data, p, s);
    let dynamic = dynamic_code_before(w, data, p);
    let block = static_code_before(w, data, p);
    let before = code_before(w, data, p);
    let labels = r.labels.map_values(|label: Label| moved_label(code, w, data, label));
    let at = place(code, w, data, p);
    lemma_place(code, w, data, p);
    let start = moved(code, w, data, r);
    let behind_call = Run { pc: at + dynamic.len(), labels, machine: s0 };
    let mid = Run { pc: at + before.len(), labels, machine: s1 };
    assert(has_counter(s0, counter) && !s0.stuck && knows_charging(s0, data));
    assert(finish(m, start, dynamic.len()) == behind_call) by {
        if dynamic.len() > 0 {
            assert(m[at] == before[0]);
            assert(advance(m, start) == behind_call);
            reveal_with_fuel(finish, 2);
        }
    }
    assert(finish(m, behind_call, (k - dynamic.len()) as nat) == mid) by {
        if block.len() > 0 {
            let point = static_point(w, p);
            assert forall|j: int| 0 <= j < block.len() implies m[at + dynamic.len() + j]
                == #[trigger] block[j] by {
                assert(before[dynamic.len() + j] == block[j]);
            }
            lemma_metering_code_advances(m, at + dynamic.len(), point, data, labels, s0);
        }
    }
    lemma_finish_in_two(m, start, dynamic.len(), (k - dynamic.len()) as nat);
    assert(has_counter(s1, counter) && !s1.stuck && knows_charging(s1, data));
    assert(finish(m, mid, 1) == advance(m, mid)) by {
        reveal_with_fuel(finish, 2);
    }
    lemma_finish_in_two(m, start, k, 1);
    let here = Run { machine: s1, ..r };
    lemma_instruction(code, w, data, here, mid);
    lemma_advance_keeps_counter(code, here, data);
}

/// No instruction but one that sets the counter takes the counter from the
/// machine, and none makes it forget the function that charges a dynamic
/// cost.
proof fn lemma_advance_keeps_counter(code: Seq<Instruction>, r: Run, data: ExportModuleData)
    requires
        0 <= r.pc < code.len(),
        has_counter(r.machine, data.instructions_counter_ix),
        knows_charging(r.machine, data),
        leaves_account_alone(code, data),
    ensures
        has_counter(advance(code, r).machine, data.instructions_counter_ix),
        knows_charging(advance(code, r).machine, data),
{
    let i = code[r.pc];
    lemma_step_keeps_counter(i, r.machine, data.instructions_counter_ix);
}

/// Metered code that neither sets the counter nor calls the function that
/// charges a dynamic cost runs as the code that it was made from runs on the
/// machine that keeps account of the costs: the run of `steps` instructions
/// of the code on that machine and the run of the instructions of the
/// metered code that stand for them end in the same machine, at the same
/// place of the code, with the same blocks open.
pub proof fn lemma_metered_runs_with_account(
    code: Seq<Instruction>,
    data: ExportModuleData,
    r: Run,
    steps: nat,
)
    requires
        code.len() <= usize::MAX,
        leaves_account_alone(code, data),
        is_inside(code, r),
        has_counter(r.machine, data.instructions_counter_ix),
        knows_charging(r.machine, data),
    ensures
        ({
            let w = walk(code, code.len());
            &&& finish(
                metered(code, data),
                moved(code, w, data, r),
                metered_steps(code, w, data, r, steps),
            ) == moved(code, w, data, finish_accounting(code, w, data, r, steps))
            &&& is_inside(code, finish_accounting(code, w, data, r, steps))
        }),
    decreases steps,
{
    let w = walk(code, code.len());
    lemma_walk_inv(code, code.len());
    lemma_metered_is_tail(code, data);
    if steps > 0 && !is_over(code, r) {
        let next = advance_accounting(code, w, data, r);
        lemma_one_step(code, w, data, r);
        lemma_metered_runs_with_account(code, data, next, (steps - 1) as nat);
        lemma_finish_in_two(
            metered(code, data),
            moved(code, w, data, r),
            metering_steps(w, data, r.pc, r.machine) + 1,
            metered_steps(code, w, data, next, (steps - 1) as nat),
        );
    }
}

/// The run of a function body from its first instruction on the machine
/// `s`.
pub open spec fn from_start(s: Machine) -> Run {
    Run { pc: 0, labels: Seq::empty(), machine: s }
}

/// A metered function body keeps exact account of the costs, on every path
/// through it, whatever its blocks, loops, conditionals and branches are:
/// when the body is run on a machine that keeps account of the costs, which
/// charges the dynamic cost of an instruction before the instruction, takes
/// the cost of a block from the counter whenever the block is entered, and
/// tests the counter whenever a reentrant block is entered, and the metered
/// body is run on a machine that does not, the machine of the second is the
/// machine of the first; and when the first run is over, the second is
/// over.
///
/// This is shown of function bodies that neither set the counter nor call
/// the function that charges a dynamic cost.
pub proof fn lemma_metered_function_keeps_account(
    code: Seq<Instruction>,
    data: ExportModuleData,
    s: Machine,
    steps: nat,
)
    requires
        code.len() <= usize::MAX,
        leaves_account_alone(code, data),
        has_counter(s, data.instructions_counter_ix),
        knows_charging(s, data),
    ensures
        ({
            let w = walk(code, code.len());
            let account = finish_accounting(code, w, data, from_start(s), steps);
            let run = finish(
                metered(code, data),
                from_start(s),
                metered_steps(code, w, data, from_start(s), steps),
            );
            &&& run.machine == account.machine
            &&& is_over(code, account) ==> is_over(metered(code, data), run)
        }),
{
    let w = walk(code, code.len());
    lemma_metered_is_tail(code, data);
    lemma_metered_runs_with_account(code, data, from_start(s), steps);
    lemma_place(code, w, data, 0);
    assert(moved(code, w, data, from_start(s)).labels =~= from_start(s).labels);
    assert(moved(code, w, data, from_start(s)) == from_start(s));
    let account = finish_accounting(code, w, data, from_start(s), steps);
    if account.pc == code.len() {
        lemma_place(code, w, data, code.len() as int);
    }
}

/// The cost that is taken from the counter when the run comes to `p` on the
/// machine `s`: the dynamic cost of the instruction there, which is on top
/// of the stack, if it has one, and the cost of the block that starts
/// there, if one does.
pub open spec fn entry_cost(w: Walk, p: int, s: Machine) -> nat {
    let dynamic = if w.slots[p].dynamic && s.stack.len() >= 1 && s.stack.last() is I32 {
        s.stack.last()->I32_0 as nat
    } else {
        0
    };
    let block = if is_charged_at(w, p) {
        w.slots[p].block->0.cost as nat
    } else {
        0
    };
    dynamic + block
}

/// The costs that are charged in `steps` instructions of the run.
pub open spec fn costs_entered(
    code: Seq<Instruction>,
    w: Walk,
    data: ExportModuleData,
    r: Run,
    steps: nat,
) -> nat
    decreases steps,
{
    if steps == 0 || is_over(code, r) {
        0
    } else {
        entry_cost(w, r.pc, r.machine) + costs_entered(
            code,
            w,
            data,
            advance_accounting(code, w, data, r),
            (steps - 1) as nat,
        )
    }
}

proof fn lemma_advance_leaves_counter(code: Seq<Instruction>, r: Run, data: ExportModuleData)
    requires
        0 <= r.pc < code.len(),
        has_counter(r.machine, data.instructions_counter_ix),
        knows_charging(r.machine, data),
        leaves_account_alone(code, data),
    ensures
        advance(code, r).machine.globals[data.instructions_counter_ix]
            == r.machine.globals[data.instructions_counter_ix],
        has_counter(advance(code, r).machine, data.instructions_counter_ix),
        knows_charging(advance(code, r).machine, data),
{
    let i = code[r.pc];
    lemma_step_keeps_counter(i, r.machine, data.instructions_counter_ix);
}

/// The account is exact: on the machine that keeps account of the costs,
/// the counter is lower, after any number of instructions of code that
/// leaves the account alone, by the sum of the dynamic costs of the
/// instructions that were run and of the costs of the blocks that were
/// entered, as long as that does not take it out of the range of `i64`.
pub proof fn lemma_account_is_exact(
    code: Seq<Instruction>,
    w: Walk,
    data: ExportModuleData,
    r: Run,
    steps: nat,
)
    requires
        leaves_account_alone(code, data),
        has_counter(r.machine, data.instructions_counter_ix),
        knows_charging(r.machine, data),
        forall|p: int|
            0 <= p < code.len() ==> ((#[trigger] w.slots[p]).block matches Some(b) ==> b.cost
                <= i64::MAX),
        r.machine.globals[data.instructions_counter_ix]->I64_0 - costs_entered(
            code,
            w,
            data,
            r,
            steps,
        ) >= i64::MIN,
    ensures
        has_counter(
            finish_accounting(code, w, data, r, steps).machine,
            data.instructions_counter_ix,
        ),
        finish_accounting(
            code,
            w,
            data,
            r,
            steps,
        ).machine.globals[data.instructions_counter_ix]->I64_0
            == r.machine.globals[data.instructions_counter_ix]->I64_0 - costs_entered(
            code,
            w,
            data,
            r,
            steps,
        ),
    decreases steps,
{
    let counter = data.instructions_counter_ix;
    if steps > 0 && !is_over(code, r) {
        let _ = w.slots[r.pc];
        let s0 = charged_at(w, data, r.pc, r.machine);
        let s1 = entered(w, data, r.pc, r.machine);
        assert(has_counter(s0, counter) && knows_charging(s0, data));
        assert(has_counter(s1, counter) && knows_charging(s1, data));
        assert(s1.globals[counter]->I64_0 == r.machine.globals[counter]->I64_0 - entry_cost(
            w,
            r.pc,
            r.machine,
        ));
        lemma_advance_leaves_counter(code, Run { machine: s1, ..r }, data);
        lemma_account_is_exact(
            code,
            w,
            data,
            advance_accounting(code, w, data, r),
            (steps - 1) as nat,
        );
    }
}

/// Whether the code neither reads nor sets the counter nor calls the
/// function that charges a dynamic cost.
pub open spec fn ignores_account(code: Seq<Instruction>, data: ExportModuleData) -> bool {
    forall|k: int|
        0 <= k < code.len() ==> #[trigger] code[k] != (Instruction::GlobalSet {
            global_index: data.instructions_counter_ix,
        }) && code[k] != (Instruction::GlobalGet { global_index: data.instructions_counter_ix })
            && code[k] != charging_call(data)
}

/// The calls of host functions without those of `out_of_instructions`.
pub open spec fn calls_but_traps(calls: Seq<u32>) -> Seq<u32>
    decreases calls.len(),
{
    if calls.len() == 0 {
        Seq::empty()
    } else if calls.last() == InjectedImports::OutOfInstructions.spec_index() {
        calls_but_traps(calls.drop_last())
    } else {
        calls_but_traps(calls.drop_last()).push(calls.last())
    }
}

/// Whether two machines are the same but for the account of the costs: the
/// value of the global `counter` and the calls of `out_of_instructions`.
pub open spec fn alike_but_account(a: Machine, b: Machine, counter: u32) -> bool {
    &&& a.stack == b.stack
    &&& a.locals == b.locals
    &&& a.memories == b.memories
    &&& a.heap_pages == b.heap_pages
    &&& a.heap_limit == b.heap_limit
    &&& a.update_available_memory == b.update_available_memory
    &&& a.charging == b.charging
    &&& a.stuck == b.stuck
    &&& a.globals.remove(counter) == b.globals.remove(counter)
    &&& calls_but_traps(a.calls) == calls_but_traps(b.calls)
}

proof fn lemma_globals_alike(a: Machine, b: Machine, counter: u32, g: u32)
    requires
        a.globals.remove(counter) == b.globals.remove(counter),
        g != counter,
    ensures
        a.globals.contains_key(g) == b.globals.contains_key(g),
        a.globals.contains_key(g) ==> a.globals[g] == b.globals[g],
{
    assert(a.globals.remove(counter).contains_key(g) == a.globals.contains_key(g));
    assert(b.globals.remove(counter).contains_key(g) == b.globals.contains_key(g));
    if a.globals.contains_key(g) {
        assert(a.globals.remove(counter)[g] == a.globals[g]);
        assert(b.globals.remove(counter)[g] == b.globals[g]);
    }
}

proof fn lemma_step_alike(i: Instruction, a: Machine, b: Machine, data: ExportModuleData)
    requires
        alike_but_account(a, b, data.instructions_counter_ix),
        knows_charging(a, data),
        i != (Instruction::GlobalSet { global_index: data.instructions_counter_ix }),
        i != (Instruction::GlobalGet { global_index: data.instructions_counter_ix }),
        i != charging_call(data),
    ensures
        alike_but_account(step(i, a), step(i, b), data.instructions_counter_ix),
        knows_charging(step(i, a), data),
{
    let counter = data.instructions_counter_ix;
    let x = step(i, a);
    let y = step(i, b);
    match i {
        Instruction::GlobalGet { global_index } => {
            lemma_globals_alike(a, b, counter, global_index);
        },
        Instruction::GlobalSet { global_index } => {
            assert(x.globals.remove(counter) =~= y.globals.remove(counter)) by {
                if a.stack.len() >= 1 {
                    assert(x.globals.remove(counter) =~= a.globals.remove(counter).insert(
                        global_index,
                        a.stack.last(),
                    ));
                    assert(y.globals.remove(counter) =~= b.globals.remove(counter).insert(
                        global_index,
                        b.stack.last(),
                    ));
                }
            }
        },
        Instruction::Call { function_index } => {
            if x.calls != a.calls {
                assert(x.calls.drop_last() =~= a.calls);
                assert(y.calls.drop_last() =~= b.calls);
            }
        },
        Instruction::MemoryCopy { .. } => {
            assert(x.memories =~= y.memories);
        },
        _ => {},
    }
}

proof fn lemma_entered_alike(w: Walk, data: ExportModuleData, p: int, s: Machine)
    ensures
        alike_but_account(entered(w, data, p, s), s, data.instructions_counter_ix),
        entered(w, data, p, s).charging == s.charging,
{
    let counter = data.instructions_counter_ix;
    let s0 = charged_at(w, data, p, s);
    let t = entered(w, data, p, s);
    assert(s0.globals.remove(counter) =~= s.globals.remove(counter));
    assert(t.globals.remove(counter) =~= s0.globals.remove(counter));
    if s0.calls != s.calls {
        assert(s0.calls.drop_last() =~= s.calls);
    }
    assert(calls_but_traps(s0.calls) == calls_but_traps(s.calls));
    if t.calls != s0.calls {
        assert(t.calls.drop_last() =~= s0.calls);
    }
    assert(calls_but_traps(t.calls) == calls_but_traps(s0.calls));
}

/// The account of the costs changes nothing else: code that neither reads
/// nor sets the counter nor calls the function that charges a dynamic cost
/// runs on the machine that keeps account of the costs as it runs on the
/// machine that does not. After any number of instructions the two runs are
/// at the same place, with the same blocks open, on machines that are the
/// same but for the counter and the calls of `out_of_instructions`.
pub proof fn lemma_account_changes_nothing_else(
    code: Seq<Instruction>,
    w: Walk,
    data: ExportModuleData,
    a: Run,
    b: Run,
    steps: nat,
)
    requires
        ignores_account(code, data),
        knows_charging(a.machine, data),
        a.pc == b.pc,
        a.labels == b.labels,
        alike_but_account(a.machine, b.machine, data.instructions_counter_ix),
    ensures
        finish_accounting(code, w, data, a, steps).pc == finish(code, b, steps).pc,
        finish_accounting(code, w, data, a, steps).labels == finish(code, b, steps).labels,
        alike_but_account(
            finish_accounting(code, w, data, a, steps).machine,
            finish(code, b, steps).machine,
            data.instructions_counter_ix,
        ),
    decreases steps,
{
    let counter = data.instructions_counter_ix;
    if steps > 0 && !is_over(code, a) {
        let entered_a = Run { machine: entered(w, data, a.pc, a.machine), ..a };
        lemma_entered_alike(w, data, a.pc, a.machine);
        let x = advance(code, entered_a);
        let y = advance(code, b);
        assert(x.pc == y.pc && x.labels == y.labels && alike_but_account(
            x.machine,
            y.machine,
            counter,
        ) && knows_charging(x.machine, data)) by {
            let i = code[a.pc];
            lemma_step_alike(i, entered_a.machine, b.machine, data);
        }
        lemma_account_changes_nothing_else(code, w, data, x, y, (steps - 1) as nat);
    }
}

} // verus!
