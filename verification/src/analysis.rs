//! The cost analysis: where in a function body metering code has to go, and
//! how much each basic block costs.

use crate::model::Instruction;
use vstd::prelude::*;

verus! {

/// What kind of place a static injection point marks.
#[derive(Clone, Copy, Debug, PartialEq, Eq, Structural)]
pub enum Scope {
    /// The start of a block that may run more than once: the function body or
    /// a loop body.
    ReentrantBlockStart,
    /// The start of the body of a `block` or an `if`.
    NonReentrantBlockStart,
    /// The code that follows an `else` or a branch.
    BlockEnd,
}

/// How the cost at an injection point is found.
#[derive(Clone, Copy, Debug, PartialEq, Eq, Structural)]
pub enum InjectionPointCostDetail {
    /// The cost of the basic block that starts here.
    StaticCost { scope: Scope, cost: u64 },
    /// The cost is the `i32` on top of the stack when the point is reached.
    DynamicCost,
}

impl InjectionPointCostDetail {
    /// Adds to a static cost; a dynamic cost stays as it is.
    pub fn increment_cost(&mut self, additional_cost: u64)
        requires
            *old(self) matches InjectionPointCostDetail::StaticCost { cost, .. } ==> cost
                + additional_cost <= u64::MAX,
        ensures
            *final(self) == old(self).incremented(additional_cost),
    {
        match *self {
            InjectionPointCostDetail::StaticCost { scope, cost } => {
                *self = InjectionPointCostDetail::StaticCost { scope, cost: cost + additional_cost };
            },
            InjectionPointCostDetail::DynamicCost => {},
        }
    }

    /// The cost detail with `additional_cost` added to a static cost.
    pub open spec fn incremented(self, additional_cost: u64) -> InjectionPointCostDetail {
        match self {
            InjectionPointCostDetail::StaticCost { scope, cost } => {
                InjectionPointCostDetail::StaticCost {
                    scope,
                    cost: (cost + additional_cost) as u64,
                }
            },
            InjectionPointCostDetail::DynamicCost => InjectionPointCostDetail::DynamicCost,
        }
    }
}

/// A place in a function body before which metering code is inserted.
#[derive(Clone, Copy, Debug, PartialEq, Eq, Structural)]
pub struct InjectionPoint {
    pub cost_detail: InjectionPointCostDetail,
    pub position: usize,
}

impl InjectionPoint {
    /// A static injection point at `position` that costs nothing yet.
    pub fn new_static_cost(position: usize, scope: Scope) -> (point: InjectionPoint)
        ensures
            point == (InjectionPoint {
                cost_detail: InjectionPointCostDetail::StaticCost { scope, cost: 0 },
                position,
            }),
    {
        InjectionPoint {
            cost_detail: InjectionPointCostDetail::StaticCost { scope, cost: 0 },
            position,
        }
    }

    /// A dynamic injection point at `position`.
    pub fn new_dynamic_cost(position: usize) -> (point: InjectionPoint)
        ensures
            point == (InjectionPoint {
                cost_detail: InjectionPointCostDetail::DynamicCost,
                position,
            }),
    {
        InjectionPoint { cost_detail: InjectionPointCostDetail::DynamicCost, position }
    }
}

/// The cost of one instruction: nothing for those that only mark the
/// structure of the code, one for every other.
pub open spec fn instruction_cost(i: Instruction) -> u64 {
    match i {
        Instruction::Block { .. } => 0,
        Instruction::Else => 0,
        Instruction::End => 0,
        Instruction::Loop { .. } => 0,
        _ => 1,
    }
}

/// Gets the cost of an instruction.
pub fn instruction_to_cost(i: &Instruction) -> (cost: u64)
    ensures
        cost == instruction_cost(*i),
{
    match i {
        Instruction::Block { .. } => 0,
        Instruction::Else => 0,
        Instruction::End => 0,
        Instruction::Loop { .. } => 0,
        _ => 1,
    }
}

/// The bulk instructions, whose cost is the length that they find on the
/// stack.
pub open spec fn is_bulk(i: Instruction) -> bool {
    match i {
        Instruction::MemoryFill { .. } => true,
        Instruction::MemoryCopy { .. } => true,
        Instruction::MemoryInit { .. } => true,
        Instruction::TableCopy { .. } => true,
        Instruction::TableInit { .. } => true,
        _ => false,
    }
}

/// The instructions after which a new basic block starts inside the same
/// nesting level.
pub open spec fn ends_block(i: Instruction) -> bool {
    match i {
        Instruction::Else => true,
        Instruction::Br { .. } => true,
        Instruction::BrIf { .. } => true,
        Instruction::BrTable { .. } => true,
        _ => false,
    }
}

/// The cost of the basic block that starts at some position.
#[derive(Clone, Copy, Debug, PartialEq, Eq)]
pub struct BlockCost {
    pub scope: Scope,
    /// The cost of the instructions charged to the block so far.
    pub cost: u64,
    /// Whether the end of the block has been seen.
    pub closed: bool,
}

/// What the analysis knows about one position of the code.
#[derive(Clone, Copy, Debug, PartialEq, Eq)]
pub struct Slot {
    /// A bulk instruction stands here.
    pub dynamic: bool,
    /// A basic block starts here.
    pub block: Option<BlockCost>,
}

/// The state of the walk through a function body.
pub struct Walk {
    /// One slot for each position of the code.
    pub slots: Seq<Slot>,
    /// The starts of the blocks around the current one that are still open,
    /// the innermost last.
    pub enclosing: Seq<usize>,
    /// The start of the block that instructions are charged to.
    pub current: usize,
    /// The `end` of the function body has been passed.
    pub finished: bool,
}

/// Before the first instruction: the function body is a reentrant block that
/// starts at position zero.
pub open spec fn walk_start(len: nat) -> Walk {
    Walk {
        slots: Seq::new(
            len,
            |p: int|
                Slot {
                    dynamic: false,
                    block: if p == 0 {
                        Some(
                            BlockCost {
                                scope: Scope::ReentrantBlockStart,
                                cost: 0,
                                closed: false,
                            },
                        )
                    } else {
                        None
                    },
                },
        ),
        enclosing: Seq::empty(),
        current: 0,
        finished: false,
    }
}

/// Adds `cost` to the current block.
pub open spec fn charge(w: Walk, cost: u64) -> Walk {
    if w.current < w.slots.len() {
        let slot = w.slots[w.current as int];
        match slot.block {
            Some(b) => Walk {
                slots: w.slots.update(
                    w.current as int,
                    Slot {
                        dynamic: slot.dynamic,
                        block: Some(
                            BlockCost {
                                scope: b.scope,
                                cost: (b.cost + cost) as u64,
                                closed: b.closed,
                            },
                        ),
                    },
                ),
                ..w
            },
            None => w,
        }
    } else {
        w
    }
}

/// Marks the current block as ended.
pub open spec fn close_current(w: Walk) -> Walk {
    if w.current < w.slots.len() {
        let slot = w.slots[w.current as int];
        match slot.block {
            Some(b) => Walk {
                slots: w.slots.update(
                    w.current as int,
                    Slot {
                        dynamic: slot.dynamic,
                        block: Some(BlockCost { scope: b.scope, cost: b.cost, closed: true }),
                    },
                ),
                ..w
            },
            None => w,
        }
    } else {
        w
    }
}

/// Starts a block at `start` and makes it the current one. A block that would
/// start behind the last instruction is not recorded: nothing can be charged
/// to it.
pub open spec fn enter(w: Walk, start: usize, scope: Scope) -> Walk {
    Walk {
        slots: if start < w.slots.len() {
            w.slots.update(
                start as int,
                Slot {
                    dynamic: w.slots[start as int].dynamic,
                    block: Some(BlockCost { scope, cost: 0, closed: false }),
                },
            )
        } else {
            w.slots
        },
        current: start,
        ..w
    }
}

/// Sets the current block aside until the block that starts inside it ends.
pub open spec fn suspend_current(w: Walk) -> Walk {
    Walk { enclosing: w.enclosing.push(w.current), ..w }
}

/// Goes back to the innermost enclosing block; at the outermost level the
/// walk is over.
pub open spec fn leave(w: Walk) -> Walk {
    if w.enclosing.len() == 0 {
        Walk { finished: true, ..w }
    } else {
        Walk { current: w.enclosing.last(), enclosing: w.enclosing.drop_last(), ..w }
    }
}

/// Records that a bulk instruction stands at `position`.
pub open spec fn mark_dynamic(w: Walk, position: usize) -> Walk {
    if position < w.slots.len() {
        Walk {
            slots: w.slots.update(
                position as int,
                Slot { dynamic: true, block: w.slots[position as int].block },
            ),
            ..w
        }
    } else {
        w
    }
}

/// The effect of the instruction `i` at `position` on the walk.
///
/// Every instruction is charged to the current block, also the one that ends
/// it. A loop starts a reentrant block and a `block` or `if` one that is not,
/// both nested in the current block, which goes on behind their `end`. An
/// `else` or a branch ends the current block; the code behind it is a block
/// of its own.
pub open spec fn walk_step(w: Walk, position: usize, i: Instruction) -> Walk {
    if w.finished {
        w
    } else {
        let w = charge(w, instruction_cost(i));
        let next = (position + 1) as usize;
        match i {
            Instruction::Loop { .. } => enter(
                suspend_current(w),
                next,
                Scope::ReentrantBlockStart,
            ),
            Instruction::If { .. } => enter(
                suspend_current(w),
                next,
                Scope::NonReentrantBlockStart,
            ),
            Instruction::Block { .. } => enter(
                suspend_current(w),
                next,
                Scope::NonReentrantBlockStart,
            ),
            Instruction::End => leave(close_current(w)),
            _ => if ends_block(i) {
                enter(close_current(w), next, Scope::BlockEnd)
            } else if is_bulk(i) {
                mark_dynamic(w, position)
            } else {
                w
            },
        }
    }
}

/// The walk after the first `n` instructions of `code`.
pub open spec fn walk(code: Seq<Instruction>, n: nat) -> Walk
    decreases n,
{
    if n == 0 {
        walk_start(code.len())
    } else {
        walk_step(walk(code, (n - 1) as nat), (n - 1) as usize, code[n - 1])
    }
}

/// The injection points at position `p`: the dynamic one first, then the
/// static one of a block that starts there and has ended.
pub open spec fn points_at(w: Walk, p: int) -> Seq<InjectionPoint> {
    let slot = w.slots[p];
    let dynamic = if slot.dynamic {
        seq![
            InjectionPoint {
                cost_detail: InjectionPointCostDetail::DynamicCost,
                position: p as usize,
            },
        ]
    } else {
        Seq::empty()
    };
    match slot.block {
        Some(b) => if b.closed {
            dynamic.push(
                InjectionPoint {
                    cost_detail: InjectionPointCostDetail::StaticCost {
                        scope: b.scope,
                        cost: b.cost,
                    },
                    position: p as usize,
                },
            )
        } else {
            dynamic
        },
        None => dynamic,
    }
}

/// The injection points at the positions below `n`, in the order of their
/// positions.
pub open spec fn points_below(w: Walk, n: nat) -> Seq<InjectionPoint>
    decreases n,
{
    if n == 0 {
        Seq::empty()
    } else {
        points_below(w, (n - 1) as nat) + points_at(w, n - 1)
    }
}

/// The injection points of a function body, ordered by position.
pub open spec fn injection_points(code: Seq<Instruction>) -> Seq<InjectionPoint> {
    points_below(walk(code, code.len()), code.len())
}

/// What holds of the walk after `n` instructions of a body of `len`.
pub open spec fn walk_inv(w: Walk, len: nat, n: nat) -> bool {
    &&& w.slots.len() == len
    &&& w.current <= n
    &&& forall|p: int|
        0 <= p < len ==> ((#[trigger] w.slots[p]).block matches Some(b) ==> b.cost <= n)
    &&& forall|p: int| n <= p < len ==> !(#[trigger] w.slots[p]).dynamic
    &&& forall|p: int| n < p < len ==> (#[trigger] w.slots[p]).block is None
    &&& forall|j: int|
        0 <= j < w.enclosing.len() ==> {
            &&& (#[trigger] w.enclosing[j]) < w.current
            &&& w.slots[w.enclosing[j] as int].block matches Some(b) && !b.closed
        }
    &&& forall|j: int, k: int|
        0 <= j < k < w.enclosing.len() ==> w.enclosing[j] < w.enclosing[k]
    &&& (!w.finished && w.current < len) ==> (w.slots[w.current as int].block matches Some(b)
        && !b.closed)
}

/// The invariant holds after every number of instructions.
pub proof fn lemma_walk_inv(code: Seq<Instruction>, n: nat)
    requires
        n <= code.len(),
        code.len() <= usize::MAX,
    ensures
        walk_inv(walk(code, n), code.len(), n),
    decreases n,
{
    if n > 0 {
        lemma_walk_inv(code, (n - 1) as nat);
        let w0 = walk(code, (n - 1) as nat);
        let i = code[n - 1];
        if !w0.finished {
            let w1 = charge(w0, instruction_cost(i));
            assert(walk_inv(w1, code.len(), n));
        }
    }
}

/// Once the walk is over, further instructions change nothing.
pub proof fn lemma_walk_finished(code: Seq<Instruction>, n: nat, m: nat)
    requires
        n <= m,
        walk(code, n).finished,
    ensures
        walk(code, m) == walk(code, n),
    decreases m,
{
    if n < m {
        lemma_walk_finished(code, n, (m - 1) as nat);
    }
}

/// The cost of the instructions among the first `n` that the walk has
/// passed before it was over.
pub open spec fn walked_cost(code: Seq<Instruction>, n: nat) -> nat
    decreases n,
{
    if n == 0 {
        0
    } else if walk(code, (n - 1) as nat).finished {
        walked_cost(code, (n - 1) as nat)
    } else {
        walked_cost(code, (n - 1) as nat) + instruction_cost(code[n - 1]) as nat
    }
}

/// The cost that is charged to the block of a slot.
pub open spec fn slot_cost(slot: Slot) -> nat {
    match slot.block {
        Some(b) => b.cost as nat,
        None => 0,
    }
}

/// The cost that is charged to the blocks of the first `n` slots.
pub open spec fn slots_cost(slots: Seq<Slot>, n: nat) -> nat
    decreases n,
{
    if n == 0 {
        0
    } else {
        slots_cost(slots, (n - 1) as nat) + slot_cost(slots[n - 1])
    }
}

/// The sum of the static costs of the points.
pub open spec fn static_cost(points: Seq<InjectionPoint>) -> nat
    decreases points.len(),
{
    if points.len() == 0 {
        0
    } else {
        static_cost(points.drop_last()) + match points.last().cost_detail {
            InjectionPointCostDetail::StaticCost { cost, .. } => cost as nat,
            InjectionPointCostDetail::DynamicCost => 0nat,
        }
    }
}

proof fn lemma_slots_cost_update(slots: Seq<Slot>, n: nat, p: int, slot: Slot)
    requires
        n <= slots.len(),
        0 <= p < slots.len(),
    ensures
        slots_cost(slots.update(p, slot), n) == if p < n {
            slots_cost(slots, n) - slot_cost(slots[p]) + slot_cost(slot)
        } else {
            slots_cost(slots, n) as int
        },
    decreases n,
{
    if n > 0 {
        lemma_slots_cost_update(slots, (n - 1) as nat, p, slot);
    }
}

proof fn lemma_static_cost_concat(a: Seq<InjectionPoint>, b: Seq<InjectionPoint>)
    ensures
        static_cost(a + b) == static_cost(a) + static_cost(b),
    decreases b.len(),
{
    if b.len() == 0 {
        assert(a + b =~= a);
    } else {
        assert((a + b).drop_last() =~= a + b.drop_last());
        lemma_static_cost_concat(a, b.drop_last());
    }
}

/// Whether every block that has not ended is the current one or one of
/// those around it.
pub open spec fn open_blocks_are_known(w: Walk) -> bool {
    &&& w.finished ==> w.enclosing.len() == 0
    &&& forall|p: int|
        0 <= p < w.slots.len() && (#[trigger] w.slots[p]).block is Some && !w.slots[p].block->0.closed
            ==> (!w.finished && p == w.current) || w.enclosing.contains(p as usize)
}

proof fn lemma_walk_costs(code: Seq<Instruction>, n: nat)
    requires
        n <= code.len(),
        code.len() <= usize::MAX,
    ensures
        slots_cost(walk(code, n).slots, code.len()) == walked_cost(code, n),
        open_blocks_are_known(walk(code, n)),
    decreases n,
{
    let len = code.len();
    if n == 0 {
        let w = walk(code, 0);
        assert forall|k: nat| k <= len implies slots_cost(w.slots, k) == 0 by {
            lemma_start_costs_nothing(len, k);
        }
    } else {
        lemma_walk_costs(code, (n - 1) as nat);
        lemma_walk_inv(code, (n - 1) as nat);
        lemma_walk_inv(code, n);
        let w0 = walk(code, (n - 1) as nat);
        let i = code[n - 1];
        let position = (n - 1) as usize;
        let next = n as usize;
        if !w0.finished {
            let w1 = charge(w0, instruction_cost(i));
            let slot0 = w0.slots[w0.current as int];
            lemma_slots_cost_update(w0.slots, len, w0.current as int, w1.slots[w1.current as int]);
            assert(slots_cost(w1.slots, len) == walked_cost(code, n));
            assert(open_blocks_are_known(w1)) by {
                assert forall|p: int|
                    0 <= p < w1.slots.len() && (#[trigger] w1.slots[p]).block is Some
                        && !w1.slots[p].block->0.closed implies (!w1.finished && p == w1.current)
                    || w1.enclosing.contains(p as usize) by {
                    let _ = w0.slots[p];
                }
            }
            let w = walk(code, n);
            if i is Loop || i is If || i is Block {
                let w2 = suspend_current(w1);
                assert(w2.enclosing.last() == w1.current);
                if next < len {
                    lemma_slots_cost_update(w2.slots, len, next as int, w.slots[next as int]);
                    assert(w1.slots[next as int].block is None);
                }
                assert forall|p: int|
                    0 <= p < w.slots.len() && (#[trigger] w.slots[p]).block is Some
                        && !w.slots[p].block->0.closed implies (!w.finished && p == w.current)
                    || w.enclosing.contains(p as usize) by {
                    if p != next {
                        let _ = w1.slots[p];
                        if p == w1.current {
                            assert(w.enclosing[w.enclosing.len() - 1] == p as usize);
                        } else {
                            let j = choose|j: int|
                                0 <= j < w1.enclosing.len() && w1.enclosing[j] == p as usize;
                            assert(w.enclosing[j] == p as usize);
                        }
                    }
                }
            } else if i is End {
                let w2 = close_current(w1);
                lemma_slots_cost_update(w1.slots, len, w1.current as int, w2.slots[w1.current as int]);
                assert forall|p: int|
                    0 <= p < w.slots.len() && (#[trigger] w.slots[p]).block is Some
                        && !w.slots[p].block->0.closed implies (!w.finished && p == w.current)
                    || w.enclosing.contains(p as usize) by {
                    let _ = w1.slots[p];
                    assert(p != w1.current);
                    let j = choose|j: int|
                        0 <= j < w1.enclosing.len() && w1.enclosing[j] == p as usize;
                    if j < w1.enclosing.len() - 1 {
                        assert(w.enclosing[j] == p as usize);
                    }
                }
            } else if ends_block(i) {
                let w2 = close_current(w1);
                lemma_slots_cost_update(w1.slots, len, w1.current as int, w2.slots[w1.current as int]);
                if next < len {
                    lemma_slots_cost_update(w2.slots, len, next as int, w.slots[next as int]);
                    assert(w1.slots[next as int].block is None);
                }
                assert forall|p: int|
                    0 <= p < w.slots.len() && (#[trigger] w.slots[p]).block is Some
                        && !w.slots[p].block->0.closed implies (!w.finished && p == w.current)
                    || w.enclosing.contains(p as usize) by {
                    if p != next {
                        let _ = w1.slots[p];
                    }
                }
            } else if is_bulk(i) {
                lemma_slots_cost_update(w1.slots, len, position as int, w.slots[position as int]);
                assert forall|p: int|
                    0 <= p < w.slots.len() && (#[trigger] w.slots[p]).block is Some
                        && !w.slots[p].block->0.closed implies (!w.finished && p == w.current)
                    || w.enclosing.contains(p as usize) by {
                    let _ = w1.slots[p];
                }
            }
        }
    }
}

proof fn lemma_start_costs_nothing(len: nat, k: nat)
    requires
        k <= len,
    ensures
        slots_cost(walk_start(len).slots, k) == 0,
    decreases k,
{
    if k > 0 {
        lemma_start_costs_nothing(len, (k - 1) as nat);
    }
}

proof fn lemma_points_cost(w: Walk, n: nat)
    requires
        n <= w.slots.len(),
        forall|p: int|
            0 <= p < w.slots.len() && (#[trigger] w.slots[p]).block is Some
                ==> w.slots[p].block->0.closed,
    ensures
        static_cost(points_below(w, n)) == slots_cost(w.slots, n),
    decreases n,
{
    if n > 0 {
        lemma_points_cost(w, (n - 1) as nat);
        lemma_static_cost_concat(points_below(w, (n - 1) as nat), points_at(w, n - 1));
        let at = points_at(w, n - 1);
        let slot = w.slots[n - 1];
        assert(static_cost(at) == slot_cost(slot)) by {
            reveal_with_fuel(static_cost, 3);
            if at.len() == 2 {
                assert(at.drop_last().drop_last() =~= Seq::<InjectionPoint>::empty());
            } else if at.len() == 1 {
                assert(at.drop_last() =~= Seq::<InjectionPoint>::empty());
            }
        }
    }
}

/// In a function body that its last `end` closes, every instruction is paid
/// for once: the static costs of the injection points add up to the cost
/// of the instructions of the body.
pub proof fn lemma_costs_add_up(code: Seq<Instruction>)
    requires
        code.len() <= usize::MAX,
        walk(code, code.len()).finished,
    ensures
        static_cost(injection_points(code)) == walked_cost(code, code.len()),
{
    lemma_walk_costs(code, code.len());
    lemma_walk_inv(code, code.len());
    let w = walk(code, code.len());
    assert forall|p: int|
        0 <= p < w.slots.len() && (#[trigger] w.slots[p]).block is Some implies w.slots[p].block->0.closed by {
        if !w.slots[p].block->0.closed {
            assert(w.enclosing.contains(p as usize));
        }
    }
    lemma_points_cost(w, code.len());
}

/// Finds the injection points of a function body: one at the start of every
/// basic block, with the cost of the block, and one before every bulk
/// instruction. They come ordered by position; where a bulk instruction is the
/// first of a block, its point comes first.
pub fn injections(code: &Vec<Instruction>) -> (points: Vec<InjectionPoint>)
    ensures
        points@ == injection_points(code@),
{
    let len = code.len();
    let mut slots: Vec<Slot> = Vec::new();
    while slots.len() < len
        invariant
            len == code.len(),
            slots.len() <= len,
            forall|p: int|
                0 <= p < slots.len() ==> slots@[p] == walk_start(len as nat).slots[p],
        decreases len - slots.len(),
    {
        let block = if slots.len() == 0 {
            Some(BlockCost { scope: Scope::ReentrantBlockStart, cost: 0, closed: false })
        } else {
            None
        };
        slots.push(Slot { dynamic: false, block });
    }
    assert(slots@ =~= walk_start(len as nat).slots);
    let mut enclosing: Vec<usize> = Vec::new();
    let mut current: usize = 0;
    let mut finished = false;
    let mut position: usize = 0;
    while position < len && !finished
        invariant
            len == code.len(),
            position <= len,
            walk(code@, position as nat) == (Walk {
                slots: slots@,
                enclosing: enclosing@,
                current,
                finished,
            }),
        decreases len - position,
    {
        let i = code[position];
        let ghost before = walk(code@, position as nat);
        proof {
            lemma_walk_inv(code@, position as nat);
        }
        let slot = slots[current];
        let next = position + 1;
        match slot.block {
            Some(b) => {
                let cost = b.cost + instruction_to_cost(&i);
                let ends = match i {
                    Instruction::End => true,
                    Instruction::Else => true,
                    Instruction::Br { .. } => true,
                    Instruction::BrIf { .. } => true,
                    Instruction::BrTable { .. } => true,
                    _ => false,
                };
                slots.set(
                    current,
                    Slot {
                        dynamic: slot.dynamic,
                        block: Some(BlockCost { scope: b.scope, cost, closed: ends }),
                    },
                );
            },
            None => {},
        }
        match i {
            Instruction::Loop { .. } => {
                enclosing.push(current);
                current = next;
                if next < len {
                    start_block(&mut slots, next, Scope::ReentrantBlockStart);
                }
            },
            Instruction::If { .. } | Instruction::Block { .. } => {
                enclosing.push(current);
                current = next;
                if next < len {
                    start_block(&mut slots, next, Scope::NonReentrantBlockStart);
                }
            },
            Instruction::Else
            | Instruction::Br { .. }
            | Instruction::BrIf { .. }
            | Instruction::BrTable { .. } => {
                current = next;
                if next < len {
                    start_block(&mut slots, next, Scope::BlockEnd);
                }
            },
            Instruction::End => {
                match enclosing.pop() {
                    Some(outer) => {
                        current = outer;
                    },
                    None => {
                        finished = true;
                    },
                }
            },
            Instruction::MemoryFill { .. }
            | Instruction::MemoryCopy { .. }
            | Instruction::MemoryInit { .. }
            | Instruction::TableCopy { .. }
            | Instruction::TableInit { .. } => {
                let here = slots[position];
                slots.set(position, Slot { dynamic: true, block: here.block });
            },
            _ => {},
        }
        position = position + 1;
        proof {
            let after = walk_step(before, (position - 1) as usize, i);
            assert(after.slots =~= slots@);
            assert(after.enclosing =~= enclosing@);
        }
    }
    proof {
        if position < len {
            lemma_walk_finished(code@, position as nat, len as nat);
        }
        lemma_walk_inv(code@, len as nat);
    }
    let ghost w = walk(code@, len as nat);
    let mut points: Vec<InjectionPoint> = Vec::new();
    let mut p: usize = 0;
    while p < len
        invariant
            len == code.len(),
            p <= len,
            slots@ == w.slots,
            slots.len() == len,
            points@ == points_below(w, p as nat),
        decreases len - p,
    {
        let slot = slots[p];
        if slot.dynamic {
            points.push(InjectionPoint::new_dynamic_cost(p));
        }
        match slot.block {
            Some(b) => {
                if b.closed {
                    points.push(
                        InjectionPoint {
                            cost_detail: InjectionPointCostDetail::StaticCost {
                                scope: b.scope,
                                cost: b.cost,
                            },
                            position: p,
                        },
                    );
                }
            },
            None => {},
        }
        proof {
            assert(points@ =~= points_below(w, p as nat) + points_at(w, p as int));
        }
        p = p + 1;
    }
    points
}

/// Records that a block with the given scope starts at `start`.
fn start_block(slots: &mut Vec<Slot>, start: usize, scope: Scope)
    requires
        start < old(slots).len(),
    ensures
        final(slots)@ == old(slots)@.update(
            start as int,
            Slot {
                dynamic: old(slots)@[start as int].dynamic,
                block: Some(BlockCost { scope, cost: 0, closed: false }),
            },
        ),
{
    let slot = slots[start];
    slots.set(
        start,
        Slot { dynamic: slot.dynamic, block: Some(BlockCost { scope, cost: 0, closed: false }) },
    );
}

} // verus!
