//! Trace scheduling: basic blocks are put in an order in which control
//! falls from one into the next wherever it can.

use crate::blocks::{
    all_blocks,
    all_blocks_canonical,
    block_views,
    is_block,
    jump_to,
    label_of,
};
use crate::canon::{all_canonical, is_canonical};
use crate::ir::{Exp, List, RelOp, Stm};
use crate::marks::{lemma_visit, unvisited};
use crate::temp::{Label, TempSource};
use vstd::prelude::*;

verus! {

/// The comparison that holds exactly when `op` does not.
pub open spec fn negated(op: RelOp) -> RelOp {
    match op {
        RelOp::Equal => RelOp::NotEqual,
        RelOp::NotEqual => RelOp::Equal,
        RelOp::LesserThan => RelOp::GreaterOrEqual,
        RelOp::GreaterThan => RelOp::LesserOrEqual,
        RelOp::LesserOrEqual => RelOp::GreaterThan,
        RelOp::GreaterOrEqual => RelOp::LesserThan,
        RelOp::UnsignedLesserThan => RelOp::UnsignedGreaterOrEqual,
        RelOp::UnsignedLesserOrEqual => RelOp::UnsignedGreaterThan,
        RelOp::UnsignedGreaterThan => RelOp::UnsignedLesserOrEqual,
        RelOp::UnsignedGreaterOrEqual => RelOp::UnsignedLesserThan,
    }
}

/// The comparison that holds exactly when `op` does not.
pub fn negate(op: RelOp) -> (result: RelOp)
    ensures
        result == negated(op),
{
    match op {
        RelOp::Equal => RelOp::NotEqual,
        RelOp::NotEqual => RelOp::Equal,
        RelOp::LesserThan => RelOp::GreaterOrEqual,
        RelOp::GreaterThan => RelOp::LesserOrEqual,
        RelOp::LesserOrEqual => RelOp::GreaterThan,
        RelOp::GreaterOrEqual => RelOp::LesserThan,
        RelOp::UnsignedLesserThan => RelOp::UnsignedGreaterOrEqual,
        RelOp::UnsignedLesserOrEqual => RelOp::UnsignedGreaterThan,
        RelOp::UnsignedGreaterThan => RelOp::UnsignedLesserOrEqual,
        RelOp::UnsignedGreaterOrEqual => RelOp::UnsignedLesserThan,
    }
}

/// Whether a block starts with this label.
pub open spec fn starts_with(block: Seq<Stm>, label: Label) -> bool {
    block.len() > 0 && block[0] == Stm::Label(label)
}

/// The first block at or after `from` that starts with the label.
pub open spec fn position(blocks: Seq<Seq<Stm>>, label: Label, from: int) -> Option<int>
    decreases blocks.len() - from,
{
    if from < 0 || from >= blocks.len() {
        None
    } else if starts_with(blocks[from], label) {
        Some(from)
    } else {
        position(blocks, label, from + 1)
    }
}

/// The block that a jump to the label reaches, if it has not been placed
/// yet.
pub open spec fn open_target(blocks: Seq<Seq<Stm>>, visited: Seq<bool>, label: Label) -> Option<
    int,
> {
    match position(blocks, label, 0) {
        Some(target) => if visited[target] {
            None
        } else {
            Some(target)
        },
        None => None,
    }
}

/// Where `position` finds a block, the block starts with the label and no
/// earlier block from `from` on does.
pub proof fn lemma_position(blocks: Seq<Seq<Stm>>, label: Label, from: int)
    requires
        0 <= from,
    ensures
        match position(blocks, label, from) {
            Some(target) => from <= target < blocks.len() && starts_with(blocks[target], label)
                && forall|i: int| from <= i < target ==> !starts_with(#[trigger] blocks[i], label),
            None => forall|i: int|
                from <= i < blocks.len() ==> !starts_with(#[trigger] blocks[i], label),
        },
    decreases blocks.len() - from,
{
    if from < blocks.len() && !starts_with(blocks[from], label) {
        lemma_position(blocks, label, from + 1);
    }
}

/// The trace that starts with the block `current`: the block, and after it
/// the trace of the block that it falls into. After a jump to a block that
/// is not placed yet, that block follows and the jump is dropped. After a
/// conditional jump, the block of the false label follows if it is not
/// placed yet; else the block of the true label, with the condition
/// negated and the labels exchanged; else the false label is replaced by a
/// fresh one, which is defined right behind and followed by a jump to the
/// old false label. The result holds the statements, the blocks placed
/// afterwards, and the number of the next unused label.
pub open spec fn trace_from(blocks: Seq<Seq<Stm>>, visited: Seq<bool>, current: int, next: nat) -> (
    Seq<Stm>,
    Seq<bool>,
    nat,
)
    decreases unvisited(visited),
{
    if !(0 <= current < blocks.len()) || visited.len() != blocks.len() || visited[current]
        || blocks[current].len() == 0 {
        (Seq::empty(), visited, next)
    } else {
        proof {
            lemma_visit(visited, current);
        }
        let placed = visited.update(current, true);
        let block = blocks[current];
        let most = block.drop_last();
        match block.last() {
            Stm::Jump(Exp::Name(label), _) => {
                match open_target(blocks, placed, label) {
                    Some(target) => {
                        let (rest, placed, next) = trace_from(blocks, placed, target, next);
                        (most + rest, placed, next)
                    },
                    None => (block, placed, next),
                }
            },
            Stm::CJump(op, left, right, if_true, if_false) => {
                match open_target(blocks, placed, if_false) {
                    Some(target) => {
                        let (rest, placed, next) = trace_from(blocks, placed, target, next);
                        (block + rest, placed, next)
                    },
                    None => {
                        match open_target(blocks, placed, if_true) {
                            Some(target) => {
                                let (rest, placed, next) = trace_from(
                                    blocks,
                                    placed,
                                    target,
                                    next,
                                );
                                (
                                    most.push(
                                        Stm::CJump(negated(op), left, right, if_false, if_true),
                                    ) + rest,
                                    placed,
                                    next,
                                )
                            },
                            None => (
                                most.push(
                                    Stm::CJump(op, left, right, if_true, label_of(next)),
                                ).push(Stm::Label(label_of(next))).push(jump_to(if_false)),
                                placed,
                                next + 1,
                            ),
                        }
                    },
                }
            },
            _ => (block, placed, next),
        }
    }
}

/// The traces that start with the blocks from `start` on that are not
/// placed yet, in the order of the blocks.
pub open spec fn schedule_from(blocks: Seq<Seq<Stm>>, visited: Seq<bool>, start: int, next: nat) -> (
    Seq<Stm>,
    nat,
)
    decreases blocks.len() - start,
{
    if start < 0 || start >= blocks.len() || visited.len() != blocks.len() {
        (Seq::empty(), next)
    } else if visited[start] {
        schedule_from(blocks, visited, start + 1, next)
    } else {
        let (trace, placed, next) = trace_from(blocks, visited, start, next);
        let (rest, next) = schedule_from(blocks, placed, start + 1, next);
        (trace + rest, next)
    }
}

/// The statements of the blocks in trace order, with the label `done` at
/// the end, and the number of the next unused label.
pub open spec fn scheduled(blocks: Seq<Seq<Stm>>, done: Label, next: nat) -> (Seq<Stm>, nat) {
    let (stms, next) = schedule_from(
        blocks,
        Seq::new(blocks.len(), |i: int| false),
        0,
        next,
    );
    (stms.push(Stm::Label(done)), next)
}

/// A trace keeps the number of blocks and hands out no label below `next`
/// again.
pub proof fn lemma_trace_from(blocks: Seq<Seq<Stm>>, visited: Seq<bool>, current: int, next: nat)
    ensures
        trace_from(blocks, visited, current, next).1.len() == visited.len(),
        trace_from(blocks, visited, current, next).2 >= next,
    decreases unvisited(visited),
{
    if !(0 <= current < blocks.len()) || visited.len() != blocks.len() || visited[current]
        || blocks[current].len() == 0 {
    } else {
        lemma_visit(visited, current);
        let placed = visited.update(current, true);
        let block = blocks[current];
        match block.last() {
            Stm::Jump(Exp::Name(label), _) => {
                match open_target(blocks, placed, label) {
                    Some(target) => {
                        lemma_trace_from(blocks, placed, target, next);
                    },
                    None => {},
                }
            },
            Stm::CJump(op, left, right, if_true, if_false) => {
                match open_target(blocks, placed, if_false) {
                    Some(target) => {
                        lemma_trace_from(blocks, placed, target, next);
                    },
                    None => {
                        match open_target(blocks, placed, if_true) {
                            Some(target) => {
                                lemma_trace_from(blocks, placed, target, next);
                            },
                            None => {},
                        }
                    },
                }
            },
            _ => {},
        }
    }
}

/// Scheduling hands out no label below `next` again.
pub proof fn lemma_schedule_from(blocks: Seq<Seq<Stm>>, visited: Seq<bool>, start: int, next: nat)
    ensures
        schedule_from(blocks, visited, start, next).1 >= next,
    decreases blocks.len() - start,
{
    if start < 0 || start >= blocks.len() || visited.len() != blocks.len() {
    } else if visited[start] {
        lemma_schedule_from(blocks, visited, start + 1, next);
    } else {
        lemma_trace_from(blocks, visited, start, next);
        let (trace, placed, after) = trace_from(blocks, visited, start, next);
        lemma_schedule_from(blocks, placed, start + 1, after);
    }
}

/// Every conditional jump but one at the very end is followed by its false
/// label.
pub open spec fn falls_within(stms: Seq<Stm>) -> bool {
    forall|i: int|
        0 <= i < stms.len() - 1 ==> (#[trigger] stms[i] matches Stm::CJump(_, _, _, _, if_false)
            ==> stms[i + 1] == Stm::Label(if_false))
}

/// Every conditional jump is followed by its false label, so that control
/// falls into the false branch.
pub open spec fn falls_through(stms: Seq<Stm>) -> bool {
    falls_within(stms) && (stms.len() > 0 ==> !(stms.last() is CJump))
}

/// Whether `second` starts with the false label of a conditional jump that
/// ends `first`.
pub open spec fn settles(first: Seq<Stm>, second: Seq<Stm>) -> bool {
    first.len() > 0 ==> (first.last() matches Stm::CJump(_, _, _, _, if_false) ==> second.len() > 0
        && second[0] == Stm::Label(if_false))
}

/// Statements that fall through, put behind statements that fall through
/// up to their end, fall through if the join does.
pub proof fn lemma_join_falls_through(first: Seq<Stm>, second: Seq<Stm>)
    requires
        falls_within(first),
        falls_through(second),
        settles(first, second),
        first.len() > 0 && second.len() == 0 ==> !(first.last() is CJump),
    ensures
        falls_through(first + second),
{
    let joined = first + second;
    assert forall|i: int| 0 <= i < joined.len() - 1 implies (#[trigger] joined[i] matches Stm::CJump(
        _,
        _,
        _,
        _,
        if_false,
    ) ==> joined[i + 1] == Stm::Label(if_false)) by {
        if i < first.len() - 1 {
            assert(joined[i] == first[i]);
            assert(joined[i + 1] == first[i + 1]);
        } else if i == first.len() - 1 {
            assert(joined[i] == first.last());
            assert(joined[i + 1] == second[0]);
        } else {
            assert(joined[i] == second[i - first.len()]);
            assert(joined[i + 1] == second[i - first.len() + 1]);
        }
    }
    if second.len() > 0 {
        assert(joined.last() == second.last());
    } else {
        assert(joined =~= first);
    }
}

/// A trace starts with the label of its first block, every conditional
/// jump in it is followed by its false label, and canonical blocks give
/// canonical statements.
pub proof fn lemma_trace_falls_through(
    blocks: Seq<Seq<Stm>>,
    visited: Seq<bool>,
    current: int,
    next: nat,
)
    requires
        all_blocks(blocks),
        0 <= current < blocks.len(),
        visited.len() == blocks.len(),
        !visited[current],
    ensures
        trace_from(blocks, visited, current, next).0.len() > 0,
        trace_from(blocks, visited, current, next).0[0] == blocks[current][0],
        falls_through(trace_from(blocks, visited, current, next).0),
        all_blocks_canonical(blocks) ==> all_canonical(
            trace_from(blocks, visited, current, next).0,
        ),
    decreases unvisited(visited),
{
    lemma_visit(visited, current);
    let placed = visited.update(current, true);
    let block = blocks[current];
    let most = block.drop_last();
    assert(is_block(block));
    assert(most.push(block.last()) =~= block);
    assert(falls_within(most)) by {
        assert forall|i: int| 0 <= i < most.len() - 1 implies !(#[trigger] most[i] is CJump) by {
            assert(most[i] == block[i]);
        }
    }
    assert(most.len() > 0 ==> !(most.last() is CJump)) by {
        assert(most.last() == block[most.len() - 1]);
    }
    assert(falls_within(block)) by {
        assert forall|i: int| 0 <= i < block.len() - 1 implies !(#[trigger] block[i] is CJump) by {}
    }
    assert(all_blocks_canonical(blocks) ==> all_canonical(block) && all_canonical(most));
    match block.last() {
        Stm::Jump(Exp::Name(label), _) => {
            match open_target(blocks, placed, label) {
                Some(target) => {
                    lemma_position(blocks, label, 0);
                    lemma_trace_falls_through(blocks, placed, target, next);
                    let rest = trace_from(blocks, placed, target, next).0;
                    lemma_join_falls_through(most, rest);
                    assert((most + rest)[0] == most[0]);
                },
                None => {},
            }
        },
        Stm::CJump(op, left, right, if_true, if_false) => {
            match open_target(blocks, placed, if_false) {
                Some(target) => {
                    lemma_position(blocks, if_false, 0);
                    lemma_trace_falls_through(blocks, placed, target, next);
                    let rest = trace_from(blocks, placed, target, next).0;
                    lemma_join_falls_through(block, rest);
                    assert((block + rest)[0] == block[0]);
                },
                None => {
                    match open_target(blocks, placed, if_true) {
                        Some(target) => {
                            lemma_position(blocks, if_true, 0);
                            lemma_trace_falls_through(blocks, placed, target, next);
                            let rest = trace_from(blocks, placed, target, next).0;
                            let turned = most.push(
                                Stm::CJump(negated(op), left, right, if_false, if_true),
                            );
                            assert(falls_within(turned)) by {
                                assert forall|i: int| 0 <= i < turned.len() - 1 implies !(
                                #[trigger] turned[i] is CJump) by {
                                    assert(turned[i] == block[i]);
                                }
                            }
                            assert(all_canonical(block) ==> all_canonical(turned)) by {
                                if all_canonical(block) {
                                    assert(is_canonical(block[block.len() - 1]));
                                    assert forall|i: int| 0 <= i < turned.len() implies is_canonical(
                                        #[trigger] turned[i],
                                    ) by {
                                        if i < most.len() {
                                            assert(turned[i] == block[i]);
                                        }
                                    }
                                }
                            }
                            lemma_join_falls_through(turned, rest);
                            assert((turned + rest)[0] == block[0]);
                        },
                        None => {
                            let hop = Stm::CJump(op, left, right, if_true, label_of(next));
                            let landed = most.push(hop).push(Stm::Label(label_of(next))).push(
                                jump_to(if_false),
                            );
                            assert(landed[0] == block[0]);
                            assert(falls_within(landed)) by {
                                assert forall|i: int| 0 <= i < landed.len() - 1 implies (
                                #[trigger] landed[i] matches Stm::CJump(_, _, _, _, target)
                                    ==> landed[i + 1] == Stm::Label(target)) by {
                                    if i < most.len() {
                                        assert(landed[i] == block[i]);
                                    }
                                }
                            }
                            assert(all_canonical(block) ==> all_canonical(landed)) by {
                                if all_canonical(block) {
                                    assert(is_canonical(block[block.len() - 1]));
                                    assert forall|i: int| 0 <= i < landed.len() implies is_canonical(
                                        #[trigger] landed[i],
                                    ) by {
                                        if i < most.len() {
                                            assert(landed[i] == block[i]);
                                        }
                                    }
                                }
                            }
                        },
                    }
                },
            }
        },
        _ => {},
    }
}

/// Scheduled statements fall through at every conditional jump, and
/// canonical blocks give canonical statements.
pub proof fn lemma_schedule_falls_through(
    blocks: Seq<Seq<Stm>>,
    visited: Seq<bool>,
    start: int,
    next: nat,
)
    requires
        all_blocks(blocks),
        0 <= start,
    ensures
        falls_through(schedule_from(blocks, visited, start, next).0),
        all_blocks_canonical(blocks) ==> all_canonical(
            schedule_from(blocks, visited, start, next).0,
        ),
    decreases blocks.len() - start,
{
    if start >= blocks.len() || visited.len() != blocks.len() {
    } else if visited[start] {
        lemma_schedule_falls_through(blocks, visited, start + 1, next);
    } else {
        lemma_trace_falls_through(blocks, visited, start, next);
        lemma_trace_from(blocks, visited, start, next);
        let (trace, placed, after) = trace_from(blocks, visited, start, next);
        lemma_schedule_falls_through(blocks, placed, start + 1, after);
        lemma_join_falls_through(trace, schedule_from(blocks, placed, start + 1, after).0);
    }
}

/// After trace scheduling every conditional jump is followed by its false
/// label, and blocks of canonical statements give canonical statements.
pub proof fn lemma_scheduled(blocks: Seq<Seq<Stm>>, done: Label, next: nat)
    requires
        all_blocks(blocks),
    ensures
        falls_through(scheduled(blocks, done, next).0),
        all_blocks_canonical(blocks) ==> all_canonical(scheduled(blocks, done, next).0),
        scheduled(blocks, done, next).1 >= next,
{
    let visited = Seq::new(blocks.len(), |i: int| false);
    lemma_schedule_falls_through(blocks, visited, 0, next);
    lemma_schedule_from(blocks, visited, 0, next);
    let stms = schedule_from(blocks, visited, 0, next).0;
    lemma_join_falls_through(stms, seq![Stm::Label(done)]);
    assert(stms + seq![Stm::Label(done)] =~= stms.push(Stm::Label(done)));
}

fn find_open(
    heads: &Vec<Label>,
    visited: &Vec<bool>,
    label: Label,
    Ghost(blocks): Ghost<Seq<Seq<Stm>>>,
) -> (target: Option<usize>)
    requires
        heads@.len() == blocks.len(),
        visited@.len() == blocks.len(),
        forall|i: int| 0 <= i < blocks.len() ==> starts_with(#[trigger] blocks[i], heads@[i]),
    ensures
        match target {
            Some(target) => target < heads@.len() && open_target(blocks, visited@, label) == Some(
                target as int,
            ),
            None => open_target(blocks, visited@, label) is None,
        },
{
    proof {
        lemma_position(blocks, label, 0);
    }
    let mut index: usize = 0;
    while index < heads.len()
        invariant
            index <= heads.len(),
            heads@.len() == blocks.len(),
            visited@.len() == blocks.len(),
            forall|i: int| 0 <= i < blocks.len() ==> starts_with(#[trigger] blocks[i], heads@[i]),
            forall|i: int| 0 <= i < index ==> !starts_with(#[trigger] blocks[i], label),
        decreases heads.len() - index,
    {
        if heads[index] == label {
            proof {
                lemma_position(blocks, label, 0);
            }
            assert(starts_with(blocks[index as int], label));
            return if visited[index] {
                None
            } else {
                Some(index)
            };
        }
        assert(starts_with(blocks[index as int], heads@[index as int]));
        index += 1;
    }
    proof {
        lemma_position(blocks, label, 0);
    }
    None
}

/// Puts basic blocks in trace order and joins them into one list of
/// statements that ends with the label `done`. Fresh labels are taken from
/// `source`; the result is `None` when they run out.
pub fn trace_schedule(blocks: Vec<Vec<Stm>>, done: Label, source: &mut TempSource) -> (result:
    Option<Vec<Stm>>)
    requires
        all_blocks(block_views(blocks@)),
    ensures
        final(source).next_temp() == old(source).next_temp(),
        match result {
            Some(stms) => stms@ == scheduled(
                block_views(blocks@),
                done,
                old(source).next_label(),
            ).0 && final(source).next_label() == scheduled(
                block_views(blocks@),
                done,
                old(source).next_label(),
            ).1,
            None => scheduled(block_views(blocks@), done, old(source).next_label()).1
                > usize::MAX,
        },
        result is Some ==> falls_through(result->0@),
        result is Some && all_blocks_canonical(block_views(blocks@)) ==> all_canonical(
            result->0@,
        ),
{
    proof {
        lemma_scheduled(block_views(blocks@), done, source.next_label());
    }
    let ghost given = block_views(blocks@);
    let ghost first_label = source.next_label();
    let mut pool = blocks;
    let count = pool.len();
    let mut heads: Vec<Label> = Vec::new();
    let mut visited: Vec<bool> = Vec::new();
    let mut index: usize = 0;
    while index < count
        invariant
            count == pool.len(),
            given == block_views(pool@),
            all_blocks(given),
            index <= count,
            heads.len() == index,
            visited.len() == index,
            forall|i: int| 0 <= i < index ==> starts_with(#[trigger] given[i], heads@[i]),
            forall|i: int| 0 <= i < index ==> !(#[trigger] visited@[i]),
        decreases count - index,
    {
        assert(is_block(given[index as int]));
        assert(pool@[index as int]@ == given[index as int]);
        let label = match &pool[index][0] {
            Stm::Label(label) => *label,
            _ => done,
        };
        heads.push(label);
        visited.push(false);
        index += 1;
    }
    assert(visited@ =~= Seq::new(given.len(), |i: int| false));
    let ghost total = schedule_from(given, visited@, 0, first_label);
    let mut out: Vec<Stm> = Vec::new();
    let mut start: usize = 0;
    assert(out@ + total.0 =~= total.0);
    while start < count
        invariant
            start <= count,
            count == pool.len(),
            given == block_views(blocks@),
            count == heads.len(),
            count == visited.len(),
            count == given.len(),
            all_blocks(given),
            forall|i: int| 0 <= i < count ==> starts_with(#[trigger] given[i], heads@[i]),
            forall|i: int| 0 <= i < count && !visited@[i] ==> (#[trigger] pool@[i])@ == given[i],
            source.next_temp() == old(source).next_temp(),
            total.1 == scheduled(given, done, old(source).next_label()).1,
            total.0 == out@ + schedule_from(
                given,
                visited@,
                start as int,
                source.next_label(),
            ).0,
            total.1 == schedule_from(given, visited@, start as int, source.next_label()).1,
        decreases count - start,
    {
        if !visited[start] {
            let ghost entry_out = out@;
            let ghost entry = trace_from(given, visited@, start as int, source.next_label());
            let ghost rest = schedule_from(given, entry.1, start + 1, entry.2);
            proof {
                lemma_trace_from(given, visited@, start as int, source.next_label());
                lemma_schedule_from(given, entry.1, start + 1, entry.2);
                assert(total.0 == entry_out + (entry.0 + rest.0));
                assert(total.1 == rest.1);
            }
            let mut current = start;
            let mut tracing = true;
            while tracing
                invariant
                    count == pool.len(),
            given == block_views(blocks@),
                    count == heads.len(),
                    count == visited.len(),
                    count == given.len(),
                    all_blocks(given),
                    forall|i: int|
                        0 <= i < count ==> starts_with(#[trigger] given[i], heads@[i]),
                    forall|i: int|
                        0 <= i < count && !visited@[i] ==> (#[trigger] pool@[i])@ == given[i],
                    source.next_temp() == old(source).next_temp(),
                    total.1 == scheduled(given, done, old(source).next_label()).1,
                    entry.2 <= total.1,
                    tracing ==> current < count && !visited@[current as int] && entry_out
                        + entry.0 == out@ + trace_from(
                        given,
                        visited@,
                        current as int,
                        source.next_label(),
                    ).0 && entry.1 == trace_from(
                        given,
                        visited@,
                        current as int,
                        source.next_label(),
                    ).1 && entry.2 == trace_from(
                        given,
                        visited@,
                        current as int,
                        source.next_label(),
                    ).2,
                    !tracing ==> out@ == entry_out + entry.0 && visited@ == entry.1
                        && source.next_label() == entry.2,
                decreases
                        unvisited(visited@) + if tracing {
                            1nat
                        } else {
                            0nat
                        },
            {
                let ghost seen = visited@;
                let ghost placed = seen.update(current as int, true);
                let ghost before = out@;
                let ghost next = source.next_label();
                let ghost full = given[current as int];
                let ghost most = full.drop_last();
                proof {
                    lemma_visit(seen, current as int);
                    assert(is_block(full));
                    assert(pool@[current as int]@ == full);
                }
                visited.set(current, true);
                let mut block: Vec<Stm> = Vec::new();
                pool.set_and_swap(current, &mut block);
                let last = block.pop().unwrap();
                assert(block@ =~= most);
                assert(last == full.last());
                assert(most.push(last) =~= full);
                match last {
                    Stm::Jump(Exp::Name(label), targets) => {
                        match find_open(&heads, &visited, label, Ghost(given)) {
                            Some(target) => {
                                out.append(&mut block);
                                assert(out@ + trace_from(given, placed, target as int, next).0
                                    =~= before + (most + trace_from(
                                    given,
                                    placed,
                                    target as int,
                                    next,
                                ).0));
                                current = target;
                            },
                            None => {
                                out.append(&mut block);
                                out.push(Stm::Jump(Exp::Name(label), targets));
                                assert(out@ =~= before + full);
                                tracing = false;
                            },
                        }
                    },
                    Stm::CJump(op, left, right, if_true, if_false) => {
                        match find_open(&heads, &visited, if_false, Ghost(given)) {
                            Some(target) => {
                                out.append(&mut block);
                                out.push(Stm::CJump(op, left, right, if_true, if_false));
                                assert(out@ + trace_from(given, placed, target as int, next).0
                                    =~= before + (full + trace_from(
                                    given,
                                    placed,
                                    target as int,
                                    next,
                                ).0));
                                current = target;
                            },
                            None => {
                                match find_open(&heads, &visited, if_true, Ghost(given)) {
                                    Some(target) => {
                                        out.append(&mut block);
                                        out.push(
                                            Stm::CJump(negate(op), left, right, if_false, if_true),
                                        );
                                        assert(out@ + trace_from(
                                            given,
                                            placed,
                                            target as int,
                                            next,
                                        ).0 =~= before + (most.push(
                                            Stm::CJump(negated(op), left, right, if_false, if_true),
                                        ) + trace_from(given, placed, target as int, next).0));
                                        current = target;
                                    },
                                    None => {
                                        let fresh = match source.fresh_label() {
                                            Some(label) => label,
                                            None => {
                                                assert(trace_from(
                                                    given,
                                                    seen,
                                                    current as int,
                                                    next,
                                                ).2 == next + 1);
                                                return None;
                                            },
                                        };
                                        out.append(&mut block);
                                        out.push(Stm::CJump(op, left, right, if_true, fresh));
                                        out.push(Stm::Label(fresh));
                                        out.push(
                                            Stm::Jump(
                                                Exp::Name(if_false),
                                                List::Cons(if_false, Box::new(List::Nil)),
                                            ),
                                        );
                                        assert(out@ =~= before + most.push(
                                            Stm::CJump(op, left, right, if_true, label_of(next)),
                                        ).push(Stm::Label(label_of(next))).push(jump_to(if_false)));
                                        tracing = false;
                                    },
                                }
                            },
                        }
                    },
                    other => {
                        out.append(&mut block);
                        out.push(other);
                        assert(out@ =~= before + full);
                        tracing = false;
                    },
                }
            }
            assert(out@ + rest.0 =~= entry_out + (entry.0 + rest.0));
        }
        start += 1;
    }
    assert(out@ + Seq::<Stm>::empty() =~= out@);
    out.push(Stm::Label(done));
    Some(out)
}

} // verus!
