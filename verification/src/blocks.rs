//! Basic blocks: a list of statements is cut into pieces that start with a
//! label and end with a jump.

use crate::canon::all_canonical;
use crate::ir::{Exp, List, Stm};
use crate::temp::{Label, TempSource};
use crate::vectors::reversed;
use vstd::prelude::*;

verus! {

/// A statement that hands control on: a jump or a conditional jump.
pub open spec fn is_transfer(stm: Stm) -> bool {
    stm is Jump || stm is CJump
}

/// The jump to a label.
pub open spec fn jump_to(label: Label) -> Stm {
    Stm::Jump(Exp::Name(label), List::Cons(label, Box::new(List::Nil)))
}

/// The label with the given number.
pub open spec fn label_of(num: nat) -> Label {
    Label::Num(num as usize)
}

/// A basic block: a label, then statements that are neither labels nor
/// jumps, then exactly one jump or conditional jump.
pub open spec fn is_block(block: Seq<Stm>) -> bool {
    &&& block.len() >= 2
    &&& block[0] is Label
    &&& is_transfer(block.last())
    &&& forall|i: int|
        0 < i < block.len() - 1 ==> !is_transfer(#[trigger] block[i]) && !(block[i] is Label)
}

/// The start of a basic block: nothing, or a label and statements that are
/// neither labels nor jumps.
pub open spec fn is_open_block(block: Seq<Stm>) -> bool {
    block.len() > 0 ==> {
        &&& block[0] is Label
        &&& forall|i: int|
            0 < i < block.len() ==> !is_transfer(#[trigger] block[i]) && !(block[i] is Label)
    }
}

/// Every piece is a basic block.
pub open spec fn all_blocks(blocks: Seq<Seq<Stm>>) -> bool {
    forall|i: int| 0 <= i < blocks.len() ==> is_block(#[trigger] blocks[i])
}

/// Every statement of every piece is canonical.
pub open spec fn all_blocks_canonical(blocks: Seq<Seq<Stm>>) -> bool {
    forall|i: int| 0 <= i < blocks.len() ==> all_canonical(#[trigger] blocks[i])
}

/// The blocks of the statements from `at` on, where `current` is the block
/// that is being filled, `done` the label behind the last statement, and
/// `next` the number of the next unused label. A statement that would
/// start a block without being a label gets a fresh label in front; a
/// label that follows a statement other than a jump gets a jump to itself
/// in front, which ends the block before it; when the statements end
/// inside a block, the block ends with a jump to `done`.
pub open spec fn blocks_from(
    stms: Seq<Stm>,
    at: int,
    current: Seq<Stm>,
    done: Label,
    next: nat,
) -> (Seq<Seq<Stm>>, nat)
    decreases stms.len() - at,
{
    if at < 0 || at >= stms.len() {
        if current.len() == 0 {
            (Seq::empty(), next)
        } else {
            (seq![current.push(jump_to(done))], next)
        }
    } else {
        let stm = stms[at];
        let labelled = current.len() == 0 && !(stm is Label);
        let block = if labelled {
            seq![Stm::Label(label_of(next))]
        } else {
            current
        };
        let next = if labelled {
            next + 1
        } else {
            next
        };
        if block.len() == 0 {
            blocks_from(stms, at + 1, seq![stm], done, next)
        } else {
            match stm {
                Stm::Jump(_, _) | Stm::CJump(_, _, _, _, _) => {
                    let (rest, next) = blocks_from(stms, at + 1, Seq::empty(), done, next);
                    (seq![block.push(stm)] + rest, next)
                },
                Stm::Label(label) => {
                    let (rest, next) = blocks_from(stms, at + 1, seq![stm], done, next);
                    (seq![block.push(jump_to(label))] + rest, next)
                },
                _ => blocks_from(stms, at + 1, block.push(stm), done, next),
            }
        }
    }
}

/// The basic blocks of a list of statements, the label that stands for the
/// end of the list, and the number of the next unused label. The end label
/// is the first fresh one.
pub open spec fn blocks_of(stms: Seq<Stm>, next: nat) -> (Seq<Seq<Stm>>, Label, nat) {
    let done = label_of(next);
    let (blocks, next) = blocks_from(stms, 0, Seq::empty(), done, next + 1);
    (blocks, done, next)
}

/// Every piece that is cut off is a basic block, canonical statements stay
/// canonical, and no label below `next` is handed out again.
pub proof fn lemma_blocks_from(stms: Seq<Stm>, at: int, current: Seq<Stm>, done: Label, next: nat)
    requires
        is_open_block(current),
    ensures
        all_blocks(blocks_from(stms, at, current, done, next).0),
        blocks_from(stms, at, current, done, next).1 >= next,
        0 <= at < stms.len() && current.len() == 0 && !(stms[at] is Label) ==> blocks_from(
            stms,
            at,
            current,
            done,
            next,
        ).1 > next,
        all_canonical(stms) && all_canonical(current) ==> all_blocks_canonical(
            blocks_from(stms, at, current, done, next).0,
        ),
    decreases stms.len() - at,
{
    if at < 0 || at >= stms.len() {
        if current.len() > 0 {
            let block = current.push(jump_to(done));
            assert(is_block(block));
            assert(all_canonical(current) ==> all_canonical(block));
        }
    } else {
        let stm = stms[at];
        let labelled = current.len() == 0 && !(stm is Label);
        let block = if labelled {
            seq![Stm::Label(label_of(next))]
        } else {
            current
        };
        let after = if labelled {
            next + 1
        } else {
            next
        };
        assert(all_canonical(current) ==> all_canonical(block));
        if block.len() == 0 {
            lemma_blocks_from(stms, at + 1, seq![stm], done, after);
            assert(all_canonical(stms) ==> all_canonical(seq![stm]));
        } else {
            match stm {
                Stm::Jump(_, _) | Stm::CJump(_, _, _, _, _) => {
                    lemma_blocks_from(stms, at + 1, Seq::empty(), done, after);
                    assert(is_block(block.push(stm)));
                    assert(all_canonical(stms) && all_canonical(block) ==> all_canonical(
                        block.push(stm),
                    ));
                },
                Stm::Label(label) => {
                    lemma_blocks_from(stms, at + 1, seq![stm], done, after);
                    assert(is_block(block.push(jump_to(label))));
                    assert(all_canonical(block) ==> all_canonical(block.push(jump_to(label))));
                    assert(all_canonical(stms) ==> all_canonical(seq![stm]));
                },
                _ => {
                    assert(is_open_block(block.push(stm)));
                    assert(all_canonical(stms) && all_canonical(block) ==> all_canonical(
                        block.push(stm),
                    ));
                    lemma_blocks_from(stms, at + 1, block.push(stm), done, after);
                },
            }
        }
    }
}

/// Every basic block that is produced starts with a label and has exactly
/// one jump or conditional jump, which is its last statement; blocks cut
/// from canonical statements hold canonical statements.
pub proof fn lemma_blocks_of(stms: Seq<Stm>, next: nat)
    ensures
        all_blocks(blocks_of(stms, next).0),
        blocks_of(stms, next).2 > next,
        all_canonical(stms) ==> all_blocks_canonical(blocks_of(stms, next).0),
{
    lemma_blocks_from(stms, 0, Seq::empty(), label_of(next), next + 1);
}

/// The statements of each block.
pub open spec fn block_views(blocks: Seq<Vec<Stm>>) -> Seq<Seq<Stm>> {
    blocks.map_values(|block: Vec<Stm>| block@)
}

/// Cuts a list of statements into basic blocks, taking fresh labels from
/// `source`, and returns the blocks with the label that stands for the end
/// of the list. The result is `None` when the labels run out.
pub fn basic_blocks(stms: Vec<Stm>, source: &mut TempSource) -> (result: Option<
    (Vec<Vec<Stm>>, Label),
>)
    ensures
        final(source).next_temp() == old(source).next_temp(),
        match result {
            Some((blocks, done)) => {
                &&& block_views(blocks@) == blocks_of(stms@, old(source).next_label()).0
                &&& done == blocks_of(stms@, old(source).next_label()).1
                &&& final(source).next_label() == blocks_of(stms@, old(source).next_label()).2
                &&& all_blocks(block_views(blocks@))
                &&& all_canonical(stms@) ==> all_blocks_canonical(block_views(blocks@))
            },
            None => blocks_of(stms@, old(source).next_label()).2 > usize::MAX,
        },
{
    let ghost start = source.next_label();
    proof {
        lemma_blocks_of(stms@, start);
    }
    let done = match source.fresh_label() {
        Some(label) => label,
        None => {
            return None;
        },
    };
    let ghost total = blocks_from(stms@, 0, Seq::empty(), done, start + 1);
    let ghost length = stms@.len() as int;
    let mut rest = reversed(stms);
    let mut blocks: Vec<Vec<Stm>> = Vec::new();
    let mut current: Vec<Stm> = Vec::new();
    assert(block_views(blocks@) + total.0 =~= total.0);
    while rest.len() > 0
        invariant
            length == stms@.len(),
            rest@.len() <= length,
            forall|i: int| 0 <= i < rest@.len() ==> rest@[i] == stms@[length - 1 - i],
            source.next_temp() == old(source).next_temp(),
            total.1 == blocks_of(stms@, old(source).next_label()).2,
            total.0 == block_views(blocks@) + blocks_from(
                stms@,
                length - rest@.len(),
                current@,
                done,
                source.next_label(),
            ).0,
            total.1 == blocks_from(
                stms@,
                length - rest@.len(),
                current@,
                done,
                source.next_label(),
            ).1,
            is_open_block(current@),
        decreases rest.len(),
    {
        let ghost at = length - rest@.len();
        let ghost before = block_views(blocks@);
        let ghost opened = current@;
        let ghost label_before = source.next_label();
        proof {
            lemma_blocks_from(stms@, at, opened, done, label_before);
        }
        let stm = rest.pop().unwrap();
        assert(stm == stms@[at]);
        let is_label = match &stm {
            Stm::Label(_) => true,
            _ => false,
        };
        if current.len() == 0 && !is_label {
            match source.fresh_label() {
                Some(label) => {
                    current.push(Stm::Label(label));
                    assert(current@ =~= seq![Stm::Label(label_of(label_before))]);
                },
                None => {
                    return None;
                },
            }
        }
        let ghost block = current@;
        if current.len() == 0 {
            current.push(stm);
            assert(current@ =~= seq![stm]);
        } else {
            match stm {
                Stm::Jump(target, labels) => {
                    current.push(Stm::Jump(target, labels));
                    blocks.push(current);
                    current = Vec::new();
                    assert(block_views(blocks@) =~= before.push(block.push(stm)));
                    assert(current@ =~= Seq::<Stm>::empty());
                    assert(before + (seq![block.push(stm)] + blocks_from(
                        stms@,
                        at + 1,
                        current@,
                        done,
                        source.next_label(),
                    ).0) =~= block_views(blocks@) + blocks_from(
                        stms@,
                        at + 1,
                        current@,
                        done,
                        source.next_label(),
                    ).0);
                },
                Stm::CJump(op, left, right, if_true, if_false) => {
                    current.push(Stm::CJump(op, left, right, if_true, if_false));
                    blocks.push(current);
                    current = Vec::new();
                    assert(block_views(blocks@) =~= before.push(block.push(stm)));
                    assert(current@ =~= Seq::<Stm>::empty());
                    assert(before + (seq![block.push(stm)] + blocks_from(
                        stms@,
                        at + 1,
                        current@,
                        done,
                        source.next_label(),
                    ).0) =~= block_views(blocks@) + blocks_from(
                        stms@,
                        at + 1,
                        current@,
                        done,
                        source.next_label(),
                    ).0);
                },
                Stm::Label(label) => {
                    current.push(
                        Stm::Jump(Exp::Name(label), List::Cons(label, Box::new(List::Nil))),
                    );
                    blocks.push(current);
                    current = Vec::new();
                    current.push(Stm::Label(label));
                    assert(block_views(blocks@) =~= before.push(block.push(jump_to(label))));
                    assert(current@ =~= seq![stm]);
                    assert(before + (seq![block.push(jump_to(label))] + blocks_from(
                        stms@,
                        at + 1,
                        current@,
                        done,
                        source.next_label(),
                    ).0) =~= block_views(blocks@) + blocks_from(
                        stms@,
                        at + 1,
                        current@,
                        done,
                        source.next_label(),
                    ).0);
                },
                other => {
                    current.push(other);
                    assert(current@ =~= block.push(stm));
                },
            }
        }
    }
    if current.len() > 0 {
        let ghost before = block_views(blocks@);
        let ghost block = current@;
        current.push(Stm::Jump(Exp::Name(done), List::Cons(done, Box::new(List::Nil))));
        blocks.push(current);
        assert(block_views(blocks@) =~= before + seq![block.push(jump_to(done))]);
    } else {
        assert(block_views(blocks@) + Seq::<Seq<Stm>>::empty() =~= block_views(blocks@));
    }
    Some((blocks, done))
}

} // verus!
