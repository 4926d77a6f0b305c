//! Graph colouring: every temporary gets one of the machine's registers,
//! or is left without and must be spilled.

use crate::flow::holds_node;
use crate::frame::{RBP, REGISTER_COUNT, RSP};
use crate::interference::Interference;
use crate::marks::{count_true, lemma_count_step, lemma_mark, unmarked};
use crate::temp::Temp;
use vstd::prelude::*;

verus! {

/// The number of registers that the allocator may hand out.
pub const COLOURS: usize = 14;

/// Whether a register, given by its number, may be handed out: every
/// register but the stack pointer and the frame pointer.
pub open spec fn is_free_register(register: int) -> bool {
    0 <= register < REGISTER_COUNT && register != RSP && register != RBP
}

/// An order in which temporaries that are no registers leave a graph of
/// `size` temporaries: none of them twice.
pub open spec fn is_order(order: Seq<usize>, size: nat) -> bool {
    &&& order.no_duplicates()
    &&& forall|i: int| 0 <= i < order.len() ==> REGISTER_COUNT <= #[trigger] order[i] < size
}

/// Whether a temporary has its register before the one at a position of
/// the order gets one: it is a register, or comes later in the order.
pub open spec fn coloured_before(order: Seq<usize>, at: int, other: int) -> bool {
    (0 <= other < REGISTER_COUNT) || exists|later: int|
        at < later < order.len() && #[trigger] order[later] == other
}

/// Whether a register is taken when the temporary at a position of the
/// order gets its register: a neighbour that has its register before has
/// this one.
pub open spec fn taken(
    graph: Interference,
    order: Seq<usize>,
    colours: Seq<Option<usize>>,
    at: int,
    register: int,
) -> bool {
    exists|other: int|
        0 <= other < colours.len() && #[trigger] graph.edge(order[at] as int, other)
            && coloured_before(order, at, other) && colours[other] == Some(register as usize)
}

/// Whether the temporary at a position of the order has the register that
/// the rule gives it: the free register with the lowest number that is not
/// taken, or none if all are taken.
pub open spec fn follows_rule(
    graph: Interference,
    order: Seq<usize>,
    colours: Seq<Option<usize>>,
    at: int,
) -> bool {
    match colours[order[at] as int] {
        Some(chosen) => {
            &&& is_free_register(chosen as int)
            &&& !taken(graph, order, colours, at, chosen as int)
            &&& forall|lower: int|
                0 <= lower < chosen && is_free_register(lower) ==> #[trigger] taken(
                    graph,
                    order,
                    colours,
                    at,
                    lower,
                )
        },
        None => forall|register: int|
            is_free_register(register) ==> #[trigger] taken(graph, order, colours, at, register),
    }
}

/// Whether one of the first `count` temporaries is marked in the row and
/// has the register.
pub open spec fn held_among(
    row: Seq<bool>,
    colours: Seq<Option<usize>>,
    count: int,
    register: int,
) -> bool {
    exists|seen: int|
        0 <= seen < count && seen < row.len() && row[seen] && #[trigger] colours[seen] == Some(
            register as usize,
        )
}

/// Giving a register to a temporary of the order does not change what is
/// taken for the temporaries at and behind its position.
pub proof fn lemma_taken_unchanged(
    graph: Interference,
    order: Seq<usize>,
    colours: Seq<Option<usize>>,
    changed: int,
    value: Option<usize>,
    at: int,
    register: int,
)
    requires
        is_order(order, colours.len()),
        0 <= changed <= at < order.len(),
    ensures
        taken(graph, order, colours.update(order[changed] as int, value), at, register) == taken(
            graph,
            order,
            colours,
            at,
            register,
        ),
{
    let after = colours.update(order[changed] as int, value);
    assert forall|other: int| 0 <= other < colours.len() && coloured_before(
        order,
        at,
        other,
    ) implies after[other] == colours[other] by {
        if other >= REGISTER_COUNT {
            let later = choose|later: int| at < later < order.len() && #[trigger] order[later] == other;
            assert(order[later] != order[changed]);
        }
    }
    if taken(graph, order, after, at, register) {
        let other = choose|other: int|
            0 <= other < after.len() && #[trigger] graph.edge(order[at] as int, other)
                && coloured_before(order, at, other) && after[other] == Some(register as usize);
        assert(colours[other] == Some(register as usize));
    }
    if taken(graph, order, colours, at, register) {
        let other = choose|other: int|
            0 <= other < colours.len() && #[trigger] graph.edge(order[at] as int, other)
                && coloured_before(order, at, other) && colours[other] == Some(register as usize);
        assert(after[other] == Some(register as usize));
    }
}

/// Two colourings that agree on the temporaries that have their register
/// before the one at a position of the order agree on what is taken there.
pub proof fn lemma_taken_agrees(
    graph: Interference,
    order: Seq<usize>,
    first: Seq<Option<usize>>,
    second: Seq<Option<usize>>,
    at: int,
    register: int,
)
    requires
        first.len() == second.len(),
        forall|other: int|
            0 <= other < first.len() && coloured_before(order, at, other) ==> #[trigger] first[other]
                == second[other],
    ensures
        taken(graph, order, first, at, register) == taken(graph, order, second, at, register),
{
    if taken(graph, order, first, at, register) {
        let other = choose|other: int|
            0 <= other < first.len() && #[trigger] graph.edge(order[at] as int, other)
                && coloured_before(order, at, other) && first[other] == Some(register as usize);
        assert(second[other] == Some(register as usize));
    }
    if taken(graph, order, second, at, register) {
        let other = choose|other: int|
            0 <= other < second.len() && #[trigger] graph.edge(order[at] as int, other)
                && coloured_before(order, at, other) && second[other] == Some(register as usize);
        assert(first[other] == Some(register as usize));
    }
}

/// What giving out registers in an order achieves: the registers keep
/// their own numbers, every other temporary has a register that may be
/// handed out or none, two temporaries that interfere never have the same
/// register, a temporary of the order with fewer neighbours than there are
/// registers to hand out has one, and a temporary outside the order has
/// none.
pub open spec fn is_assignment(
    graph: Interference,
    order: Seq<usize>,
    colours: Seq<Option<usize>>,
) -> bool {
    &&& colours.len() == graph.size()
    &&& forall|num: int|
        0 <= num < colours.len() && num < REGISTER_COUNT ==> #[trigger] colours[num] == Some(
            num as usize,
        )
    &&& forall|num: int|
        REGISTER_COUNT <= num < colours.len() ==> (#[trigger] colours[num] matches Some(register)
            ==> is_free_register(register as int))
    &&& proper(graph, colours)
    &&& forall|i: int|
        0 <= i < order.len() && graph.degree(#[trigger] order[i] as int) < COLOURS
            ==> colours[order[i] as int] is Some
    &&& forall|num: int|
        REGISTER_COUNT <= num < colours.len() && !holds_node(order, num)
            ==> (#[trigger] colours[num]) is None
    &&& forall|at: int| 0 <= at < order.len() ==> #[trigger] follows_rule(graph, order, colours, at)
}

/// Two temporaries that interfere and both have a register have different
/// registers.
pub open spec fn proper(graph: Interference, colours: Seq<Option<usize>>) -> bool {
    forall|a: int, b: int|
        0 <= a < colours.len() && 0 <= b < colours.len() && #[trigger] graph.edge(a, b)
            && colours[a] is Some && colours[b] is Some ==> colours[a] != colours[b]
}

/// The number of marks in a row of the matrix.
pub fn count_marks(row: &Vec<bool>) -> (count: usize)
    ensures
        count == count_true(row@),
{
    let mut count: usize = 0;
    let mut index: usize = 0;
    assert(row@.take(0) =~= Seq::<bool>::empty());
    while index < row.len()
        invariant
            index <= row.len(),
            count <= index,
            count == count_true(row@.take(index as int)),
        decreases row.len() - index,
    {
        proof {
            lemma_count_step(row@, index as int);
        }
        if row[index] {
            count += 1;
        }
        index += 1;
    }
    assert(row@.take(row.len() as int) =~= row@);
    count
}

/// Whether spilling `a` is the better choice than spilling `b`: its cost
/// for each neighbour that it frees is lower.
pub open spec fn cheaper(cost_a: u64, degree_a: usize, cost_b: u64, degree_b: usize) -> bool {
    cost_a * degree_b < cost_b * degree_a
}

/// Tests whether spilling the first is the better choice.
pub fn is_cheaper(cost_a: u64, degree_a: usize, cost_b: u64, degree_b: usize) -> (result: bool)
    ensures
        result == cheaper(cost_a, degree_a, cost_b, degree_b),
{
    assert(cost_a * degree_b <= u64::MAX * u64::MAX) by (nonlinear_arith)
        requires
            cost_a <= u64::MAX,
            degree_b <= u64::MAX,
    ;
    assert(cost_b * degree_a <= u64::MAX * u64::MAX) by (nonlinear_arith)
        requires
            cost_b <= u64::MAX,
            degree_a <= u64::MAX,
    ;
    (cost_a as u128) * (degree_b as u128) < (cost_b as u128) * (degree_a as u128)
}

/// The registers that may be handed out and have a number below `bound`.
pub open spec fn free_registers_below(bound: int) -> int {
    bound - if bound > RBP {
        1int
    } else {
        0int
    } - if bound > RSP {
        1int
    } else {
        0int
    }
}

/// Where every register that may be handed out is marked, at least as
/// many marks are set below a bound as there are such registers below it.
pub proof fn lemma_used_below(used: Seq<bool>, bound: int)
    requires
        used.len() == REGISTER_COUNT,
        0 <= bound <= REGISTER_COUNT,
        forall|register: int| is_free_register(register) ==> #[trigger] used[register],
    ensures
        count_true(used.take(bound)) >= free_registers_below(bound),
    decreases bound,
{
    if bound == 0 {
        assert(used.take(0) =~= Seq::<bool>::empty());
    } else {
        lemma_used_below(used, bound - 1);
        lemma_count_step(used, bound - 1);
        if bound - 1 != RBP && bound - 1 != RSP {
            assert(is_free_register(bound - 1));
        }
    }
}

/// Where every register that may be handed out is marked, as many marks
/// are set as there are such registers.
pub proof fn lemma_all_used(used: Seq<bool>)
    requires
        used.len() == REGISTER_COUNT,
        forall|register: int| is_free_register(register) ==> #[trigger] used[register],
    ensures
        count_true(used) >= COLOURS,
{
    lemma_used_below(used, REGISTER_COUNT as int);
    assert(used.take(REGISTER_COUNT as int) =~= used);
}

/// Gives the temporaries their registers, in the order opposite to the one
/// in which they left the graph: each gets the free register with the
/// lowest number that none of its neighbours has, or none if there is no
/// such register.
pub fn assign_colours(graph: &Interference, order: &Vec<usize>) -> (colours: Vec<Option<usize>>)
    requires
        graph.wf(),
        is_order(order@, graph.size()),
    ensures
        is_assignment(*graph, order@, colours@),
{
    let size = graph.adjacent.len();
    let mut colours: Vec<Option<usize>> = Vec::new();
    while colours.len() < size
        invariant
            colours@.len() <= size,
            forall|num: int|
                0 <= num < colours@.len() ==> #[trigger] colours@[num] == if num < REGISTER_COUNT {
                    Some(num as usize)
                } else {
                    None
                },
        decreases size - colours.len(),
    {
        let num = colours.len();
        colours.push(
            if num < REGISTER_COUNT {
                Some(num)
            } else {
                None
            },
        );
    }
    assert(proper(*graph, colours@)) by {
        assert forall|a: int, b: int|
            0 <= a < colours@.len() && 0 <= b < colours@.len() && #[trigger] graph.edge(a, b)
                && colours@[a] is Some && colours@[b] is Some implies colours@[a] != colours@[b] by {
            assert(!graph.edge(a, a));
        }
    }
    let mut left = order.len();
    while left > 0
        invariant
            graph.wf(),
            size == graph.size(),
            is_order(order@, graph.size()),
            left <= order@.len(),
            forall|num: int|
                REGISTER_COUNT <= num < size && !holds_node(order@, num)
                    ==> (#[trigger] colours@[num]) is None,
            colours@.len() == size,
            forall|num: int|
                0 <= num < size && num < REGISTER_COUNT ==> #[trigger] colours@[num] == Some(
                    num as usize,
                ),
            forall|num: int|
                REGISTER_COUNT <= num < size ==> (#[trigger] colours@[num] matches Some(register)
                    ==> is_free_register(register as int)),
            proper(*graph, colours@),
            forall|i: int| 0 <= i < left ==> colours@[#[trigger] order@[i] as int] is None,
            forall|num: int|
                REGISTER_COUNT <= num < size && (#[trigger] colours@[num]) is Some ==> exists|
                    later: int,
                | left <= later < order@.len() && #[trigger] order@[later] == num,
            forall|i: int|
                left <= i < order@.len() && graph.degree(#[trigger] order@[i] as int) < COLOURS
                    ==> colours@[order@[i] as int] is Some,
            forall|at: int|
                left <= at < order@.len() ==> #[trigger] follows_rule(
                    *graph,
                    order@,
                    colours@,
                    at,
                ),
        decreases left,
    {
        left -= 1;
        let temp = order[left];
        let row = &graph.adjacent[temp];
        assert(row@.len() == size);
        let mut used = unmarked(REGISTER_COUNT);
        let mut other: usize = 0;
        assert(row@.take(0) =~= Seq::<bool>::empty());
        assert(count_true(used@) == 0) by {
            lemma_none_marked(used@);
        }
        while other < size
            invariant
                size == graph.size(),
                colours@.len() == size,
                row@.len() == size,
                temp < size,
                row@ == graph.adjacent@[temp as int]@,
                other <= size,
                used@.len() == REGISTER_COUNT,
                forall|num: int|
                    0 <= num < size ==> (#[trigger] colours@[num] matches Some(register)
                        ==> register < REGISTER_COUNT),
                forall|register: int|
                    0 <= register < REGISTER_COUNT ==> #[trigger] used@[register] == held_among(
                        row@,
                        colours@,
                        other as int,
                        register,
                    ),
                count_true(used@) <= count_true(row@.take(other as int)),
            decreases size - other,
        {
            proof {
                lemma_count_step(row@, other as int);
            }
            let ghost marks = used@;
            if row[other] {
                match colours[other] {
                    Some(register) => {
                        proof {
                            lemma_mark(used@, register as int);
                        }
                        used.set(register, true);
                    },
                    None => {},
                }
            }
            assert forall|register: int| 0 <= register < REGISTER_COUNT implies #[trigger] used@[register]
                == held_among(row@, colours@, other + 1, register) by {
                assert(marks[register] == held_among(row@, colours@, other as int, register));
                if held_among(row@, colours@, other + 1, register) {
                    let seen = choose|seen: int|
                        0 <= seen < other + 1 && seen < row@.len() && row@[seen]
                            && #[trigger] colours@[seen] == Some(register as usize);
                    if seen < other {
                        assert(held_among(row@, colours@, other as int, register));
                    }
                }
                if held_among(row@, colours@, other as int, register) {
                    let seen = choose|seen: int|
                        0 <= seen < other && seen < row@.len() && row@[seen]
                            && #[trigger] colours@[seen] == Some(register as usize);
                    assert(held_among(row@, colours@, other + 1, register));
                }
                if row@[other as int] && colours@[other as int] == Some(register as usize) {
                    assert(held_among(row@, colours@, other + 1, register));
                }
            }
            other += 1;
        }
        assert(row@.take(size as int) =~= row@);
        assert forall|register: int| 0 <= register < REGISTER_COUNT implies #[trigger] used@[register]
            == taken(*graph, order@, colours@, left as int, register) by {
            assert(used@[register] == held_among(row@, colours@, size as int, register));
            if held_among(row@, colours@, size as int, register) {
                let seen = choose|seen: int|
                    0 <= seen < size && seen < row@.len() && row@[seen]
                        && #[trigger] colours@[seen] == Some(register as usize);
                assert(graph.edge(order@[left as int] as int, seen));
                if seen >= REGISTER_COUNT {
                    assert(colours@[seen] is Some);
                    let later = choose|later: int|
                        left + 1 <= later < order@.len() && #[trigger] order@[later] == seen;
                    assert(coloured_before(order@, left as int, seen));
                }
            }
            if taken(*graph, order@, colours@, left as int, register) {
                let seen = choose|seen: int|
                    0 <= seen < colours@.len() && #[trigger] graph.edge(
                        order@[left as int] as int,
                        seen,
                    ) && coloured_before(order@, left as int, seen) && colours@[seen] == Some(
                        register as usize,
                    );
                assert(row@[seen]);
                assert(held_among(row@, colours@, size as int, register));
            }
        }
        let mut register: usize = 0;
        let mut found: Option<usize> = None;
        while register < REGISTER_COUNT && found.is_none()
            invariant
                register <= REGISTER_COUNT,
                used@.len() == REGISTER_COUNT,
                forall|earlier: int|
                    0 <= earlier < register && is_free_register(earlier) ==> #[trigger] used@[earlier],
                found matches Some(chosen) ==> chosen == register && is_free_register(
                    chosen as int,
                ) && !used@[chosen as int],
            decreases REGISTER_COUNT - register + if found is None {
                    1nat
                } else {
                    0nat
                },
        {
            if register != RSP && register != RBP && !used[register] {
                found = Some(register);
            } else {
                register += 1;
            }
        }
        let ghost before = colours@;
        match found {
            Some(chosen) => {
                colours.set(temp, Some(chosen));
                assert(proper(*graph, colours@)) by {
                    assert forall|a: int, b: int|
                        0 <= a < colours@.len() && 0 <= b < colours@.len() && #[trigger] graph.edge(
                            a,
                            b,
                        ) && colours@[a] is Some && colours@[b] is Some implies colours@[a]
                        != colours@[b] by {
                        assert(graph.edge(a, b) == graph.edge(b, a));
                        assert(!graph.edge(a, a));
                        if a == temp {
                            assert(before[b] is Some);
                            assert(held_among(row@, before, size as int, before[b]->0 as int));
                        } else if b == temp {
                            assert(before[a] is Some);
                            assert(held_among(row@, before, size as int, before[a]->0 as int));
                        } else {
                            assert(before[a] is Some && before[b] is Some);
                        }
                    }
                }
            },
            None => {
                proof {
                    lemma_all_used(used@);
                }
            },
        }
        proof {
            let value = colours@[temp as int];
            assert(colours@ =~= before.update(order@[left as int] as int, value));
            assert forall|at: int| left <= at < order@.len() implies #[trigger] follows_rule(
                *graph,
                order@,
                colours@,
                at,
            ) by {
                assert forall|any: int| #[trigger]
                    taken(*graph, order@, colours@, at, any) == taken(
                        *graph,
                        order@,
                        before,
                        at,
                        any,
                    ) by {
                    lemma_taken_unchanged(*graph, order@, before, left as int, value, at, any);
                }
                assert forall|any: int|
                    taken(*graph, order@, colours@, at, any) == #[trigger] taken(
                        *graph,
                        order@,
                        before,
                        at,
                        any,
                    ) by {
                    lemma_taken_unchanged(*graph, order@, before, left as int, value, at, any);
                }
                if at > left {
                    assert(order@[at] != order@[left as int]);
                    assert(follows_rule(*graph, order@, before, at));
                    assert(colours@[order@[at] as int] == before[order@[at] as int]);
                    match before[order@[at] as int] {
                        Some(chosen) => {
                            assert(!taken(*graph, order@, before, at, chosen as int));
                            assert forall|lower: int|
                                0 <= lower < chosen && is_free_register(
                                    lower,
                                ) implies #[trigger] taken(*graph, order@, colours@, at, lower) by {
                                assert(taken(*graph, order@, before, at, lower));
                            }
                        },
                        None => {
                            assert forall|free: int| is_free_register(free) implies #[trigger] taken(
                                *graph,
                                order@,
                                colours@,
                                at,
                                free,
                            ) by {
                                assert(taken(*graph, order@, before, at, free));
                            }
                        },
                    }
                } else {
                    match found {
                        Some(chosen) => {
                            assert(colours@[order@[at] as int] == Some(chosen));
                            assert(used@[chosen as int] == taken(
                                *graph,
                                order@,
                                before,
                                left as int,
                                chosen as int,
                            ));
                            assert forall|lower: int|
                                0 <= lower < chosen && is_free_register(
                                    lower,
                                ) implies #[trigger] taken(*graph, order@, colours@, at, lower) by {
                                assert(used@[lower]);
                                assert(used@[lower] == taken(
                                    *graph,
                                    order@,
                                    before,
                                    left as int,
                                    lower,
                                ));
                            }
                        },
                        None => {
                            assert(colours@[order@[at] as int] is None);
                            assert forall|free: int| is_free_register(free) implies #[trigger] taken(
                                *graph,
                                order@,
                                colours@,
                                at,
                                free,
                            ) by {
                                assert(used@[free]);
                                assert(used@[free] == taken(
                                    *graph,
                                    order@,
                                    before,
                                    left as int,
                                    free,
                                ));
                            }
                        },
                    }
                }
            }
            assert forall|i: int| 0 <= i < left implies colours@[#[trigger] order@[i] as int]
                is None by {
                assert(order@[i] != order@[left as int]);
            }
            assert forall|i: int|
                left <= i < order@.len() && graph.degree(#[trigger] order@[i] as int)
                    < COLOURS implies colours@[order@[i] as int] is Some by {
                if i > left {
                    assert(order@[i] != order@[left as int]);
                }
            }
            assert forall|num: int|
                REGISTER_COUNT <= num < size && (#[trigger] colours@[num]) is Some implies exists|
                later: int,
            | left <= later < order@.len() && #[trigger] order@[later] == num by {
                if num == temp {
                    assert(order@[left as int] == num);
                } else {
                    assert(before[num] is Some);
                    let later = choose|later: int|
                        left + 1 <= later < order@.len() && #[trigger] order@[later] == num;
                    assert(left <= later);
                }
            }
            assert forall|num: int|
                REGISTER_COUNT <= num < size && !holds_node(order@, num) implies (
            #[trigger] colours@[num]) is None by {
                if num == temp {
                    assert(order@[left as int] == num);
                    assert(holds_node(order@, num));
                }
            }
        }
    }
    colours
}

/// A list without marks has none set.
pub proof fn lemma_none_marked(marks: Seq<bool>)
    requires
        forall|i: int| 0 <= i < marks.len() ==> !marks[i],
    ensures
        count_true(marks) == 0,
    decreases marks.len(),
{
    if marks.len() > 0 {
        lemma_none_marked(marks.drop_last());
    }
}

/// The temporaries among the first `count` that have no register, by
/// rising number.
pub open spec fn uncoloured(colours: Seq<Option<usize>>, count: int) -> Seq<Temp>
    decreases count,
{
    if count <= 0 || count > colours.len() {
        Seq::empty()
    } else if colours[count - 1] is None {
        uncoloured(colours, count - 1).push(Temp { num: (count - 1) as usize })
    } else {
        uncoloured(colours, count - 1)
    }
}

/// The temporaries without a register are exactly those that the list
/// holds, each once.
pub proof fn lemma_uncoloured(colours: Seq<Option<usize>>, count: int)
    requires
        0 <= count <= colours.len(),
        colours.len() <= usize::MAX,
    ensures
        forall|temp: Temp|
            uncoloured(colours, count).contains(temp) <==> (temp.num < count
                && colours[temp.num as int] is None),
        uncoloured(colours, count).no_duplicates(),
    decreases count,
{
    if count > 0 {
        lemma_uncoloured(colours, count - 1);
        let before = uncoloured(colours, count - 1);
        let all = uncoloured(colours, count);
        let last = Temp { num: (count - 1) as usize };
        if colours[count - 1] is None {
            assert forall|temp: Temp|
                all.contains(temp) <==> (temp.num < count && colours[temp.num as int]
                    is None) by {
                if all.contains(temp) {
                    let i = choose|i: int| 0 <= i < all.len() && all[i] == temp;
                    if i < before.len() {
                        assert(before[i] == temp);
                        assert(before.contains(temp));
                    }
                }
                if temp.num < count && colours[temp.num as int] is None {
                    if temp.num < count - 1 {
                        assert(before.contains(temp));
                        let i = choose|i: int| 0 <= i < before.len() && before[i] == temp;
                        assert(all[i] == temp);
                    } else {
                        assert(all[before.len() as int] == temp);
                    }
                }
            }
            assert forall|i: int, j: int|
                0 <= i < all.len() && 0 <= j < all.len() && i != j implies all[i] != all[j] by {
                if i < before.len() {
                    assert(before.contains(before[i]));
                }
                if j < before.len() {
                    assert(before.contains(before[j]));
                }
            }
        }
    }
}

/// The temporaries that were left without a register, by rising number.
pub fn spilled_temps(colours: &Vec<Option<usize>>) -> (spilled: Vec<Temp>)
    ensures
        spilled@ == uncoloured(colours@, colours@.len() as int),
        forall|temp: Temp|
            spilled@.contains(temp) <==> (temp.num < colours@.len() && colours@[temp.num as int]
                is None),
        spilled@.no_duplicates(),
{
    let mut spilled: Vec<Temp> = Vec::new();
    let mut num: usize = 0;
    while num < colours.len()
        invariant
            num <= colours.len(),
            spilled@ == uncoloured(colours@, num as int),
        decreases colours.len() - num,
    {
        if colours[num].is_none() {
            spilled.push(Temp { num });
        }
        num += 1;
    }
    proof {
        lemma_uncoloured(colours@, colours@.len() as int);
    }
    spilled
}

} // verus!
