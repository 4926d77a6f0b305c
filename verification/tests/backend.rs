use tiger::allocate::{allocate, analyse, node_depth, spill_costs, weight_of, AllocError, Spill};
use tiger::apply::apply_colours;
use tiger::assembly::Instruction;
use tiger::coalesce::{colour, move_pairs, reduce, MovePair};
use tiger::colour::{assign_colours, spilled_temps};
use tiger::emit::{CallSite, PointerLocation};
use tiger::flow::{find_label, flow_graph};
use tiger::frame::Frame;
use tiger::interference::{interference, Interference};
use tiger::liveness::{holds_temp, liveness, temp_liveness};
use tiger::pointers::{live_pointers, pointer_map};
use tiger::spill::spill_temp;
use tiger::temp::{Label, Temp, TempSource};

fn temps(nums: &[usize]) -> Vec<Temp> {
    nums.iter().map(|&num| Temp { num }).collect()
}

fn oper(assembly: &str, destination: &[usize], source: &[usize]) -> Instruction {
    Instruction::Oper {
        assembly: assembly.to_string(),
        destination: temps(destination),
        source: temps(source),
        jump: None,
    }
}

fn jump(assembly: &str, source: &[usize], labels: &[usize]) -> Instruction {
    Instruction::Oper {
        assembly: assembly.to_string(),
        destination: vec![],
        source: temps(source),
        jump: Some(labels.iter().map(|&num| Label::Num(num)).collect()),
    }
}

fn mv(destination: usize, source: usize) -> Instruction {
    Instruction::Move {
        assembly: "mov 'd0, 's0".to_string(),
        destination: Temp { num: destination },
        source: Temp { num: source },
    }
}

fn label(num: usize) -> Instruction {
    Instruction::Label { assembly: format!("l{}:", num), label: Label::Num(num) }
}

fn looping() -> Vec<Instruction> {
    vec![
        label(1),
        oper("add 'd0, 's1", &[16], &[16, 17]),
        jump("jl l1", &[], &[1, 2]),
        label(2),
        jump("", &[16], &[]),
    ]
}

fn proper(graph: &Interference, colours: &[Option<usize>]) -> bool {
    for a in 0..colours.len() {
        for b in 0..colours.len() {
            if graph.adjacent[a][b] && colours[a].is_some() && colours[a] == colours[b] {
                return false;
            }
        }
    }
    true
}

fn clique(extra: usize) -> Interference {
    let size = 16 + extra;
    let mut adjacent = vec![vec![false; size]; size];
    for a in 16..size {
        for b in 16..size {
            adjacent[a][b] = a != b;
        }
    }
    Interference { adjacent }
}

#[test]
fn flow_graph_of_a_loop() {
    let graph = flow_graph(&looping());
    assert_eq!(graph.successors, vec![vec![1], vec![2], vec![0, 3], vec![4], vec![]]);
    assert_eq!(graph.defs, vec![vec![], temps(&[16]), vec![], vec![], vec![]]);
    assert_eq!(graph.uses, vec![vec![], temps(&[16, 17]), vec![], vec![], temps(&[16])]);
    assert_eq!(graph.moves, vec![false; 5]);
}

#[test]
fn flow_graph_marks_moves_and_skips_unknown_labels() {
    let instructions = vec![mv(16, 17), jump("jmp l9", &[], &[9]), oper("nop", &[], &[])];
    let graph = flow_graph(&instructions);
    assert_eq!(graph.moves, vec![true, false, false]);
    assert_eq!(graph.successors, vec![vec![1], vec![], vec![]]);
    assert_eq!(graph.defs[0], temps(&[16]));
    assert_eq!(graph.uses[0], temps(&[17]));
}

#[test]
fn find_label_gives_the_first_definition() {
    let instructions = vec![oper("nop", &[], &[]), label(4), label(5), label(4)];
    assert_eq!(find_label(&instructions, Label::Num(4)), Some(1));
    assert_eq!(find_label(&instructions, Label::Num(5)), Some(2));
    assert_eq!(find_label(&instructions, Label::Num(6)), None);
}

#[test]
fn liveness_in_a_loop() {
    let graph = flow_graph(&looping());
    let (live_in, live_out) = temp_liveness(&graph, Temp { num: 16 });
    assert_eq!(live_in, vec![true, true, true, true, true]);
    assert_eq!(live_out, vec![true, true, true, true, false]);
    let (live_in, live_out) = temp_liveness(&graph, Temp { num: 17 });
    assert_eq!(live_in, vec![true, true, true, false, false]);
    assert_eq!(live_out, vec![true, true, true, false, false]);
    let (live_in, live_out) = temp_liveness(&graph, Temp { num: 3 });
    assert_eq!(live_in, vec![false; 5]);
    assert_eq!(live_out, vec![false; 5]);
}

#[test]
fn liveness_ends_at_the_last_use_and_starts_at_the_definition() {
    let instructions = vec![
        oper("mov 'd0, 1", &[16], &[]),
        oper("mov 'd0, 's0", &[17], &[16]),
        oper("push 's0", &[], &[17]),
    ];
    let graph = flow_graph(&instructions);
    let live = liveness(&graph, 18);
    assert_eq!(live.live_in.len(), 18);
    assert_eq!(live.live_in[16], vec![false, true, false]);
    assert_eq!(live.live_out[16], vec![true, false, false]);
    assert_eq!(live.live_in[17], vec![false, false, true]);
    assert_eq!(live.live_out[17], vec![false, true, false]);
}

#[test]
fn holds_temp_looks_through_the_list() {
    assert!(holds_temp(&temps(&[1, 5, 9]), Temp { num: 9 }));
    assert!(!holds_temp(&temps(&[1, 5, 9]), Temp { num: 2 }));
    assert!(!holds_temp(&vec![], Temp { num: 2 }));
}

#[test]
fn interference_of_a_loop() {
    let graph = flow_graph(&looping());
    let live = liveness(&graph, 18);
    let result = interference(&graph, &live, 18);
    for a in 0..18 {
        for b in 0..18 {
            let expected = (a == 16 && b == 17) || (a == 17 && b == 16);
            assert_eq!(result.adjacent[a][b], expected, "{} {}", a, b);
        }
    }
    assert!(result.interferes(Temp { num: 16 }, Temp { num: 17 }));
    assert!(!result.interferes(Temp { num: 16 }, Temp { num: 16 }));
    assert!(!result.interferes(Temp { num: 16 }, Temp { num: 40 }));
    assert_eq!(result.neighbours(Temp { num: 17 }), temps(&[16]));
    assert_eq!(result.neighbours(Temp { num: 2 }), vec![]);
}

#[test]
fn a_move_does_not_make_its_operands_interfere() {
    let instructions = vec![
        oper("mov 'd0, 1", &[16], &[]),
        mv(17, 16),
        oper("add 'd0, 's1", &[18], &[16, 17]),
    ];
    let graph = flow_graph(&instructions);
    let live = liveness(&graph, 19);
    let result = interference(&graph, &live, 19);
    assert!(!result.interferes(Temp { num: 16 }, Temp { num: 17 }));
    let instructions = vec![
        oper("mov 'd0, 1", &[16], &[]),
        oper("mov 'd0, 's0", &[17], &[16]),
        oper("add 'd0, 's1", &[18], &[16, 17]),
    ];
    let graph = flow_graph(&instructions);
    let live = liveness(&graph, 19);
    let result = interference(&graph, &live, 19);
    assert!(result.interferes(Temp { num: 16 }, Temp { num: 17 }));
    assert!(result.interferes(Temp { num: 17 }, Temp { num: 16 }));
}

#[test]
fn every_temporary_leaves_the_graph_once() {
    let graph = clique(20);
    let costs = vec![1; 36];
    let reduction = reduce(&graph, &vec![], &costs);
    let mut order = reduction.order;
    assert_eq!(order.len(), 20);
    order.sort();
    assert_eq!(order, (16..36).collect::<Vec<_>>());
    assert_eq!(reduction.alias, (0..36).collect::<Vec<_>>());
    assert_eq!(reduction.merged, graph);
}

#[test]
fn the_cheapest_temporary_is_the_first_candidate_for_a_spill() {
    let graph = clique(16);
    let mut costs = vec![10; 32];
    costs[20] = 1;
    assert_eq!(reduce(&graph, &vec![], &costs).order[0], 20);
    let mut costs = vec![10; 32];
    costs[16] = u64::MAX;
    costs[17] = 2;
    assert_eq!(reduce(&graph, &vec![], &costs).order[0], 17);
}

#[test]
fn temporaries_of_low_degree_leave_first() {
    let mut graph = clique(15);
    let size = graph.adjacent.len();
    for row in graph.adjacent.iter_mut() {
        row.push(false);
    }
    graph.adjacent.push(vec![false; size + 1]);
    graph.adjacent[16][size] = true;
    graph.adjacent[size][16] = true;
    let reduction = reduce(&graph, &vec![], &vec![1; size + 1]);
    assert_eq!(reduction.order[0], size);
}

#[test]
fn the_ends_of_a_move_are_made_one() {
    let graph = clique(2);
    let mut free = graph.clone();
    free.adjacent[16][17] = false;
    free.adjacent[17][16] = false;
    let moves = vec![MovePair { destination: 16, source: 17 }];
    let (reduction, colours) = colour(&free, &moves, &vec![1; 18]);
    assert_eq!(reduction.alias[17], 16);
    assert_eq!(reduction.order, vec![16]);
    assert_eq!(colours[16], Some(0));
    assert_eq!(colours[17], Some(0));
    let (reduction, colours) = colour(&graph, &moves, &vec![1; 18]);
    assert_eq!(reduction.alias[16], 16);
    assert_eq!(reduction.alias[17], 17);
    assert_ne!(colours[16], colours[17]);
}

#[test]
fn a_temporary_takes_the_register_at_the_other_end_of_a_move() {
    let graph = clique(1);
    let (reduction, colours) =
        colour(&graph, &vec![MovePair { destination: 0, source: 16 }], &vec![1; 17]);
    assert_eq!(reduction.alias[16], 0);
    assert_eq!(reduction.order, vec![]);
    assert_eq!(colours[16], Some(0));
    let (_, colours) = colour(&graph, &vec![MovePair { destination: 16, source: 5 }], &vec![1; 17]);
    assert_eq!(colours[16], Some(5));
}

#[test]
fn stack_and_frame_pointer_are_never_handed_out() {
    let graph = clique(1);
    for register in [6, 7] {
        let (reduction, colours) =
            colour(&graph, &vec![MovePair { destination: 16, source: register }], &vec![1; 17]);
        assert_eq!(reduction.alias[16], 16);
        assert_eq!(colours[16], Some(0));
    }
}

#[test]
fn a_move_to_an_interfering_register_is_given_up() {
    let mut graph = clique(1);
    graph.adjacent[16][0] = true;
    graph.adjacent[0][16] = true;
    let (reduction, colours) =
        colour(&graph, &vec![MovePair { destination: 0, source: 16 }], &vec![1; 17]);
    assert_eq!(reduction.alias[16], 16);
    assert_eq!(colours[16], Some(1));
}

#[test]
fn moves_of_a_flow_graph() {
    let instructions = vec![mv(16, 17), oper("add 'd0, 's1", &[16], &[16, 18]), mv(0, 16)];
    assert_eq!(
        move_pairs(&flow_graph(&instructions)),
        vec![MovePair { destination: 16, source: 17 }, MovePair { destination: 0, source: 16 }]
    );
}

#[test]
fn colouring_a_small_clique() {
    let graph = clique(14);
    let (_, colours) = colour(&graph, &vec![], &vec![1; 30]);
    assert_eq!(colours.len(), 30);
    for register in 0..16 {
        assert_eq!(colours[register], Some(register));
    }
    let mut used: Vec<usize> = colours[16..].iter().map(|colour| colour.unwrap()).collect();
    used.sort();
    assert_eq!(used, vec![0, 1, 2, 3, 4, 5, 8, 9, 10, 11, 12, 13, 14, 15]);
    assert!(proper(&graph, &colours));
    assert_eq!(spilled_temps(&colours), vec![]);
}

#[test]
fn colouring_a_clique_that_is_too_large() {
    let graph = clique(16);
    let (_, colours) = colour(&graph, &vec![], &vec![1; 32]);
    assert!(proper(&graph, &colours));
    let spilled = spilled_temps(&colours);
    assert_eq!(spilled.len(), 2);
    for colour in colours[16..].iter().flatten() {
        assert!(*colour < 16 && *colour != 6 && *colour != 7);
    }
}

#[test]
fn colouring_avoids_the_registers_of_neighbours() {
    let mut graph = clique(1);
    for register in [0, 1, 2] {
        graph.adjacent[16][register] = true;
        graph.adjacent[register][16] = true;
    }
    let colours = assign_colours(&graph, &vec![16]);
    assert_eq!(colours[16], Some(3));
    let colours = assign_colours(&graph, &vec![]);
    assert_eq!(colours[16], None);
    assert_eq!(colours[3], Some(3));
}

#[test]
fn spill_costs_count_reads_and_writes_ten_times_for_each_loop() {
    let graph = flow_graph(&looping());
    assert_eq!(node_depth(&graph, 0), 1);
    assert_eq!(node_depth(&graph, 1), 1);
    assert_eq!(node_depth(&graph, 2), 1);
    assert_eq!(node_depth(&graph, 3), 0);
    assert_eq!(node_depth(&graph, 4), 0);
    let costs = spill_costs(&graph, 20, 18);
    assert_eq!(costs[16], 21);
    assert_eq!(costs[17], 10);
    assert_eq!(costs[0], 0);
    assert_eq!(costs[18], u64::MAX);
    assert_eq!(costs[19], u64::MAX);
}

#[test]
fn nested_loops_weigh_more() {
    let instructions = vec![
        label(1),
        label(2),
        oper("add 'd0, 's1", &[16], &[16, 16]),
        jump("jl l2", &[], &[2, 3]),
        label(3),
        jump("jl l1", &[17], &[1, 4]),
        label(4),
    ];
    let graph = flow_graph(&instructions);
    let depths: Vec<usize> = (0..7).map(|node| node_depth(&graph, node)).collect();
    assert_eq!(depths, vec![1, 2, 2, 2, 1, 1, 0]);
    let costs = spill_costs(&graph, 18, 18);
    assert_eq!(costs[16], 300);
    assert_eq!(costs[17], 10);
    assert_eq!(weight_of(0), 1);
    assert_eq!(weight_of(3), 1000);
    assert_eq!(weight_of(18), 1_000_000_000_000_000_000);
    assert_eq!(weight_of(40), 1_000_000_000_000_000_000);
}

#[test]
fn spilling_wraps_each_instruction_that_touches_the_temporary() {
    let mut source = TempSource::new(100);
    let instructions =
        vec![mv(16, 17), oper("add 'd0, 's1", &[16], &[16, 18]), oper("push 's0", &[], &[18])];
    let result = spill_temp(instructions, Temp { num: 16 }, -8, &mut source).unwrap();
    assert_eq!(
        result,
        vec![
            mv(100, 17),
            oper("mov [rbp + -8], 's0", &[], &[100]),
            oper("mov 'd0, [rbp + -8]", &[101], &[]),
            oper("add 'd0, 's1", &[101], &[101, 18]),
            oper("mov [rbp + -8], 's0", &[], &[101]),
            oper("push 's0", &[], &[18]),
        ]
    );
    assert_eq!(source.peek_temp(), 102);
}

#[test]
fn a_spilled_temporary_that_is_never_read_is_not_stored() {
    let mut source = TempSource::new(100);
    let instructions = vec![oper("mov 'd0, 1", &[16], &[]), mv(16, 17), oper("push 's0", &[], &[17])];
    let result = spill_temp(instructions, Temp { num: 16 }, -8, &mut source).unwrap();
    assert_eq!(
        result,
        vec![oper("mov 'd0, 1", &[100], &[]), mv(101, 17), oper("push 's0", &[], &[17])]
    );
}

#[test]
fn spilling_fails_when_temporaries_run_out() {
    let mut source = TempSource::new(usize::MAX);
    assert_eq!(spill_temp(vec![mv(16, 17)], Temp { num: 16 }, -8, &mut source), None);
    assert_eq!(
        spill_temp(vec![mv(18, 17)], Temp { num: 16 }, -8, &mut source),
        Some(vec![mv(18, 17)])
    );
}

#[test]
fn applying_colours_drops_moves_to_the_same_register() {
    let mut colours: Vec<Option<usize>> = (0..16).map(Some).collect();
    colours.extend([Some(0), Some(0), Some(1), None]);
    let instructions = vec![
        mv(16, 17),
        mv(18, 16),
        oper("add 'd0, 's1", &[18], &[18, 17]),
        oper("push 's0", &[], &[19]),
        label(3),
    ];
    let result = apply_colours(&instructions, &colours);
    assert_eq!(
        result,
        vec![mv(1, 0), oper("add 'd0, 's1", &[1], &[1, 0]), oper("push 's0", &[], &[19]), label(3)]
    );
    assert_eq!(result[0].to_string(), "mov rbx, rax");
    assert_eq!(result[1].to_string(), "add rbx, rax");
}

#[test]
fn analysis_gives_interfering_temporaries_different_registers() {
    let instructions = vec![
        oper("mov 'd0, 1", &[16], &[]),
        oper("mov 'd0, 2", &[17], &[]),
        oper("add 'd0, 's1", &[16], &[16, 17]),
        mv(0, 16),
        jump("", &[0], &[]),
    ];
    let analysis = analyse(&instructions, 18, 18);
    assert!(analysis.interference.interferes(Temp { num: 16 }, Temp { num: 17 }));
    assert!(analysis.colours[16].is_some());
    assert!(analysis.colours[17].is_some());
    assert_ne!(analysis.colours[16], analysis.colours[17]);
    assert!(proper(&analysis.interference, &analysis.colours));
}

#[test]
fn allocation_without_spills() {
    let instructions = vec![
        oper("mov 'd0, 1", &[16], &[]),
        oper("mov 'd0, 2", &[17], &[]),
        oper("add 'd0, 's1", &[16], &[16, 17]),
        mv(0, 16),
        jump("", &[0], &[]),
    ];
    let mut source = TempSource::new(18);
    let mut frame = Frame::new(Label::Num(0), &vec![], &mut source).unwrap();
    let allocation = allocate(&instructions, &mut frame, &vec![], &vec![], &vec![], &mut source).unwrap();
    assert_eq!(allocation.spills, vec![]);
    assert_eq!(frame.slots, 0);
    assert_eq!(allocation.program, instructions);
    let text: Vec<String> =
        allocation.instructions.iter().map(|instruction| instruction.to_string()).collect();
    assert_eq!(text, vec!["mov rax, 1", "mov rbx, 2", "add rax, rbx", ""]);
    assert_eq!(allocation.homes.len(), 18);
    assert_eq!(allocation.homes[16], PointerLocation::Register(0));
    assert_eq!(allocation.homes[17], PointerLocation::Register(1));
    assert_eq!(allocation.analysis.reduction.alias[16], 0);
}

#[test]
fn allocation_refuses_unknown_temporaries() {
    let mut source = TempSource::new(18);
    let mut frame = Frame::new(Label::Num(0), &vec![], &mut source).unwrap();
    let result = allocate(&vec![mv(16, 18)], &mut frame, &vec![], &vec![], &vec![], &mut source);
    assert_eq!(result.err(), Some(AllocError::UnknownTemp));
}

#[test]
fn allocation_spills_when_registers_run_out() {
    let mut instructions = Vec::new();
    for num in 16..31 {
        instructions.push(oper("mov 'd0, 1", &[num], &[]));
    }
    for num in (16..31).rev() {
        instructions.push(oper("push 's0", &[], &[num]));
    }
    let mut source = TempSource::new(31);
    let mut frame = Frame::new(Label::Num(0), &vec![true], &mut source).unwrap();
    let allocation = allocate(&instructions, &mut frame, &vec![], &vec![], &vec![], &mut source).unwrap();
    assert_eq!(allocation.spills.len(), 1);
    let Spill { temp, offset } = allocation.spills[0];
    assert_eq!(offset, -16);
    assert_eq!(frame.slots, 2);
    assert_eq!(allocation.homes[temp.num], PointerLocation::Frame(-16));
    assert_eq!(source.peek_temp(), 33);
    assert_eq!(allocation.program.len(), 32);
    assert_eq!(allocation.instructions.len(), 32);
    assert!(proper(&allocation.analysis.interference, &allocation.analysis.colours));
    for instruction in &allocation.instructions {
        if let Instruction::Oper { destination, source, .. } = instruction {
            assert!(destination.iter().chain(source.iter()).all(|temp| temp.num < 16));
        }
    }
    for colour in &allocation.analysis.colours {
        assert!(colour.is_some());
    }
    let stores = allocation
        .instructions
        .iter()
        .filter(|instruction| instruction.to_string().starts_with("mov [rbp + -16], "))
        .count();
    let loads = allocation
        .instructions
        .iter()
        .filter(|instruction| instruction.to_string().ends_with(", [rbp + -16]"))
        .count();
    assert_eq!((stores, loads), (1, 1));
}

#[test]
fn allocation_fails_when_an_instruction_needs_too_many_registers() {
    let mut instructions = Vec::new();
    for num in 16..31 {
        instructions.push(oper("mov 'd0, 1", &[num], &[]));
    }
    let all: Vec<usize> = (16..31).collect();
    instructions.push(oper("use", &[], &all));
    let mut source = TempSource::new(31);
    let mut frame = Frame::new(Label::Num(0), &vec![], &mut source).unwrap();
    let result = allocate(&instructions, &mut frame, &vec![], &vec![], &vec![], &mut source);
    assert!(matches!(result.err(), Some(AllocError::Unspillable(_))));
}

#[test]
fn pointer_map_lists_the_live_pointers_at_each_call() {
    let caller_saved = [0, 2, 3, 4, 5, 8, 9, 10, 11];
    let instructions = vec![
        oper("mov 'd0, 1", &[16], &[]),
        oper("mov 'd0, 2", &[17], &[]),
        oper("mov 'd0, 3", &[18], &[]),
        label(5),
        oper("call allocRecord", &caller_saved, &[]),
        oper("mov ['s0], 's1", &[], &[16, 18]),
        label(6),
        oper("call print", &caller_saved, &[]),
        oper("push 's0", &[], &[17]),
        label(7),
    ];
    let mut source = TempSource::new(19);
    let mut frame = Frame::new(Label::Num(0), &vec![], &mut source).unwrap();
    let call_sites = vec![Label::Num(5), Label::Num(6), Label::Num(7), Label::Num(8)];
    let pointers = temps(&[16, 17]);
    let allocation =
        allocate(&instructions, &mut frame, &call_sites, &pointers, &vec![], &mut source).unwrap();
    let home = |num: usize| allocation.homes[num];
    assert_eq!(
        allocation.pointer_map,
        vec![
            CallSite { label: Label::Num(5), pointers: vec![home(16), home(17)] },
            CallSite { label: Label::Num(6), pointers: vec![home(17)] },
            CallSite { label: Label::Num(7), pointers: vec![] },
            CallSite { label: Label::Num(8), pointers: vec![] },
        ]
    );
    for num in 16..19 {
        match home(num) {
            PointerLocation::Register(register) => assert!([1, 12, 13, 14, 15].contains(&register)),
            PointerLocation::Frame(_) => panic!("nothing should be spilled"),
        }
    }
    assert_ne!(home(16), home(17));
}

#[test]
fn pointer_map_of_given_liveness() {
    let instructions = vec![oper("mov 'd0, 1", &[16], &[]), label(5), oper("call f", &[0], &[]), oper("push 's0", &[], &[16])];
    let graph = flow_graph(&instructions);
    let live = liveness(&graph, 17);
    let mut homes = vec![PointerLocation::Register(0); 16];
    homes.push(PointerLocation::Frame(-24));
    assert_eq!(live_pointers(&live, &temps(&[16, 3, 99]), &homes, 2), vec![PointerLocation::Frame(-24)]);
    assert_eq!(live_pointers(&live, &temps(&[16]), &homes, 3), vec![]);
    assert_eq!(live_pointers(&live, &temps(&[16]), &homes, 50), vec![]);
    assert_eq!(
        pointer_map(&instructions, &live, &vec![Label::Num(5)], &temps(&[16]), &homes, &vec![]),
        vec![CallSite { label: Label::Num(5), pointers: vec![PointerLocation::Frame(-24)] }]
    );
    assert_eq!(
        pointer_map(
            &instructions,
            &live,
            &vec![Label::Num(5), Label::Num(9)],
            &temps(&[16]),
            &homes,
            &vec![-16, -32]
        ),
        vec![
            CallSite {
                label: Label::Num(5),
                pointers: vec![
                    PointerLocation::Frame(-24),
                    PointerLocation::Frame(-16),
                    PointerLocation::Frame(-32),
                ],
            },
            CallSite { label: Label::Num(9), pointers: vec![] },
        ]
    );
}

#[test]
fn allocation_fails_when_the_frame_is_full() {
    let mut instructions = Vec::new();
    for num in 16..31 {
        instructions.push(oper("mov 'd0, 1", &[num], &[]));
    }
    for num in (16..31).rev() {
        instructions.push(oper("push 's0", &[], &[num]));
    }
    let mut source = TempSource::new(31);
    let mut frame = Frame { name: Label::Num(0), formals: vec![], slots: 0x0fff_ffff };
    let result = allocate(&instructions, &mut frame, &vec![], &vec![], &vec![], &mut source);
    assert_eq!(result.err(), Some(AllocError::OutOfFrame));
    assert_eq!(frame.slots, 0x0fff_ffff);
}
