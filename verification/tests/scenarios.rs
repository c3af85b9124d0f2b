use emars::instruction::{AddressMode, Field, Instruction, Modifier, Opcode, Process};
use emars::loader::{place, ParsedField, ParsedInstruction, Warrior};
use emars::scheduler::{full_step, part_step, play, run, BattleOutcome};
use std::collections::VecDeque;

const CORESIZE: usize = 8000;

fn cell(
    opcode: Opcode,
    modifier: Modifier,
    mode_a: AddressMode,
    a: usize,
    mode_b: AddressMode,
    b: usize,
) -> Instruction {
    Instruction {
        opcode,
        modifier,
        field_a: Field { address_mode: mode_a, value: a },
        field_b: Field { address_mode: mode_b, value: b },
    }
}

fn dat() -> Instruction {
    cell(Opcode::Dat, Modifier::F, AddressMode::Immediate, 0, AddressMode::Immediate, 0)
}

fn imp() -> Instruction {
    cell(Opcode::Mov, Modifier::I, AddressMode::Direct, 0, AddressMode::Direct, 1)
}

fn nop() -> Instruction {
    cell(Opcode::Nop, Modifier::F, AddressMode::Direct, 0, AddressMode::Direct, 0)
}

fn solo(program: &[Instruction]) -> (Vec<Instruction>, Vec<VecDeque<Process>>) {
    let mut core = vec![dat(); CORESIZE];
    for (i, instruction) in program.iter().enumerate() {
        core[i] = *instruction;
    }
    (core, vec![VecDeque::from([Process { team: 0, pointer: 0 }])])
}

fn parsed(
    opcode: Opcode,
    modifier: Modifier,
    mode_a: AddressMode,
    a: i32,
    mode_b: AddressMode,
    b: i32,
) -> ParsedInstruction {
    ParsedInstruction {
        opcode,
        modifier,
        field_a: ParsedField { address_mode: mode_a, value: a },
        field_b: ParsedField { address_mode: mode_b, value: b },
    }
}

#[test]
fn imp_copies_itself_one_cell_on() {
    let (mut core, mut queues) = solo(&[imp()]);
    let mut turn = 0;
    full_step(&mut core, CORESIZE, &mut queues, &mut turn);
    assert_eq!(core[0], imp());
    assert_eq!(core[1], imp());
    assert_eq!(core[2], dat());
    assert_eq!(queues.len(), 1);
    assert_eq!(queues[0].len(), 1);
    assert_eq!(queues[0][0], Process { team: 0, pointer: 1 });
    assert_eq!(turn, 0);
}

#[test]
fn imp_fills_the_core_in_coresize_steps() {
    let (mut core, mut queues) = solo(&[imp()]);
    let mut turn = 0;
    for _ in 0..CORESIZE {
        full_step(&mut core, CORESIZE, &mut queues, &mut turn);
    }
    assert_eq!(core.len(), CORESIZE);
    assert!(core.iter().all(|c| *c == imp()));
    assert_eq!(queues[0][0], Process { team: 0, pointer: 0 });
}

#[test]
fn dwarf_throws_its_first_bomb() {
    let dwarf = [
        cell(Opcode::Add, Modifier::AB, AddressMode::Immediate, 4, AddressMode::Direct, 3),
        cell(Opcode::Mov, Modifier::I, AddressMode::Direct, 2, AddressMode::IndirectB, 2),
        cell(Opcode::Jmp, Modifier::B, AddressMode::Direct, CORESIZE - 2, AddressMode::Direct, 0),
        dat(),
    ];
    let (mut core, mut queues) = solo(&dwarf);
    let mut turn = 0;
    for _ in 0..3 {
        full_step(&mut core, CORESIZE, &mut queues, &mut turn);
    }
    assert_eq!(core[3].field_b.value, 4);
    assert_eq!(core[3].field_a.value, 0);
    assert_eq!(core[4], dat());
    let bomb = cell(Opcode::Dat, Modifier::F, AddressMode::Immediate, 0, AddressMode::Immediate, 4);
    assert_eq!(core[7], bomb);
    assert_eq!(core[0], dwarf[0]);
    assert_eq!(core[1], dwarf[1]);
    assert_eq!(core[2], dwarf[2]);
    assert_eq!(queues[0][0], Process { team: 0, pointer: 0 });
}

#[test]
fn dat_kills_the_only_process_and_the_battle_is_tied() {
    let (mut core, mut queues) = solo(&[dat()]);
    let mut turn = 0;
    let before = core.clone();
    full_step(&mut core, CORESIZE, &mut queues, &mut turn);
    assert!(queues.is_empty());
    assert_eq!(turn, 0);
    assert_eq!(core, before);

    let (mut core, mut queues) = solo(&[dat()]);
    let mut turn = 0;
    let mut step_count = 0;
    let outcome = run(&mut core, CORESIZE, &mut queues, &mut turn, &mut step_count, 80000);
    assert_eq!(outcome, BattleOutcome::Tie);
    assert_eq!(step_count, 1);
    assert!(queues.is_empty());
}

#[test]
fn dat_kills_and_the_other_team_wins() {
    let mut core = vec![dat(); CORESIZE];
    core[4000] = imp();
    let mut queues = vec![
        VecDeque::from([Process { team: 0, pointer: 0 }]),
        VecDeque::from([Process { team: 1, pointer: 4000 }]),
    ];
    let mut turn = 0;
    let mut step_count = 0;
    let outcome = run(&mut core, CORESIZE, &mut queues, &mut turn, &mut step_count, 80000);
    assert_eq!(outcome, BattleOutcome::Win(1));
    assert_eq!(step_count, 1);
    assert_eq!(queues.len(), 1);
    assert_eq!(queues[0][0].team, 1);
    assert_eq!(turn, 0);
}

#[test]
fn second_team_dies_and_the_first_wins() {
    let mut core = vec![dat(); CORESIZE];
    core[0] = imp();
    let mut queues = vec![
        VecDeque::from([Process { team: 0, pointer: 0 }]),
        VecDeque::from([Process { team: 1, pointer: 4000 }]),
    ];
    let mut turn = 0;
    let mut step_count = 0;
    let outcome = run(&mut core, CORESIZE, &mut queues, &mut turn, &mut step_count, 80000);
    assert_eq!(outcome, BattleOutcome::Win(0));
    assert_eq!(step_count, 1);
    assert_eq!(queues.len(), 1);
    assert_eq!(queues[0][0], Process { team: 0, pointer: 1 });
    assert_eq!(turn, 0);
}

#[test]
fn spl_doubles_the_team_once_a_step() {
    let program = [
        cell(Opcode::Spl, Modifier::B, AddressMode::Direct, 0, AddressMode::Direct, 0),
        cell(Opcode::Jmp, Modifier::B, AddressMode::Direct, CORESIZE - 1, AddressMode::Direct, 0),
    ];
    let (mut core, mut queues) = solo(&program);
    let mut turn = 0;
    let mut step_count = 0;
    let _ = play(&mut core, CORESIZE, &mut queues, &mut turn, &mut step_count, 80000, 1);
    assert_eq!(step_count, 1);
    assert_eq!(queues[0].len(), 2);
    assert_eq!(queues[0][0], Process { team: 0, pointer: 1 });
    assert_eq!(queues[0][1], Process { team: 0, pointer: 0 });
    let _ = play(&mut core, CORESIZE, &mut queues, &mut turn, &mut step_count, 80000, 1);
    assert_eq!(step_count, 2);
    assert_eq!(queues[0].len(), 2);
    assert_eq!(queues[0][0], Process { team: 0, pointer: 0 });
    assert_eq!(queues[0][1], Process { team: 0, pointer: 0 });
}

#[test]
fn spl_keeps_the_parent_in_front_and_puts_the_child_last() {
    let mut core = vec![nop(); CORESIZE];
    core[10] = cell(Opcode::Spl, Modifier::B, AddressMode::Direct, 5, AddressMode::Direct, 0);
    let mut queues = vec![VecDeque::from([
        Process { team: 3, pointer: 10 },
        Process { team: 3, pointer: 20 },
        Process { team: 3, pointer: 30 },
    ])];
    let mut turn = 0;
    part_step(&mut core, CORESIZE, &mut queues, &mut turn);
    let expected = VecDeque::from([
        Process { team: 3, pointer: 11 },
        Process { team: 3, pointer: 20 },
        Process { team: 3, pointer: 30 },
        Process { team: 3, pointer: 15 },
    ]);
    assert_eq!(queues[0], expected);
}

#[test]
fn two_nops_tie_at_the_step_limit() {
    let coresize = 800;
    let warrior = Warrior {
        instructions: vec![parsed(
            Opcode::Nop,
            Modifier::F,
            AddressMode::Direct,
            0,
            AddressMode::Direct,
            0,
        )],
        origin: Some(0),
    };
    let (mut core, mut queues) = place(&warrior, &warrior, coresize, nop(), 400);
    let mut turn = 0;
    let mut step_count = 0;
    let step_limit = coresize * 10;
    let outcome = run(&mut core, coresize, &mut queues, &mut turn, &mut step_count, step_limit);
    assert_eq!(outcome, BattleOutcome::Tie);
    assert_eq!(step_count, step_limit);
    assert_eq!(queues.len(), 2);
    assert_eq!(queues[0][0], Process { team: 0, pointer: 0 });
    assert_eq!(queues[1][0], Process { team: 1, pointer: 400 });
    assert!(core.iter().all(|c| *c == nop()));
}

#[test]
fn negative_literal_wraps_to_the_end_of_the_core() {
    let warrior = Warrior {
        instructions: vec![parsed(
            Opcode::Jmp,
            Modifier::B,
            AddressMode::Direct,
            -1,
            AddressMode::Direct,
            0,
        )],
        origin: Some(0),
    };
    let other = Warrior { instructions: vec![], origin: None };
    let (mut core, mut queues) = place(&warrior, &other, CORESIZE, dat(), 4000);
    assert_eq!(core[0].field_a.value, 7999);
    queues.pop();
    let mut turn = 0;
    full_step(&mut core, CORESIZE, &mut queues, &mut turn);
    assert_eq!(queues[0][0], Process { team: 0, pointer: 7999 });
}

#[test]
fn nop_only_moves_the_process_on_and_back() {
    let mut core = vec![dat(); CORESIZE];
    core[7999] = nop();
    core[100] = imp();
    let before = core.clone();
    let mut queues = vec![
        VecDeque::from([Process { team: 0, pointer: 7999 }, Process { team: 0, pointer: 100 }]),
        VecDeque::from([Process { team: 1, pointer: 100 }]),
    ];
    let mut turn = 0;
    part_step(&mut core, CORESIZE, &mut queues, &mut turn);
    assert_eq!(core, before);
    assert_eq!(
        queues[0],
        VecDeque::from([Process { team: 0, pointer: 100 }, Process { team: 0, pointer: 0 }])
    );
    assert_eq!(queues[1], VecDeque::from([Process { team: 1, pointer: 100 }]));
    assert_eq!(turn, 1);
}

#[test]
fn mov_i_then_seq_i_skips() {
    let mut core = vec![dat(); CORESIZE];
    core[0] = cell(Opcode::Mov, Modifier::I, AddressMode::Direct, 10, AddressMode::Direct, 20);
    core[1] = cell(Opcode::SkipEq, Modifier::I, AddressMode::Direct, 9, AddressMode::Direct, 19);
    core[10] = cell(Opcode::Add, Modifier::X, AddressMode::IndirectA, 7, AddressMode::Direct, 9);
    let mut queues = vec![VecDeque::from([Process { team: 0, pointer: 0 }])];
    let mut turn = 0;
    full_step(&mut core, CORESIZE, &mut queues, &mut turn);
    assert_eq!(core[20], core[10]);
    assert_eq!(queues[0][0].pointer, 1);
    full_step(&mut core, CORESIZE, &mut queues, &mut turn);
    assert_eq!(queues[0][0].pointer, 3);
}

#[test]
fn a_dead_process_leaves_the_rest_of_its_team_in_order() {
    let mut core = vec![nop(); CORESIZE];
    core[10] = dat();
    let mut queues = vec![
        VecDeque::from([
            Process { team: 0, pointer: 10 },
            Process { team: 0, pointer: 20 },
            Process { team: 0, pointer: 30 },
        ]),
        VecDeque::from([Process { team: 1, pointer: 40 }]),
    ];
    let mut turn = 0;
    part_step(&mut core, CORESIZE, &mut queues, &mut turn);
    assert_eq!(
        queues[0],
        VecDeque::from([Process { team: 0, pointer: 20 }, Process { team: 0, pointer: 30 }])
    );
    assert_eq!(turn, 1);
}

#[test]
fn a_team_without_processes_leaves_the_list() {
    let mut core = vec![nop(); CORESIZE];
    core[10] = dat();
    let mut queues = vec![
        VecDeque::from([Process { team: 0, pointer: 0 }]),
        VecDeque::from([Process { team: 1, pointer: 10 }]),
        VecDeque::from([Process { team: 2, pointer: 20 }]),
    ];
    let mut turn = 1;
    part_step(&mut core, CORESIZE, &mut queues, &mut turn);
    assert_eq!(queues.len(), 2);
    assert_eq!(queues[0][0].team, 0);
    assert_eq!(queues[1][0].team, 2);
    assert_eq!(turn, 0);

    let mut queues = vec![
        VecDeque::from([Process { team: 0, pointer: 10 }]),
        VecDeque::from([Process { team: 1, pointer: 0 }]),
        VecDeque::from([Process { team: 2, pointer: 20 }]),
    ];
    let mut turn = 0;
    part_step(&mut core, CORESIZE, &mut queues, &mut turn);
    assert_eq!(queues.len(), 2);
    assert_eq!(queues[0][0].team, 1);
    assert_eq!(queues[1][0].team, 2);
    assert_eq!(turn, 1);

    let mut queues = vec![
        VecDeque::from([Process { team: 0, pointer: 0 }]),
        VecDeque::from([Process { team: 1, pointer: 20 }]),
        VecDeque::from([Process { team: 2, pointer: 10 }]),
    ];
    let mut turn = 2;
    part_step(&mut core, CORESIZE, &mut queues, &mut turn);
    assert_eq!(queues.len(), 2);
    assert_eq!(turn, 0);
}

#[test]
fn a_full_step_gives_every_team_one_turn() {
    let mut core = vec![nop(); CORESIZE];
    let mut queues = vec![
        VecDeque::from([Process { team: 0, pointer: 0 }, Process { team: 0, pointer: 5 }]),
        VecDeque::from([Process { team: 1, pointer: 10 }]),
        VecDeque::from([Process { team: 2, pointer: 20 }]),
    ];
    let mut turn = 0;
    full_step(&mut core, CORESIZE, &mut queues, &mut turn);
    assert_eq!(turn, 0);
    assert_eq!(
        queues[0],
        VecDeque::from([Process { team: 0, pointer: 5 }, Process { team: 0, pointer: 1 }])
    );
    assert_eq!(queues[1][0].pointer, 11);
    assert_eq!(queues[2][0].pointer, 21);
}

#[test]
fn play_stops_at_the_step_limit() {
    let mut core = vec![nop(); CORESIZE];
    let mut queues = vec![
        VecDeque::from([Process { team: 0, pointer: 0 }]),
        VecDeque::from([Process { team: 1, pointer: 10 }]),
    ];
    let mut turn = 0;
    let mut step_count = 0;
    let outcome = play(&mut core, CORESIZE, &mut queues, &mut turn, &mut step_count, 5, 3);
    assert_eq!(outcome, None);
    assert_eq!(step_count, 3);
    let outcome = play(&mut core, CORESIZE, &mut queues, &mut turn, &mut step_count, 5, 3);
    assert_eq!(outcome, Some(BattleOutcome::Tie));
    assert_eq!(step_count, 5);
    assert_eq!(queues[0][0].pointer, 5);
    assert_eq!(queues[1][0].pointer, 15);
    let outcome = play(&mut core, CORESIZE, &mut queues, &mut turn, &mut step_count, 5, 0);
    assert_eq!(outcome, None);
}

#[test]
fn equal_states_stay_equal_step_by_step() {
    let program = [
        cell(Opcode::Spl, Modifier::B, AddressMode::Direct, 2, AddressMode::Direct, 0),
        cell(Opcode::Add, Modifier::AB, AddressMode::Immediate, 7, AddressMode::PostIncIndirectB, 3),
        cell(Opcode::Mov, Modifier::I, AddressMode::PreDecIndirectA, 2, AddressMode::IndirectB, 2),
        cell(Opcode::Djn, Modifier::F, AddressMode::Direct, CORESIZE - 2, AddressMode::Direct, 1),
        cell(Opcode::Jmp, Modifier::B, AddressMode::Direct, CORESIZE - 4, AddressMode::Direct, 0),
    ];
    let mut first_core = vec![dat(); CORESIZE];
    for (i, instruction) in program.iter().enumerate() {
        first_core[i] = *instruction;
        first_core[3000 + i] = *instruction;
    }
    let mut first_queues = vec![
        VecDeque::from([Process { team: 0, pointer: 0 }]),
        VecDeque::from([Process { team: 1, pointer: 3000 }]),
    ];
    let mut first_turn = 0;
    let mut second_core = first_core.clone();
    let mut second_queues = first_queues.clone();
    let mut second_turn = 0;
    for _ in 0..500 {
        if first_queues.is_empty() {
            break;
        }
        assert!(emars::scheduler::check_battle(&first_core, CORESIZE, &first_queues, first_turn));
        full_step(&mut first_core, CORESIZE, &mut first_queues, &mut first_turn);
        full_step(&mut second_core, CORESIZE, &mut second_queues, &mut second_turn);
        assert_eq!(first_core, second_core);
        assert_eq!(first_queues, second_queues);
        assert_eq!(first_turn, second_turn);
    }
}
