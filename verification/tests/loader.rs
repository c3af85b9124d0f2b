use emars::instruction::{AddressMode, Field, Instruction, Modifier, Opcode, Process};
use emars::loader::{
    init, place, placement_range, translate_instruction, LoadError, ParsedField,
    ParsedInstruction, Warrior,
};
use emars::scheduler::default_step_limit;

fn parsed(opcode: Opcode, modifier: Modifier, a: i32, b: i32) -> ParsedInstruction {
    ParsedInstruction {
        opcode,
        modifier,
        field_a: ParsedField { address_mode: AddressMode::Direct, value: a },
        field_b: ParsedField { address_mode: AddressMode::IndirectB, value: b },
    }
}

fn loaded(opcode: Opcode, modifier: Modifier, a: usize, b: usize) -> Instruction {
    Instruction {
        opcode,
        modifier,
        field_a: Field { address_mode: AddressMode::Direct, value: a },
        field_b: Field { address_mode: AddressMode::IndirectB, value: b },
    }
}

fn dat() -> Instruction {
    Instruction {
        opcode: Opcode::Dat,
        modifier: Modifier::F,
        field_a: Field { address_mode: AddressMode::Immediate, value: 0 },
        field_b: Field { address_mode: AddressMode::Immediate, value: 0 },
    }
}

fn warrior(length: usize, origin: Option<u32>) -> Warrior {
    let mut instructions = Vec::new();
    for i in 0..length {
        instructions.push(parsed(Opcode::Add, Modifier::AB, i as i32, -(i as i32) - 1));
    }
    Warrior { instructions, origin }
}

#[test]
fn translate_instruction_wraps_both_values() {
    let cell = translate_instruction(parsed(Opcode::Mov, Modifier::I, -1, 8001), 8000);
    assert_eq!(cell, loaded(Opcode::Mov, Modifier::I, 7999, 1));
    let cell = translate_instruction(parsed(Opcode::Jmp, Modifier::B, i32::MIN, i32::MAX), 8000);
    assert_eq!(cell, loaded(Opcode::Jmp, Modifier::B, 4352, 3647));
    let cell = translate_instruction(parsed(Opcode::Sub, Modifier::X, 0, -8000), 8000);
    assert_eq!(cell, loaded(Opcode::Sub, Modifier::X, 0, 0));
}

#[test]
fn placement_range_keeps_the_least_distance() {
    assert_eq!(placement_range(4, 8000), Some((104, 7900)));
    assert_eq!(placement_range(0, 8000), Some((100, 7900)));
    assert_eq!(placement_range(1, 10), Some((1, 10)));
    assert_eq!(placement_range(7799, 8000), Some((7899, 7900)));
}

#[test]
fn placement_range_is_empty_in_a_small_core() {
    assert_eq!(placement_range(7800, 8000), None);
    assert_eq!(placement_range(78, 80), None);
    assert_eq!(placement_range(0, 0), None);
    assert_eq!(placement_range(10, 10), None);
    assert_eq!(placement_range(usize::MAX, 8000), None);
}

#[test]
fn init_fails_when_the_core_is_too_small() {
    let a = warrior(78, None);
    let b = warrior(1, None);
    assert_eq!(init(&a, &b, 80, dat(), 7).err(), Some(LoadError::CoreTooSmall));
    assert_eq!(init(&a, &b, 0, dat(), 7).err(), Some(LoadError::CoreTooSmall));
    assert_eq!(init(&a, &b, 78, dat(), 7).err(), Some(LoadError::CoreTooSmall));
    assert!(init(&a, &b, 81, dat(), 7).is_ok());
}

#[test]
fn place_writes_both_warriors_and_starts_both_teams() {
    let a = warrior(3, Some(2));
    let b = warrior(2, Some(1));
    let (core, queues) = place(&a, &b, 8000, dat(), 500);
    assert_eq!(core.len(), 8000);
    assert_eq!(core[0], loaded(Opcode::Add, Modifier::AB, 0, 7999));
    assert_eq!(core[1], loaded(Opcode::Add, Modifier::AB, 1, 7998));
    assert_eq!(core[2], loaded(Opcode::Add, Modifier::AB, 2, 7997));
    assert_eq!(core[500], loaded(Opcode::Add, Modifier::AB, 0, 7999));
    assert_eq!(core[501], loaded(Opcode::Add, Modifier::AB, 1, 7998));
    for (i, cell) in core.iter().enumerate() {
        if i > 2 && i != 500 && i != 501 {
            assert_eq!(*cell, dat());
        }
    }
    assert_eq!(queues.len(), 2);
    assert_eq!(queues[0].len(), 1);
    assert_eq!(queues[1].len(), 1);
    assert_eq!(queues[0][0], Process { team: 0, pointer: 2 });
    assert_eq!(queues[1][0], Process { team: 1, pointer: 501 });
}

#[test]
fn place_wraps_the_second_warrior_round_the_end() {
    let a = warrior(1, None);
    let b = warrior(4, Some(3));
    let (core, queues) = place(&a, &b, 10, dat(), 8);
    assert_eq!(core[8], loaded(Opcode::Add, Modifier::AB, 0, 9));
    assert_eq!(core[9], loaded(Opcode::Add, Modifier::AB, 1, 8));
    assert_eq!(core[0], loaded(Opcode::Add, Modifier::AB, 2, 7));
    assert_eq!(core[1], loaded(Opcode::Add, Modifier::AB, 3, 6));
    assert_eq!(core[2], dat());
    assert_eq!(queues[0][0], Process { team: 0, pointer: 0 });
    assert_eq!(queues[1][0], Process { team: 1, pointer: 1 });
}

#[test]
fn place_wraps_the_values_of_the_default_cell() {
    let a = warrior(1, None);
    let b = warrior(1, None);
    let fill = Instruction {
        opcode: Opcode::Nop,
        modifier: Modifier::B,
        field_a: Field { address_mode: AddressMode::Direct, value: 8003 },
        field_b: Field { address_mode: AddressMode::Immediate, value: 16000 },
    };
    let (core, _) = place(&a, &b, 8000, fill, 4000);
    let wrapped = Instruction {
        opcode: Opcode::Nop,
        modifier: Modifier::B,
        field_a: Field { address_mode: AddressMode::Direct, value: 3 },
        field_b: Field { address_mode: AddressMode::Immediate, value: 0 },
    };
    assert_eq!(core[7], wrapped);
    assert_eq!(core[7999], wrapped);
}

#[test]
fn init_places_the_second_warrior_inside_the_range() {
    let a = warrior(4, Some(1));
    let b = warrior(3, Some(2));
    let mut seen = Vec::new();
    for seed in 0..40u64 {
        let (core, queues) = init(&a, &b, 8000, dat(), seed).unwrap();
        assert_eq!(core.len(), 8000);
        assert_eq!(queues[0][0], Process { team: 0, pointer: 1 });
        let entry = queues[1][0].pointer;
        assert_eq!(queues[1][0].team, 1);
        let offset = entry - 2;
        assert!(104 <= offset && offset < 7900);
        let (expected_core, expected_queues) = place(&a, &b, 8000, dat(), offset);
        assert_eq!(core, expected_core);
        assert_eq!(queues, expected_queues);
        if !seen.contains(&offset) {
            seen.push(offset);
        }
    }
    assert!(seen.len() > 1);
}

#[test]
fn init_with_one_seed_gives_one_battle() {
    let a = warrior(5, None);
    let b = warrior(7, Some(3));
    for seed in [0u64, 1, 42, u64::MAX] {
        let first = init(&a, &b, 8000, dat(), seed).unwrap();
        let second = init(&a, &b, 8000, dat(), seed).unwrap();
        assert_eq!(first, second);
    }
}

#[test]
fn init_in_the_smallest_range_has_one_place() {
    let a = warrior(7799, None);
    let b = warrior(1, None);
    for seed in 0..5u64 {
        let (_, queues) = init(&a, &b, 8000, dat(), seed).unwrap();
        assert_eq!(queues[1][0].pointer, 7899);
    }
}

#[test]
fn default_step_limit_is_ten_times_the_core() {
    assert_eq!(default_step_limit(8000), 80000);
    assert_eq!(default_step_limit(0), 0);
    assert_eq!(default_step_limit(1), 10);
}
