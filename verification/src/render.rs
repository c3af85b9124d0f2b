//! What a display reads from the machine: the text of a cell, `OP.MOD  ma,  mb`,
//! where each operand is the symbol of its address mode and its value as a
//! signed offset; whether a cell is empty; and which team stands on a cell.

use vstd::prelude::*;
use vstd::string::*;
use std::collections::VecDeque;
use crate::instruction::{AddressMode, Field, Instruction, Modifier, Opcode, Process};
use crate::scheduler::queues_view;

verus! {

/// The mnemonic of an opcode.
pub open spec fn opcode_text(opcode: Opcode) -> Seq<char> {
    match opcode {
        Opcode::Dat => "DAT"@,
        Opcode::Mov => "MOV"@,
        Opcode::Add => "ADD"@,
        Opcode::Sub => "SUB"@,
        Opcode::Mul => "MUL"@,
        Opcode::Div => "DIV"@,
        Opcode::Mod => "MOD"@,
        Opcode::Jmp => "JMP"@,
        Opcode::Jmz => "JMZ"@,
        Opcode::Jmn => "JMN"@,
        Opcode::Djn => "DJN"@,
        Opcode::Cmp => "CMP"@,
        Opcode::SkipEq => "SEQ"@,
        Opcode::SkipNe => "SNE"@,
        Opcode::SkipLt => "SLT"@,
        Opcode::Spl => "SPL"@,
        Opcode::Nop => "NOP"@,
    }
}

/// The letters of a modifier.
pub open spec fn modifier_text(modifier: Modifier) -> Seq<char> {
    match modifier {
        Modifier::A => "A"@,
        Modifier::B => "B"@,
        Modifier::AB => "AB"@,
        Modifier::BA => "BA"@,
        Modifier::F => "F"@,
        Modifier::X => "X"@,
        Modifier::I => "I"@,
    }
}

/// The symbol of an address mode.
pub open spec fn mode_text(mode: AddressMode) -> Seq<char> {
    match mode {
        AddressMode::Immediate => "#"@,
        AddressMode::Direct => "$"@,
        AddressMode::IndirectA => "*"@,
        AddressMode::IndirectB => "@"@,
        AddressMode::PreDecIndirectA => "{"@,
        AddressMode::PreDecIndirectB => "<"@,
        AddressMode::PostIncIndirectA => "}"@,
        AddressMode::PostIncIndirectB => ">"@,
    }
}

/// One decimal digit.
pub open spec fn digit_text(digit: int) -> Seq<char> {
    if digit == 0 {
        "0"@
    } else if digit == 1 {
        "1"@
    } else if digit == 2 {
        "2"@
    } else if digit == 3 {
        "3"@
    } else if digit == 4 {
        "4"@
    } else if digit == 5 {
        "5"@
    } else if digit == 6 {
        "6"@
    } else if digit == 7 {
        "7"@
    } else if digit == 8 {
        "8"@
    } else {
        "9"@
    }
}

/// A natural number in decimal, without leading zeros.
pub open spec fn decimal_text(n: nat) -> Seq<char>
    decreases n,
{
    if n < 10 {
        digit_text(n as int)
    } else {
        decimal_text(n / 10) + digit_text((n % 10) as int)
    }
}

/// A value of the ring as a signed offset: values above half the size of the
/// core count back from its end.
pub open spec fn signed_value(value: int, coresize: int) -> int {
    if value <= coresize / 2 {
        value
    } else {
        value - coresize
    }
}

/// An integer in decimal, with a minus sign if it is negative.
pub open spec fn integer_text(i: int) -> Seq<char> {
    if i < 0 {
        "-"@ + decimal_text((-i) as nat)
    } else {
        decimal_text(i as nat)
    }
}

/// The text of an operand: the symbol of its mode, then its signed value.
pub open spec fn field_text(field: Field, coresize: int) -> Seq<char> {
    mode_text(field.address_mode) + integer_text(signed_value(field.value as int, coresize))
}

/// The text of a cell.
pub open spec fn instruction_text(instruction: Instruction, coresize: int) -> Seq<char> {
    opcode_text(instruction.opcode) + "."@ + modifier_text(instruction.modifier) + "  "@
        + field_text(instruction.field_a, coresize) + ","@ + "  "@ + field_text(
        instruction.field_b,
        coresize,
    )
}

fn opcode_name(opcode: Opcode) -> (name: &'static str)
    ensures
        name@ == opcode_text(opcode),
{
    match opcode {
        Opcode::Dat => "DAT",
        Opcode::Mov => "MOV",
        Opcode::Add => "ADD",
        Opcode::Sub => "SUB",
        Opcode::Mul => "MUL",
        Opcode::Div => "DIV",
        Opcode::Mod => "MOD",
        Opcode::Jmp => "JMP",
        Opcode::Jmz => "JMZ",
        Opcode::Jmn => "JMN",
        Opcode::Djn => "DJN",
        Opcode::Cmp => "CMP",
        Opcode::SkipEq => "SEQ",
        Opcode::SkipNe => "SNE",
        Opcode::SkipLt => "SLT",
        Opcode::Spl => "SPL",
        Opcode::Nop => "NOP",
    }
}

fn modifier_name(modifier: Modifier) -> (name: &'static str)
    ensures
        name@ == modifier_text(modifier),
{
    match modifier {
        Modifier::A => "A",
        Modifier::B => "B",
        Modifier::AB => "AB",
        Modifier::BA => "BA",
        Modifier::F => "F",
        Modifier::X => "X",
        Modifier::I => "I",
    }
}

fn mode_symbol(mode: AddressMode) -> (symbol: &'static str)
    ensures
        symbol@ == mode_text(mode),
{
    match mode {
        AddressMode::Immediate => "#",
        AddressMode::Direct => "$",
        AddressMode::IndirectA => "*",
        AddressMode::IndirectB => "@",
        AddressMode::PreDecIndirectA => "{",
        AddressMode::PreDecIndirectB => "<",
        AddressMode::PostIncIndirectA => "}",
        AddressMode::PostIncIndirectB => ">",
    }
}

fn digit_name(digit: usize) -> (name: &'static str)
    requires
        digit < 10,
    ensures
        name@ == digit_text(digit as int),
{
    if digit == 0 {
        "0"
    } else if digit == 1 {
        "1"
    } else if digit == 2 {
        "2"
    } else if digit == 3 {
        "3"
    } else if digit == 4 {
        "4"
    } else if digit == 5 {
        "5"
    } else if digit == 6 {
        "6"
    } else if digit == 7 {
        "7"
    } else if digit == 8 {
        "8"
    } else {
        "9"
    }
}

/// Appends `n` in decimal to `text`.
fn append_decimal(text: &mut String, n: usize)
    ensures
        final(text)@ == old(text)@ + decimal_text(n as nat),
    decreases n,
{
    if n >= 10 {
        append_decimal(text, n / 10);
    }
    text.append(digit_name(n % 10));
}

/// The text of an operand of a cell in a core of `coresize` cells.
pub fn display_field(field: Field, coresize: usize) -> (text: String)
    ensures
        text@ == field_text(field, coresize as int),
{
    let mut text = String::from_str(mode_symbol(field.address_mode));
    if field.value <= coresize / 2 {
        append_decimal(&mut text, field.value);
    } else if field.value < coresize {
        text.append("-");
        append_decimal(&mut text, coresize - field.value);
    } else {
        append_decimal(&mut text, field.value - coresize);
    }
    text
}

/// The text of a cell of a core of `coresize` cells.
pub fn display_instruction(instruction: Instruction, coresize: usize) -> (text: String)
    ensures
        text@ == instruction_text(instruction, coresize as int),
{
    let mut text = String::from_str(opcode_name(instruction.opcode));
    text.append(".");
    text.append(modifier_name(instruction.modifier));
    text.append("  ");
    let a = display_field(instruction.field_a, coresize);
    text.append(a.as_str());
    text.append(",");
    text.append("  ");
    let b = display_field(instruction.field_b, coresize);
    text.append(b.as_str());
    text
}

/// Whether a cell is empty, that is, equal to the cell the core was filled with.
pub fn is_empty_cell(cell: Instruction, default_instruction: Instruction) -> (empty: bool)
    ensures
        empty == (cell == default_instruction),
{
    cell == default_instruction
}

/// The team of the last process of `processes` that points at `address`.
pub open spec fn last_team_at(processes: Seq<Process>, address: int) -> Option<u8>
    decreases processes.len(),
{
    if processes.len() == 0 {
        None
    } else if processes.last().pointer == address {
        Some(processes.last().team)
    } else {
        last_team_at(processes.drop_last(), address)
    }
}

/// All live processes, team after team, each team's from the front of its queue.
pub fn live_processes(teams_process_queues: &Vec<VecDeque<Process>>) -> (processes: Vec<Process>)
    ensures
        processes@ == queues_view(teams_process_queues@).flatten(),
{
    let ghost queues = queues_view(teams_process_queues@);
    let mut processes: Vec<Process> = Vec::new();
    let mut t: usize = 0;
    assert(queues.take(0) =~= Seq::<Seq<Process>>::empty());
    while t < teams_process_queues.len()
        invariant
            t <= teams_process_queues.len(),
            queues == queues_view(teams_process_queues@),
            processes@ == queues.take(t as int).flatten(),
        decreases teams_process_queues.len() - t,
    {
        let queue = &teams_process_queues[t];
        let ghost done = processes@;
        let mut i: usize = 0;
        while i < queue.len()
            invariant
                i <= queue.len(),
                processes@ == done + queue@.take(i as int),
            decreases queue.len() - i,
        {
            processes.push(queue[i]);
            assert(queue@.take(i + 1) =~= queue@.take(i as int).push(queue@[i as int]));
            i = i + 1;
        }
        proof {
            assert(queue@.take(queue@.len() as int) =~= queue@);
            assert(queues.take(t + 1) =~= queues.take(t as int).push(queue@));
            queues.take(t as int).lemma_flatten_push(queue@);
        }
        t = t + 1;
    }
    assert(queues.take(queues.len() as int) =~= queues);
    processes
}

/// The team that stands on the cell at `address`: that of the last process
/// of `processes` that points at it, or `None` if no process does.
pub fn team_at(processes: &Vec<Process>, address: usize) -> (team: Option<u8>)
    ensures
        team == last_team_at(processes@, address as int),
{
    let mut i: usize = processes.len();
    assert(processes@.take(i as int) =~= processes@);
    while i > 0
        invariant
            i <= processes.len(),
            last_team_at(processes@, address as int) == last_team_at(
                processes@.take(i as int),
                address as int,
            ),
        decreases i,
    {
        i = i - 1;
        assert(processes@.take(i + 1).drop_last() =~= processes@.take(i as int));
        if processes[i].pointer == address {
            return Some(processes[i].team);
        }
    }
    None
}

} // verus!
