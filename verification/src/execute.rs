//! The instruction executor: what one instruction does to the core and to the
//! process that runs it.
//!
//! An opcode reads the source cell and the destination cell once, as they are
//! after the pre-decrements, and then writes the destination cell once. Which
//! fields take part is the modifier's choice, given by `Modifier::source_for`.

use vstd::prelude::*;
use std::collections::VecDeque;
use crate::arith::{
    add_mod, dec_mod, decrement_mod, div_mod, minus_mod, mod_mod, mul_mod, plus_mod, quotient_mod,
    remainder_mod, sub_mod, times_mod,
};
use crate::instruction::{Instruction, Modifier, Opcode, Process, Which};
use crate::memory::{
    apply_post_increment, apply_pre_decrement, calculate_source_and_dest_pointers, core_ok,
    post_increment, pre_decrement, resolve,
};

verus! {

impl Modifier {
    /// The source field that is paired with destination field `target`, or
    /// `None` when the modifier leaves that destination field out.
    pub open spec fn source_for(self, target: Which) -> Option<Which> {
        match self {
            Modifier::A => if target == Which::A {
                Some(Which::A)
            } else {
                None
            },
            Modifier::B => if target == Which::B {
                Some(Which::B)
            } else {
                None
            },
            Modifier::AB => if target == Which::B {
                Some(Which::A)
            } else {
                None
            },
            Modifier::BA => if target == Which::A {
                Some(Which::B)
            } else {
                None
            },
            Modifier::F | Modifier::I => Some(target),
            Modifier::X => if target == Which::A {
                Some(Which::B)
            } else {
                Some(Which::A)
            },
        }
    }

    /// The source field that is paired with destination field `target`, if any.
    pub fn paired_source(self, target: Which) -> (source: Option<Which>)
        ensures
            source == self.source_for(target),
    {
        match self {
            Modifier::A => match target {
                Which::A => Some(Which::A),
                Which::B => None,
            },
            Modifier::B => match target {
                Which::A => None,
                Which::B => Some(Which::B),
            },
            Modifier::AB => match target {
                Which::A => None,
                Which::B => Some(Which::A),
            },
            Modifier::BA => match target {
                Which::A => Some(Which::B),
                Which::B => None,
            },
            Modifier::F | Modifier::I => Some(target),
            Modifier::X => match target {
                Which::A => Some(Which::B),
                Which::B => Some(Which::A),
            },
        }
    }
}

/// What an arithmetic or copying opcode makes of one destination value `d`
/// and the source value `s` paired with it, on the ring of size `n`. A
/// division fault leaves the destination value as it is.
pub open spec fn operate(opcode: Opcode, d: int, s: int, n: int) -> int {
    match opcode {
        Opcode::Mov => s,
        Opcode::Add => add_mod(d, s, n),
        Opcode::Sub => sub_mod(d, s, n),
        Opcode::Mul => mul_mod(d, s, n),
        Opcode::Div => match div_mod(d, s) {
            Some(quotient) => quotient,
            None => d,
        },
        Opcode::Mod => match mod_mod(d, s) {
            Some(remainder) => remainder,
            None => d,
        },
        _ => d,
    }
}

/// The new value of destination field `target`.
pub open spec fn combined_value(
    opcode: Opcode,
    modifier: Modifier,
    source: Instruction,
    destination: Instruction,
    target: Which,
    n: int,
) -> int {
    match modifier.source_for(target) {
        Some(from) => operate(opcode, destination.value(target), source.value(from), n),
        None => destination.value(target),
    }
}

/// The new destination cell of `MOV`, `ADD`, `SUB`, `MUL`, `DIV` and `MOD`.
/// `MOV.I` copies the whole source cell; elsewhere `I` works as `F` does.
pub open spec fn combined(
    opcode: Opcode,
    modifier: Modifier,
    source: Instruction,
    destination: Instruction,
    n: int,
) -> Instruction {
    if opcode == Opcode::Mov && modifier == Modifier::I {
        source
    } else {
        destination.with_value(
            Which::A,
            combined_value(opcode, modifier, source, destination, Which::A, n),
        ).with_value(Which::B, combined_value(opcode, modifier, source, destination, Which::B, n))
    }
}

/// Whether a source field that takes part as a divisor is zero.
pub open spec fn zero_divisor(modifier: Modifier, source: Instruction) -> bool {
    ||| modifier.source_for(Which::A) matches Some(from) && source.value(from) == 0
    ||| modifier.source_for(Which::B) matches Some(from) && source.value(from) == 0
}

/// Whether every destination field that takes part is zero.
pub open spec fn all_zero(modifier: Modifier, destination: Instruction) -> bool {
    &&& modifier.source_for(Which::A) is Some ==> destination.value(Which::A) == 0
    &&& modifier.source_for(Which::B) is Some ==> destination.value(Which::B) == 0
}

/// The destination cell of `DJN` after its decrement.
pub open spec fn decremented(modifier: Modifier, destination: Instruction, n: int) -> Instruction {
    let a = if modifier.source_for(Which::A) is Some {
        dec_mod(destination.value(Which::A), n)
    } else {
        destination.value(Which::A)
    };
    let b = if modifier.source_for(Which::B) is Some {
        dec_mod(destination.value(Which::B), n)
    } else {
        destination.value(Which::B)
    };
    destination.with_value(Which::A, a).with_value(Which::B, b)
}

/// Whether source and destination match: as whole cells under `I`, else in
/// every pair of fields that takes part.
pub open spec fn cells_match(modifier: Modifier, source: Instruction, destination: Instruction) -> bool {
    if modifier == Modifier::I {
        source == destination
    } else {
        &&& modifier.source_for(Which::A) matches Some(from) ==> source.value(from)
            == destination.value(Which::A)
        &&& modifier.source_for(Which::B) matches Some(from) ==> source.value(from)
            == destination.value(Which::B)
    }
}

/// Whether every source field that takes part is strictly less than the
/// destination field paired with it.
pub open spec fn cells_less(modifier: Modifier, source: Instruction, destination: Instruction) -> bool {
    &&& modifier.source_for(Which::A) matches Some(from) ==> source.value(from) < destination.value(
        Which::A,
    )
    &&& modifier.source_for(Which::B) matches Some(from) ==> source.value(from) < destination.value(
        Which::B,
    )
}

/// Whether executing `instruction` kills the process: `DAT` always does,
/// `DIV` and `MOD` do when a divisor is zero.
pub open spec fn kills(instruction: Instruction, source: Instruction) -> bool {
    match instruction.opcode {
        Opcode::Dat => true,
        Opcode::Div | Opcode::Mod => zero_divisor(instruction.modifier, source),
        _ => false,
    }
}

/// The core after the opcode of `instruction` has worked on it, with `src`
/// and `dst` the resolved addresses.
pub open spec fn written(core: Seq<Instruction>, instruction: Instruction, src: int, dst: int) -> Seq<
    Instruction,
> {
    let n = core.len() as int;
    let modifier = instruction.modifier;
    match instruction.opcode {
        Opcode::Mov | Opcode::Add | Opcode::Sub | Opcode::Mul => core.update(
            dst,
            combined(instruction.opcode, modifier, core[src], core[dst], n),
        ),
        Opcode::Div | Opcode::Mod => if zero_divisor(modifier, core[src]) {
            core
        } else {
            core.update(dst, combined(instruction.opcode, modifier, core[src], core[dst], n))
        },
        Opcode::Djn => core.update(dst, decremented(modifier, core[dst], n)),
        _ => core,
    }
}

/// Where the process goes next, if it survives: to `src` on a jump, two
/// cells on when it skips, else one cell on.
pub open spec fn next_pointer(
    core: Seq<Instruction>,
    instruction: Instruction,
    pc: int,
    src: int,
    dst: int,
) -> int {
    let n = core.len() as int;
    let modifier = instruction.modifier;
    let on = add_mod(pc, 1, n);
    let skip = add_mod(pc, 2, n);
    match instruction.opcode {
        Opcode::Jmp => src,
        Opcode::Jmz => if all_zero(modifier, core[dst]) {
            src
        } else {
            on
        },
        Opcode::Jmn => if !all_zero(modifier, core[dst]) {
            src
        } else {
            on
        },
        Opcode::Djn => if !all_zero(modifier, decremented(modifier, core[dst], n)) {
            src
        } else {
            on
        },
        Opcode::Cmp | Opcode::SkipEq => if cells_match(modifier, core[src], core[dst]) {
            skip
        } else {
            on
        },
        Opcode::SkipNe => if !cells_match(modifier, core[src], core[dst]) {
            skip
        } else {
            on
        },
        Opcode::SkipLt => if cells_less(modifier, core[src], core[dst]) {
            skip
        } else {
            on
        },
        _ => on,
    }
}

/// What one executed instruction leaves behind.
pub struct Outcome {
    /// The core after the instruction and its side effects.
    pub core: Seq<Instruction>,
    /// Whether the process that executed it is still alive.
    pub alive: bool,
    /// Where that process continues, if it is alive.
    pub pointer: int,
    /// The entry point of the process that `SPL` created, if it was `SPL`.
    pub child: Option<int>,
}

/// The outcome of executing the instruction at `pc`: pre-decrements of field
/// A, then of field B; resolution of both addresses; the opcode; then the
/// post-increments of field A and of field B, on the cells that the fields of
/// the instruction pointed at when it was fetched.
pub open spec fn step(core: Seq<Instruction>, pc: int) -> Outcome {
    let instruction = core[pc];
    let before = pre_decrement(
        pre_decrement(core, pc, instruction.field_a),
        pc,
        instruction.field_b,
    );
    let src = resolve(before, pc, instruction.field_a);
    let dst = resolve(before, pc, instruction.field_b);
    let after = written(before, instruction, src, dst);
    Outcome {
        core: post_increment(
            post_increment(after, pc, instruction.field_a),
            pc,
            instruction.field_b,
        ),
        alive: !kills(instruction, before[src]),
        pointer: next_pointer(before, instruction, pc, src, dst),
        child: if instruction.opcode == Opcode::Spl {
            Some(src)
        } else {
            None
        },
    }
}

/// A team's queue right after its front process has executed: a dead
/// process is gone; a live one stays in front with its new pointer, and a
/// process that `SPL` created stands before it.
pub open spec fn stepped_queue(queue: Seq<Process>, outcome: Outcome) -> Seq<Process> {
    let rest = queue.drop_first();
    let parent = Process { team: queue[0].team, pointer: outcome.pointer as usize };
    if !outcome.alive {
        rest
    } else {
        match outcome.child {
            Some(entry) => seq![Process { team: queue[0].team, pointer: entry as usize }, parent]
                + rest,
            None => seq![parent] + rest,
        }
    }
}

/// Every process of the queue points into a core of `coresize` cells.
pub open spec fn queue_ok(queue: Seq<Process>, coresize: int) -> bool {
    forall|i: int| 0 <= i < queue.len() ==> (#[trigger] queue[i]).pointer < coresize
}

fn operate_values(opcode: Opcode, d: usize, s: usize, coresize: usize) -> (r: usize)
    requires
        d < coresize,
        s < coresize,
    ensures
        r == operate(opcode, d as int, s as int, coresize as int),
        r < coresize,
{
    match opcode {
        Opcode::Mov => s,
        Opcode::Add => plus_mod(d, s, coresize),
        Opcode::Sub => minus_mod(d, s, coresize),
        Opcode::Mul => times_mod(d, s, coresize),
        Opcode::Div => match quotient_mod(d, s, coresize) {
            Some(quotient) => quotient,
            None => d,
        },
        Opcode::Mod => match remainder_mod(d, s, coresize) {
            Some(remainder) => remainder,
            None => d,
        },
        _ => d,
    }
}

fn combine_value(
    opcode: Opcode,
    modifier: Modifier,
    source: Instruction,
    destination: Instruction,
    target: Which,
    coresize: usize,
) -> (r: usize)
    requires
        source.in_range(coresize as int),
        destination.in_range(coresize as int),
    ensures
        r == combined_value(opcode, modifier, source, destination, target, coresize as int),
        r < coresize,
{
    match modifier.paired_source(target) {
        Some(from) => operate_values(opcode, destination.get(target), source.get(from), coresize),
        None => destination.get(target),
    }
}

fn has_zero_divisor(modifier: Modifier, source: Instruction) -> (r: bool)
    ensures
        r == zero_divisor(modifier, source),
{
    let a = match modifier.paired_source(Which::A) {
        Some(from) => source.get(from) == 0,
        None => false,
    };
    let b = match modifier.paired_source(Which::B) {
        Some(from) => source.get(from) == 0,
        None => false,
    };
    a || b
}

fn is_all_zero(modifier: Modifier, destination: Instruction) -> (r: bool)
    ensures
        r == all_zero(modifier, destination),
{
    let a = modifier.paired_source(Which::A).is_none() || destination.get(Which::A) == 0;
    let b = modifier.paired_source(Which::B).is_none() || destination.get(Which::B) == 0;
    a && b
}

fn do_cells_match(modifier: Modifier, source: Instruction, destination: Instruction) -> (r: bool)
    ensures
        r == cells_match(modifier, source, destination),
{
    if modifier == Modifier::I {
        source == destination
    } else {
        let a = match modifier.paired_source(Which::A) {
            Some(from) => source.get(from) == destination.get(Which::A),
            None => true,
        };
        let b = match modifier.paired_source(Which::B) {
            Some(from) => source.get(from) == destination.get(Which::B),
            None => true,
        };
        a && b
    }
}

fn is_less(modifier: Modifier, source: Instruction, destination: Instruction) -> (r: bool)
    ensures
        r == cells_less(modifier, source, destination),
{
    let a = match modifier.paired_source(Which::A) {
        Some(from) => source.get(from) < destination.get(Which::A),
        None => true,
    };
    let b = match modifier.paired_source(Which::B) {
        Some(from) => source.get(from) < destination.get(Which::B),
        None => true,
    };
    a && b
}

fn combine_cells(
    opcode: Opcode,
    modifier: Modifier,
    source: Instruction,
    destination: Instruction,
    coresize: usize,
) -> (cell: Instruction)
    requires
        source.in_range(coresize as int),
        destination.in_range(coresize as int),
    ensures
        cell == combined(opcode, modifier, source, destination, coresize as int),
        cell.in_range(coresize as int),
{
    if opcode == Opcode::Mov && modifier == Modifier::I {
        source
    } else {
        let a = combine_value(opcode, modifier, source, destination, Which::A, coresize);
        let b = combine_value(opcode, modifier, source, destination, Which::B, coresize);
        let mut cell = destination;
        cell.set(Which::A, a);
        cell.set(Which::B, b);
        cell
    }
}

fn decrement_cell(modifier: Modifier, destination: Instruction, coresize: usize) -> (cell:
    Instruction)
    requires
        destination.in_range(coresize as int),
    ensures
        cell == decremented(modifier, destination, coresize as int),
        cell.in_range(coresize as int),
{
    let mut a = destination.get(Which::A);
    if modifier.paired_source(Which::A).is_some() {
        decrement_mod(&mut a, coresize);
    }
    let mut b = destination.get(Which::B);
    if modifier.paired_source(Which::B).is_some() {
        decrement_mod(&mut b, coresize);
    }
    let mut cell = destination;
    cell.set(Which::A, a);
    cell.set(Which::B, b);
    cell
}

/// Executes the opcode of `instruction` on the core and says whether the
/// process survives and where it continues.
fn execute_opcode(
    core: &mut Vec<Instruction>,
    coresize: usize,
    instruction: Instruction,
    pc: usize,
    src: usize,
    dst: usize,
) -> (result: (bool, usize))
    requires
        core_ok(old(core)@, coresize as int),
        pc < coresize,
        src < coresize,
        dst < coresize,
    ensures
        final(core)@ == written(old(core)@, instruction, src as int, dst as int),
        core_ok(final(core)@, coresize as int),
        result.0 == !kills(instruction, old(core)@[src as int]),
        result.1 == next_pointer(old(core)@, instruction, pc as int, src as int, dst as int),
        result.1 < coresize,
{
    let source = core[src];
    let destination = core[dst];
    let modifier = instruction.modifier;
    let on = plus_mod(pc, 1 % coresize, coresize);
    let skip = plus_mod(on, 1 % coresize, coresize);
    proof {
        let n = coresize as int;
        vstd::arithmetic::div_mod::lemma_add_mod_noop(pc as int, 1, n);
        vstd::arithmetic::div_mod::lemma_add_mod_noop(pc as int, 2, n);
        vstd::arithmetic::div_mod::lemma_add_mod_noop(pc as int + 1, 1, n);
        vstd::arithmetic::div_mod::lemma_small_mod(pc as nat, n as nat);
        vstd::arithmetic::div_mod::lemma_mod_twice(pc as int + 1, n);
        assert(on == add_mod(pc as int, 1, n));
        assert(skip == add_mod(pc as int, 2, n));
    }
    let ghost before = core@;
    match instruction.opcode {
        Opcode::Dat => (false, on),
        Opcode::Mov | Opcode::Add | Opcode::Sub | Opcode::Mul => {
            let cell = combine_cells(instruction.opcode, modifier, source, destination, coresize);
            core[dst] = cell;
            proof {
                lemma_update_ok(before, dst as int, cell);
            }
            (true, on)
        },
        Opcode::Div | Opcode::Mod => {
            if has_zero_divisor(modifier, source) {
                (false, on)
            } else {
                let cell = combine_cells(
                    instruction.opcode,
                    modifier,
                    source,
                    destination,
                    coresize,
                );
                core[dst] = cell;
                proof {
                    lemma_update_ok(before, dst as int, cell);
                }
                (true, on)
            }
        },
        Opcode::Jmp => (true, src),
        Opcode::Jmz => if is_all_zero(modifier, destination) {
            (true, src)
        } else {
            (true, on)
        },
        Opcode::Jmn => if !is_all_zero(modifier, destination) {
            (true, src)
        } else {
            (true, on)
        },
        Opcode::Djn => {
            let cell = decrement_cell(modifier, destination, coresize);
            core[dst] = cell;
            proof {
                lemma_update_ok(before, dst as int, cell);
            }
            if !is_all_zero(modifier, cell) {
                (true, src)
            } else {
                (true, on)
            }
        },
        Opcode::Cmp | Opcode::SkipEq => if do_cells_match(modifier, source, destination) {
            (true, skip)
        } else {
            (true, on)
        },
        Opcode::SkipNe => if !do_cells_match(modifier, source, destination) {
            (true, skip)
        } else {
            (true, on)
        },
        Opcode::SkipLt => if is_less(modifier, source, destination) {
            (true, skip)
        } else {
            (true, on)
        },
        Opcode::Spl | Opcode::Nop => (true, on),
    }
}

/// Replacing a cell by one whose values are on the ring keeps the core well formed.
pub proof fn lemma_update_ok(core: Seq<Instruction>, addr: int, cell: Instruction)
    requires
        core_ok(core, core.len() as int),
        0 <= addr < core.len(),
        cell.in_range(core.len() as int),
    ensures
        core_ok(core.update(addr, cell), core.len() as int),
{
    let after = core.update(addr, cell);
    assert forall|i: int| 0 <= i < after.len() implies (#[trigger] after[i]).in_range(
        core.len() as int,
    ) by {
        if i != addr {
            assert(after[i] == core[i]);
        }
    }
}

/// Executes one instruction for the process at the front of `process_queue`
/// and reports whether that process survived.
pub fn step_process(
    core: &mut Vec<Instruction>,
    coresize: usize,
    process_queue: &mut VecDeque<Process>,
) -> (alive: bool)
    requires
        core_ok(old(core)@, coresize as int),
        old(process_queue)@.len() > 0,
        old(process_queue)@[0].pointer < coresize,
    ensures
        ({
            let outcome = step(old(core)@, old(process_queue)@[0].pointer as int);
            &&& final(core)@ == outcome.core
            &&& alive == outcome.alive
            &&& final(process_queue)@ == stepped_queue(old(process_queue)@, outcome)
            &&& 0 <= outcome.pointer < coresize
            &&& outcome.child matches Some(entry) ==> 0 <= entry < coresize
        }),
        core_ok(final(core)@, coresize as int),
{
    let process = process_queue[0];
    let pc = process.pointer;
    let instruction = core[pc];

    apply_pre_decrement(core, coresize, pc, instruction.field_a);
    apply_pre_decrement(core, coresize, pc, instruction.field_b);

    let (source, destination) = calculate_source_and_dest_pointers(
        &instruction,
        core,
        pc,
        coresize,
    );
    let (alive, pointer) = execute_opcode(core, coresize, instruction, pc, source, destination);

    apply_post_increment(core, coresize, pc, instruction.field_a);
    apply_post_increment(core, coresize, pc, instruction.field_b);

    let ghost queue = process_queue@;
    let _ = process_queue.pop_front();
    if alive {
        process_queue.push_front(Process { team: process.team, pointer });
        if instruction.opcode == Opcode::Spl {
            process_queue.push_front(Process { team: process.team, pointer: source });
        }
    }
    proof {
        let outcome = step(old(core)@, pc as int);
        assert(process_queue@ =~= stepped_queue(queue, outcome));
    }
    alive
}

} // verus!
