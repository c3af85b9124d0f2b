//! The core: a circular array of cells, addressed modulo its size, and the
//! address resolution that the executor performs on it.

use vstd::prelude::*;
use crate::arith::{add_mod, dec_mod, inc_mod, plus_mod, decrement_mod, increment_mod};
use crate::instruction::{AddressMode, Field, Instruction, Which};

verus! {

/// A core of `coresize` cells whose field values all lie on the ring.
pub open spec fn core_ok(core: Seq<Instruction>, coresize: int) -> bool {
    &&& core.len() == coresize
    &&& forall|i: int| 0 <= i < core.len() ==> (#[trigger] core[i]).in_range(coresize)
}

/// The core with the chosen field of the cell at `addr` set to `value`.
pub open spec fn poke(core: Seq<Instruction>, addr: int, which: Which, value: int) -> Seq<
    Instruction,
> {
    core.update(addr, core[addr].with_value(which, value))
}

/// The cell that a field points at, seen from the instruction at `pc`.
pub open spec fn pointer_cell(core: Seq<Instruction>, pc: int, field: Field) -> int {
    add_mod(pc, field.value as int, core.len() as int)
}

/// The core after the pre-decrement that `field` asks for, if it asks for one.
pub open spec fn pre_decrement(core: Seq<Instruction>, pc: int, field: Field) -> Seq<Instruction> {
    match field.address_mode.pre_decrements() {
        Some(which) => {
            let p = pointer_cell(core, pc, field);
            poke(core, p, which, dec_mod(core[p].value(which), core.len() as int))
        },
        None => core,
    }
}

/// The core after the post-increment that `field` asks for, if it asks for one.
pub open spec fn post_increment(core: Seq<Instruction>, pc: int, field: Field) -> Seq<Instruction> {
    match field.address_mode.post_increments() {
        Some(which) => {
            let p = pointer_cell(core, pc, field);
            poke(core, p, which, inc_mod(core[p].value(which), core.len() as int))
        },
        None => core,
    }
}

/// The absolute address that `field` of the instruction at `pc` refers to.
pub open spec fn resolve(core: Seq<Instruction>, pc: int, field: Field) -> int {
    match field.address_mode {
        AddressMode::Immediate => pc,
        _ => match field.address_mode.pointer_field() {
            None => pointer_cell(core, pc, field),
            Some(which) => {
                let p = pointer_cell(core, pc, field);
                (pc + field.value + core[p].value(which)) % (core.len() as int)
            },
        },
    }
}

/// Setting a field to a value on the ring keeps the core well formed.
pub proof fn lemma_poke_ok(core: Seq<Instruction>, addr: int, which: Which, value: int)
    requires
        core_ok(core, core.len() as int),
        0 <= addr < core.len(),
        0 <= value < core.len(),
    ensures
        core_ok(poke(core, addr, which, value), core.len() as int),
{
    let after = poke(core, addr, which, value);
    assert forall|i: int| 0 <= i < after.len() implies (#[trigger] after[i]).in_range(
        core.len() as int,
    ) by {
        if i != addr {
            assert(after[i] == core[i]);
        }
    }
}

/// Resolution always lands inside the core.
pub proof fn lemma_resolve_range(core: Seq<Instruction>, pc: int, field: Field)
    requires
        core.len() > 0,
        0 <= pc < core.len(),
    ensures
        0 <= resolve(core, pc, field) < core.len(),
        0 <= pointer_cell(core, pc, field) < core.len(),
{
    let n = core.len() as int;
    assert(0 <= (pc + field.value as int) % n < n);
    match field.address_mode.pointer_field() {
        Some(which) => {
            let p = pointer_cell(core, pc, field);
            let total = pc + field.value + core[p].value(which);
            assert(0 <= total % n < n);
        },
        None => {},
    }
}

/// The cell at `addr`, with `addr` taken modulo the size of the core.
pub fn read(core: &Vec<Instruction>, addr: usize) -> (cell: Instruction)
    requires
        core.len() > 0,
    ensures
        cell == core@[addr as int % core.len() as int],
{
    core[addr % core.len()]
}

/// Stores `cell` at `addr`, with `addr` taken modulo the size of the core.
pub fn write(core: &mut Vec<Instruction>, addr: usize, cell: Instruction)
    requires
        old(core).len() > 0,
    ensures
        final(core)@ == old(core)@.update(addr as int % old(core).len() as int, cell),
{
    let n = core.len();
    core[addr % n] = cell;
}

/// Applies the pre-decrement of one field of the instruction at `pc`.
pub fn apply_pre_decrement(core: &mut Vec<Instruction>, coresize: usize, pc: usize, field: Field)
    requires
        core_ok(old(core)@, coresize as int),
        pc < coresize,
        field.value < coresize,
    ensures
        final(core)@ == pre_decrement(old(core)@, pc as int, field),
        core_ok(final(core)@, coresize as int),
{
    let which = match field.address_mode {
        AddressMode::PreDecIndirectA => Which::A,
        AddressMode::PreDecIndirectB => Which::B,
        _ => { return ; },
    };
    let p = plus_mod(pc, field.value, coresize);
    let mut cell = core[p];
    let mut value = cell.get(which);
    decrement_mod(&mut value, coresize);
    cell.set(which, value);
    proof {
        lemma_poke_ok(core@, p as int, which, value as int);
    }
    core[p] = cell;
}

/// Applies the post-increment of one field of the instruction at `pc`.
pub fn apply_post_increment(core: &mut Vec<Instruction>, coresize: usize, pc: usize, field: Field)
    requires
        core_ok(old(core)@, coresize as int),
        pc < coresize,
        field.value < coresize,
    ensures
        final(core)@ == post_increment(old(core)@, pc as int, field),
        core_ok(final(core)@, coresize as int),
{
    let which = match field.address_mode {
        AddressMode::PostIncIndirectA => Which::A,
        AddressMode::PostIncIndirectB => Which::B,
        _ => { return ; },
    };
    let p = plus_mod(pc, field.value, coresize);
    let mut cell = core[p];
    let mut value = cell.get(which);
    increment_mod(&mut value, coresize);
    cell.set(which, value);
    proof {
        lemma_poke_ok(core@, p as int, which, value as int);
    }
    core[p] = cell;
}

/// The absolute address that one field of the instruction at `pc` refers to.
pub fn effective_address(core: &Vec<Instruction>, coresize: usize, pc: usize, field: Field) -> (addr:
    usize)
    requires
        core_ok(core@, coresize as int),
        pc < coresize,
        field.value < coresize,
    ensures
        addr == resolve(core@, pc as int, field),
        addr < coresize,
{
    let which = match field.address_mode {
        AddressMode::Immediate => { return pc; },
        AddressMode::Direct => { return plus_mod(pc, field.value, coresize); },
        AddressMode::IndirectA | AddressMode::PreDecIndirectA | AddressMode::PostIncIndirectA => Which::A,
        AddressMode::IndirectB | AddressMode::PreDecIndirectB | AddressMode::PostIncIndirectB => Which::B,
    };
    let p = plus_mod(pc, field.value, coresize);
    let offset = core[p].get(which);
    proof {
        let n = coresize as int;
        vstd::arithmetic::div_mod::lemma_add_mod_noop(pc + field.value, offset as int, n);
        vstd::arithmetic::div_mod::lemma_small_mod(offset as nat, n as nat);
    }
    plus_mod(p, offset, coresize)
}

/// Both addresses of the instruction at `pc`: where it reads and where it writes.
pub fn calculate_source_and_dest_pointers(
    instruction: &Instruction,
    core: &Vec<Instruction>,
    process_pointer: usize,
    coresize: usize,
) -> (pointers: (usize, usize))
    requires
        core_ok(core@, coresize as int),
        process_pointer < coresize,
        instruction.in_range(coresize as int),
    ensures
        pointers.0 == resolve(core@, process_pointer as int, instruction.field_a),
        pointers.1 == resolve(core@, process_pointer as int, instruction.field_b),
        pointers.0 < coresize,
        pointers.1 < coresize,
{
    let source = effective_address(core, coresize, process_pointer, instruction.field_a);
    let destination = effective_address(core, coresize, process_pointer, instruction.field_b);
    (source, destination)
}

/// The value of one field of the cell at `addr`, to read and to change, with
/// `addr` taken modulo the size of the core.
pub fn field_mut(core: &mut Vec<Instruction>, addr: usize, which: Which) -> (value: &mut usize)
    requires
        old(core).len() > 0,
    ensures
        *value == old(core)@[addr as int % old(core).len() as int].value(which),
        final(core)@ == poke(
            old(core)@,
            addr as int % old(core).len() as int,
            which,
            *final(value) as int,
        ),
{
    let n = core.len();
    match which {
        Which::A => &mut core[addr % n].field_a.value,
        Which::B => &mut core[addr % n].field_b.value,
    }
}

} // verus!
