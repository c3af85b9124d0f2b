//! The loader: turns two parsed warriors into the initial core and the
//! initial process queues, the second warrior at a random distance from the
//! first.

use vstd::prelude::*;
use rand::rngs::StdRng;
use rand::{Rng, SeedableRng};
use std::collections::VecDeque;
use crate::arith::{increment_mod, negative_mod, normalize, plus_mod};
use crate::execute::lemma_update_ok;
use crate::instruction::{AddressMode, Field, Instruction, Modifier, Opcode, Process};
use crate::memory::core_ok;
use crate::scheduler::{battle_of, queues_view, Battle};

verus! {

/// An operand as the parser gives it: the value is a signed offset.
#[derive(Clone, Copy, Debug, PartialEq, Eq, Structural)]
pub struct ParsedField {
    pub address_mode: AddressMode,
    pub value: i32,
}

/// An instruction as the parser gives it.
#[derive(Clone, Copy, Debug, PartialEq, Eq, Structural)]
pub struct ParsedInstruction {
    pub opcode: Opcode,
    pub modifier: Modifier,
    pub field_a: ParsedField,
    pub field_b: ParsedField,
}

/// A parsed warrior: its code, and the offset in it at which it starts.
#[derive(Debug)]
pub struct Warrior {
    pub instructions: Vec<ParsedInstruction>,
    /// The entry point as an index into `instructions`; zero when absent.
    pub origin: Option<u32>,
}

/// Why the loader could not set up a battle.
#[derive(Clone, Copy, Debug, PartialEq, Eq, Structural)]
pub enum LoadError {
    /// No place is left for the second warrior at the least distance from the first.
    CoreTooSmall,
}

impl Warrior {
    /// The entry point of the warrior within its own code.
    pub open spec fn entry(self) -> int {
        match self.origin {
            Some(offset) => offset as int,
            None => 0,
        }
    }
}

/// The least distance between two warriors, on either side.
pub open spec fn min_separation(coresize: int) -> int {
    coresize / 80
}

/// The least address at which the second warrior may be placed.
pub open spec fn placement_low(length_a: int, coresize: int) -> int {
    length_a + min_separation(coresize)
}

/// The bound below which the second warrior is placed.
pub open spec fn placement_high(coresize: int) -> int {
    coresize - min_separation(coresize)
}

/// Whether `offset` is a place for the second warrior.
pub open spec fn placement_allows(length_a: int, coresize: int, offset: int) -> bool {
    placement_low(length_a, coresize) <= offset < placement_high(coresize)
}

/// Whether there is any place for the second warrior.
pub open spec fn can_place(length_a: int, coresize: int) -> bool {
    placement_low(length_a, coresize) < placement_high(coresize)
}

/// A parsed field with its value wrapped onto the ring.
pub open spec fn translated_field(field: ParsedField, coresize: int) -> Field {
    Field {
        address_mode: field.address_mode,
        value: normalize(field.value as int, coresize) as usize,
    }
}

/// A parsed instruction as a cell of a core of `coresize` cells.
pub open spec fn translated(instruction: ParsedInstruction, coresize: int) -> Instruction {
    Instruction {
        opcode: instruction.opcode,
        modifier: instruction.modifier,
        field_a: translated_field(instruction.field_a, coresize),
        field_b: translated_field(instruction.field_b, coresize),
    }
}

/// A cell of the core with its values wrapped onto the ring.
pub open spec fn wrapped(cell: Instruction, coresize: int) -> Instruction {
    Instruction {
        opcode: cell.opcode,
        modifier: cell.modifier,
        field_a: Field {
            address_mode: cell.field_a.address_mode,
            value: (cell.field_a.value as int % coresize) as usize,
        },
        field_b: Field {
            address_mode: cell.field_b.address_mode,
            value: (cell.field_b.value as int % coresize) as usize,
        },
    }
}

/// The address of instruction `i` of a program that is written from `base` on.
pub open spec fn program_address(base: int, i: int, coresize: int) -> int {
    (base + i) % coresize
}

/// The core after the first `count` instructions of `program` have been
/// written to it, instruction `i` at address `(base + i) mod coresize`.
pub open spec fn with_program(
    core: Seq<Instruction>,
    program: Seq<ParsedInstruction>,
    base: int,
    count: int,
) -> Seq<Instruction>
    decreases count,
{
    if count <= 0 {
        core
    } else {
        with_program(core, program, base, count - 1).update(
            program_address(base, count - 1, core.len() as int),
            translated(program[count - 1], core.len() as int),
        )
    }
}

/// The core at the start of a battle: filled with the default cell, the first
/// warrior at address zero and the second at `offset`.
pub open spec fn loaded_core(
    a: Seq<ParsedInstruction>,
    b: Seq<ParsedInstruction>,
    coresize: int,
    fill: Instruction,
    offset: int,
) -> Seq<Instruction> {
    let empty = Seq::new(coresize as nat, |i: int| wrapped(fill, coresize));
    with_program(with_program(empty, a, 0, a.len() as int), b, offset, b.len() as int)
}

/// The queues at the start of a battle: one process for each team, at the
/// entry point of its warrior.
pub open spec fn loaded_queues(a: Warrior, b: Warrior, coresize: int, offset: int) -> Seq<
    Seq<Process>,
> {
    seq![
        seq![Process { team: 0, pointer: (a.entry() % coresize) as usize }],
        seq![Process { team: 1, pointer: ((offset + b.entry()) % coresize) as usize }],
    ]
}

/// The battle that the loader sets up when it places the second warrior at `offset`.
pub open spec fn loaded(a: Warrior, b: Warrior, coresize: int, fill: Instruction, offset: int) -> Battle {
    Battle {
        core: loaded_core(a.instructions@, b.instructions@, coresize, fill, offset),
        queues: loaded_queues(a, b, coresize, offset),
        turn: 0,
    }
}

/// Writing a program keeps the size of the core and its well-formedness.
pub proof fn lemma_with_program_ok(
    core: Seq<Instruction>,
    program: Seq<ParsedInstruction>,
    base: int,
    count: int,
)
    requires
        core_ok(core, core.len() as int),
        core.len() > 0,
        0 <= base,
        count <= program.len(),
    ensures
        core_ok(with_program(core, program, base, count), core.len() as int),
    decreases count,
{
    if count > 0 {
        lemma_with_program_ok(core, program, base, count - 1);
        let n = core.len() as int;
        let cell = translated(program[count - 1], n);
        crate::arith::lemma_normalize_range(program[count - 1].field_a.value as int, n);
        crate::arith::lemma_normalize_range(program[count - 1].field_b.value as int, n);
        let at = program_address(base, count - 1, n);
        assert(0 <= at < n);
        lemma_update_ok(with_program(core, program, base, count - 1), at, cell);
    }
}

/// Two addresses less than a whole turn of the ring apart are different cells.
pub proof fn lemma_distinct_cells(base: int, i: int, j: int, n: int)
    requires
        0 <= i < j < i + n,
    ensures
        (base + i) % n != (base + j) % n,
{
    let x = base + i;
    let y = base + j;
    if x % n == y % n {
        vstd::arithmetic::div_mod::lemma_fundamental_div_mod(x, n);
        vstd::arithmetic::div_mod::lemma_fundamental_div_mod(y, n);
        let d = y / n - x / n;
        assert(j - i == n * d) by (nonlinear_arith)
            requires
                x == n * (x / n) + x % n,
                y == n * (y / n) + y % n,
                x % n == y % n,
                j - i == y - x,
                d == y / n - x / n,
        ;
        assert(false) by (nonlinear_arith)
            requires
                j - i == n * d,
                0 < j - i < n,
        ;
    }
}

/// What writing a program that fits into the core comes to: instruction `i`
/// stands at `(base + i) mod coresize`, and every other cell is as it was.
pub proof fn lemma_with_program_cells(
    core: Seq<Instruction>,
    program: Seq<ParsedInstruction>,
    base: int,
    count: int,
)
    requires
        core.len() > 0,
        0 <= base,
        0 <= count <= program.len(),
        count <= core.len(),
    ensures
        with_program(core, program, base, count).len() == core.len(),
        forall|i: int|
            0 <= i < count ==> with_program(core, program, base, count)[#[trigger] program_address(
                base,
                i,
                core.len() as int,
            )] == translated(program[i], core.len() as int),
        forall|k: int|
            0 <= k < core.len() && (forall|i: int|
                0 <= i < count ==> #[trigger] program_address(base, i, core.len() as int) != k)
                ==> #[trigger] with_program(core, program, base, count)[k] == core[k],
    decreases count,
{
    let n = core.len() as int;
    if count > 0 {
        lemma_with_program_cells(core, program, base, count - 1);
        let shorter = with_program(core, program, base, count - 1);
        let longer = with_program(core, program, base, count);
        let at = program_address(base, count - 1, n);
        assert(0 <= at < n);
        assert forall|i: int| 0 <= i < count implies longer[#[trigger] program_address(base, i, n)]
            == translated(program[i], n) by {
            assert(0 <= program_address(base, i, n) < n);
            if i < count - 1 {
                lemma_distinct_cells(base, i, count - 1, n);
                assert(shorter[program_address(base, i, n)] == translated(program[i], n));
            }
        }
        assert forall|k: int|
            0 <= k < n && (forall|i: int|
                0 <= i < count ==> #[trigger] program_address(base, i, n) != k)
            implies #[trigger] longer[k] == core[k] by {
            assert(program_address(base, count - 1, n) != k);
            assert(forall|i: int| 0 <= i < count - 1 ==> #[trigger] program_address(base, i, n) != k);
            assert(shorter[k] == core[k]);
        }
    }
}

/// The core at the start of a battle, when the second warrior does not reach
/// round the end of the core: the first warrior stands at address zero, the
/// second at `offset`, and all other cells hold the default cell.
pub proof fn lemma_loaded_core_cells(
    a: Seq<ParsedInstruction>,
    b: Seq<ParsedInstruction>,
    coresize: int,
    fill: Instruction,
    offset: int,
)
    requires
        0 <= coresize,
        placement_allows(a.len() as int, coresize, offset),
        offset + b.len() <= coresize,
    ensures
        loaded_core(a, b, coresize, fill, offset).len() == coresize,
        forall|k: int|
            0 <= k < coresize ==> #[trigger] loaded_core(a, b, coresize, fill, offset)[k] == (if k
                < a.len() {
                translated(a[k], coresize)
            } else if offset <= k < offset + b.len() {
                translated(b[k - offset], coresize)
            } else {
                wrapped(fill, coresize)
            }),
{
    assert(coresize > 0 && offset >= 0 && a.len() <= offset);
    let empty = Seq::new(coresize as nat, |i: int| wrapped(fill, coresize));
    let first = with_program(empty, a, 0, a.len() as int);
    let both = with_program(first, b, offset, b.len() as int);
    assert(empty.len() == coresize);
    lemma_with_program_cells(empty, a, 0, a.len() as int);
    lemma_with_program_cells(first, b, offset, b.len() as int);
    assert forall|i: int| 0 <= i < b.len() implies #[trigger] program_address(offset, i, coresize)
        == offset + i by {
        vstd::arithmetic::div_mod::lemma_small_mod((offset + i) as nat, coresize as nat);
    }
    assert forall|i: int| 0 <= i < a.len() implies #[trigger] program_address(0, i, coresize)
        == i by {
        vstd::arithmetic::div_mod::lemma_small_mod(i as nat, coresize as nat);
    }
    assert forall|k: int| 0 <= k < coresize implies #[trigger] both[k] == (if k < a.len() {
        translated(a[k], coresize)
    } else if offset <= k < offset + b.len() {
        translated(b[k - offset], coresize)
    } else {
        wrapped(fill, coresize)
    }) by {
        if offset <= k < offset + b.len() {
            assert(program_address(offset, k - offset, coresize) == k);
        } else {
            assert(both[k] == first[k]);
            if k < a.len() {
                assert(program_address(0, k, coresize) == k);
            } else {
                assert(first[k] == empty[k]);
            }
        }
    }
}

/// Wraps the values of a parsed instruction onto the ring.
pub fn translate_instruction(old_instruction: ParsedInstruction, coresize: usize) -> (cell:
    Instruction)
    requires
        coresize > 0,
    ensures
        cell == translated(old_instruction, coresize as int),
        cell.in_range(coresize as int),
{
    let field_a_value = negative_mod(old_instruction.field_a.value as isize, coresize);
    let field_b_value = negative_mod(old_instruction.field_b.value as isize, coresize);
    Instruction {
        opcode: old_instruction.opcode,
        modifier: old_instruction.modifier,
        field_a: Field { address_mode: old_instruction.field_a.address_mode, value: field_a_value },
        field_b: Field { address_mode: old_instruction.field_b.address_mode, value: field_b_value },
    }
}

/// The bounds between which the second warrior may be placed: `low` is the
/// least address and `high` the first one that is too far. `None` when
/// nothing lies between them.
pub fn placement_range(length_a: usize, coresize: usize) -> (range: Option<(usize, usize)>)
    ensures
        range is Some <==> can_place(length_a as int, coresize as int),
        range matches Some((low, high)) ==> low == placement_low(length_a as int, coresize as int)
            && high == placement_high(coresize as int),
{
    let separation = coresize / 80;
    let high = coresize - separation;
    if length_a < high && separation < high - length_a {
        Some((length_a + separation, high))
    } else {
        None
    }
}

/// Writes `program` into the core, instruction `i` at `(base + i) mod coresize`.
fn write_program(
    core: &mut Vec<Instruction>,
    coresize: usize,
    program: &Vec<ParsedInstruction>,
    base: usize,
)
    requires
        core_ok(old(core)@, coresize as int),
        base < coresize,
    ensures
        final(core)@ == with_program(old(core)@, program@, base as int, program@.len() as int),
        core_ok(final(core)@, coresize as int),
{
    let mut address = base;
    let mut i: usize = 0;
    proof {
        vstd::arithmetic::div_mod::lemma_small_mod(base as nat, coresize as nat);
    }
    while i < program.len()
        invariant
            i <= program.len(),
            coresize > 0,
            address < coresize,
            address == program_address(base as int, i as int, coresize as int),
            core@.len() == coresize,
            core@ == with_program(old(core)@, program@, base as int, i as int),
            core_ok(core@, coresize as int),
            core_ok(old(core)@, coresize as int),
        decreases program.len() - i,
    {
        let cell = translate_instruction(program[i], coresize);
        proof {
            lemma_update_ok(core@, address as int, cell);
        }
        core[address] = cell;
        proof {
            let n = coresize as int;
            crate::arith::lemma_inc_dec_as_add_sub(address as int, n);
            vstd::arithmetic::div_mod::lemma_add_mod_noop_right(1, base + i, n);
        }
        increment_mod(&mut address, coresize);
        i = i + 1;
    }
}

/// Sets up a battle with the second warrior at `offset`: the core is filled
/// with `default_instruction`, its values wrapped onto the ring, then the
/// first warrior is written from address zero on and the second from
/// `offset` on, round the end of the core if it reaches that far. Each team
/// starts with one process at the entry point of its warrior.
pub fn place(
    warrior_a: &Warrior,
    warrior_b: &Warrior,
    coresize: usize,
    default_instruction: Instruction,
    offset: usize,
) -> (state: (Vec<Instruction>, Vec<VecDeque<Process>>))
    requires
        placement_allows(warrior_a.instructions@.len() as int, coresize as int, offset as int),
    ensures
        battle_of(state.0@, state.1@, 0) == loaded(
            *warrior_a,
            *warrior_b,
            coresize as int,
            default_instruction,
            offset as int,
        ),
        battle_of(state.0@, state.1@, 0).ok(coresize as int),
{
    let fill = Instruction {
        opcode: default_instruction.opcode,
        modifier: default_instruction.modifier,
        field_a: Field {
            address_mode: default_instruction.field_a.address_mode,
            value: default_instruction.field_a.value % coresize,
        },
        field_b: Field {
            address_mode: default_instruction.field_b.address_mode,
            value: default_instruction.field_b.value % coresize,
        },
    };
    let mut core: Vec<Instruction> = Vec::new();
    let mut k: usize = 0;
    while k < coresize
        invariant
            k <= coresize,
            core@.len() == k,
            forall|i: int| 0 <= i < k ==> core@[i] == fill,
        decreases coresize - k,
    {
        core.push(fill);
        k = k + 1;
    }
    let ghost empty = Seq::new(coresize as nat, |i: int| wrapped(default_instruction, coresize as int));
    assert(core@ =~= empty);
    write_program(&mut core, coresize, &warrior_a.instructions, 0);
    write_program(&mut core, coresize, &warrior_b.instructions, offset);

    let origin_a: usize = match warrior_a.origin {
        Some(n) => n as usize,
        None => 0,
    };
    let origin_b: usize = match warrior_b.origin {
        Some(n) => n as usize,
        None => 0,
    };
    let entry_a = origin_a % coresize;
    let entry_b = plus_mod(offset, origin_b % coresize, coresize);
    proof {
        let n = coresize as int;
        vstd::arithmetic::div_mod::lemma_add_mod_noop(offset as int, origin_b as int, n);
        vstd::arithmetic::div_mod::lemma_small_mod(offset as nat, n as nat);
    }
    let mut queue_a: VecDeque<Process> = VecDeque::new();
    queue_a.push_back(Process { team: 0, pointer: entry_a });
    let mut queue_b: VecDeque<Process> = VecDeque::new();
    queue_b.push_back(Process { team: 1, pointer: entry_b });
    let mut queues: Vec<VecDeque<Process>> = Vec::new();
    queues.push(queue_a);
    queues.push(queue_b);
    proof {
        let expected = loaded_queues(*warrior_a, *warrior_b, coresize as int, offset as int);
        assert(queues_view(queues@)[0] =~= expected[0]);
        assert(queues_view(queues@)[1] =~= expected[1]);
        assert(queues_view(queues@) =~= expected);
    }
    (core, queues)
}

/// Draws the place of the second warrior. This calls `StdRng::seed_from_u64`
/// and `Rng::random_range` of `rand`. Believed, not proved: the draw lies in
/// `low..high`. The range must not be empty, or `random_range` panics.
#[verifier::external_body]
fn draw_offset(seed: u64, low: usize, high: usize) -> (offset: usize)
    requires
        low < high,
    ensures
        low <= offset < high,
{
    StdRng::seed_from_u64(seed).random_range(low..high)
}

/// Sets up a battle between two warriors in a core of `coresize` cells, the
/// first at address zero and the second at a place drawn from `placement_seed`.
/// Fails with `CoreTooSmall` when no place keeps the least distance from the
/// first warrior on both sides.
pub fn init(
    warrior_a: &Warrior,
    warrior_b: &Warrior,
    coresize: usize,
    default_instruction: Instruction,
    placement_seed: u64,
) -> (result: Result<(Vec<Instruction>, Vec<VecDeque<Process>>), LoadError>)
    ensures
        result is Err <==> !can_place(warrior_a.instructions@.len() as int, coresize as int),
        result matches Err(error) ==> error == LoadError::CoreTooSmall,
        result matches Ok(state) ==> battle_of(state.0@, state.1@, 0).ok(coresize as int)
            && exists|offset: int|
            #![trigger loaded(*warrior_a, *warrior_b, coresize as int, default_instruction, offset)]
            placement_allows(warrior_a.instructions@.len() as int, coresize as int, offset)
                && battle_of(state.0@, state.1@, 0) == loaded(
                *warrior_a,
                *warrior_b,
                coresize as int,
                default_instruction,
                offset,
            ),
{
    match placement_range(warrior_a.instructions.len(), coresize) {
        None => Err(LoadError::CoreTooSmall),
        Some((low, high)) => {
            let offset = draw_offset(placement_seed, low, high);
            let state = place(warrior_a, warrior_b, coresize, default_instruction, offset);
            Ok(state)
        },
    }
}

} // verus!
