//! Laws of the machine: what holds of every core, every instruction and
//! every battle.

use vstd::prelude::*;
use crate::arith::{add_mod, inc_mod};
use crate::execute::{
    combined, combined_value, decremented, lemma_update_ok, next_pointer, operate, queue_ok, step,
    stepped_queue, written, zero_divisor,
};
use crate::instruction::{Field, Instruction, Modifier, Opcode, Process, Which};
use crate::memory::{
    core_ok, lemma_poke_ok, lemma_resolve_range, pointer_cell, post_increment, pre_decrement, resolve,
};
use crate::scheduler::{finish_round, full_step_spec, part_step_spec, rotated_queue, Battle};

verus! {

/// After `MOV.I` has copied the cell at `src` to `dst`, a `SEQ.I` (or
/// `CMP.I`) that compares the two, in either order, skips the next instruction.
pub proof fn lemma_mov_then_seq_skips(
    core: Seq<Instruction>,
    mov: Instruction,
    seq: Instruction,
    pc: int,
    src: int,
    dst: int,
)
    requires
        0 <= src < core.len(),
        0 <= dst < core.len(),
        mov.opcode == Opcode::Mov,
        mov.modifier == Modifier::I,
        seq.opcode == Opcode::SkipEq || seq.opcode == Opcode::Cmp,
        seq.modifier == Modifier::I,
    ensures
        written(core, mov, src, dst)[dst] == core[src],
        written(core, mov, src, dst)[src] == core[src],
        next_pointer(written(core, mov, src, dst), seq, pc, src, dst) == add_mod(
            pc,
            2,
            core.len() as int,
        ),
        next_pointer(written(core, mov, src, dst), seq, pc, dst, src) == add_mod(
            pc,
            2,
            core.len() as int,
        ),
{
}

/// An instruction whose address modes are free of side effects touches the
/// core only through its opcode.
pub proof fn lemma_pure_modes_only_opcode_writes(core: Seq<Instruction>, pc: int)
    requires
        core[pc].field_a.address_mode.is_pure(),
        core[pc].field_b.address_mode.is_pure(),
    ensures
        step(core, pc).core == written(
            core,
            core[pc],
            resolve(core, pc, core[pc].field_a),
            resolve(core, pc, core[pc].field_b),
        ),
{
}

/// Two instructions in a row, both with address modes free of side effects:
/// when the first is a `MOV.I` and the process then stands on a `SEQ.I` (or
/// `CMP.I`) that refers to the same two cells, that process skips the
/// instruction after the `SEQ.I`.
pub proof fn lemma_mov_seq_in_a_row(core: Seq<Instruction>, pc: int)
    requires
        core.len() > 0,
        0 <= pc < core.len(),
        core[pc].opcode == Opcode::Mov,
        core[pc].modifier == Modifier::I,
        core[pc].field_a.address_mode.is_pure(),
        core[pc].field_b.address_mode.is_pure(),
        ({
            let first = step(core, pc);
            let then = first.core[first.pointer];
            &&& then.opcode == Opcode::SkipEq || then.opcode == Opcode::Cmp
            &&& then.modifier == Modifier::I
            &&& then.field_a.address_mode.is_pure()
            &&& then.field_b.address_mode.is_pure()
            &&& resolve(first.core, first.pointer, then.field_a) == resolve(
                core,
                pc,
                core[pc].field_a,
            )
            &&& resolve(first.core, first.pointer, then.field_b) == resolve(
                core,
                pc,
                core[pc].field_b,
            )
        }),
    ensures
        step(core, pc).alive,
        step(core, pc).pointer == add_mod(pc, 1, core.len() as int),
        step(step(core, pc).core, step(core, pc).pointer).alive,
        step(step(core, pc).core, step(core, pc).pointer).pointer == add_mod(
            step(core, pc).pointer,
            2,
            core.len() as int,
        ),
        step(step(core, pc).core, step(core, pc).pointer).core == step(core, pc).core,
{
    let src = resolve(core, pc, core[pc].field_a);
    let dst = resolve(core, pc, core[pc].field_b);
    crate::memory::lemma_resolve_range(core, pc, core[pc].field_a);
    crate::memory::lemma_resolve_range(core, pc, core[pc].field_b);
    let first = step(core, pc);
    lemma_pure_modes_only_opcode_writes(core, pc);
    let then = first.core[first.pointer];
    lemma_mov_then_seq_skips(core, core[pc], then, first.pointer, src, dst);
    lemma_pure_modes_only_opcode_writes(first.core, first.pointer);
}

/// A turn in which a `NOP` with address modes free of side effects is
/// executed changes nothing but this: the process that executed it goes one
/// cell on and to the back of its team's queue, and the turn passes on.
pub proof fn lemma_nop_turn(battle: Battle)
    requires
        0 <= battle.turn < battle.queues.len(),
        battle.queues[battle.turn].len() > 0,
        ({
            let nop = battle.core[battle.queues[battle.turn][0].pointer as int];
            &&& nop.opcode == Opcode::Nop
            &&& nop.field_a.address_mode.is_pure()
            &&& nop.field_b.address_mode.is_pure()
        }),
    ensures
        ({
            let queue = battle.queues[battle.turn];
            let moved = Process {
                team: queue[0].team,
                pointer: add_mod(queue[0].pointer as int, 1, battle.core.len() as int) as usize,
            };
            part_step_spec(battle) == Battle {
                core: battle.core,
                queues: battle.queues.update(battle.turn, queue.drop_first().push(moved)),
                turn: inc_mod(battle.turn, battle.queues.len() as int),
            }
        }),
{
    let queue = battle.queues[battle.turn];
    let pc = queue[0].pointer as int;
    let outcome = step(battle.core, pc);
    lemma_pure_modes_only_opcode_writes(battle.core, pc);
    let moved = Process {
        team: queue[0].team,
        pointer: add_mod(pc, 1, battle.core.len() as int) as usize,
    };
    let stepped = stepped_queue(queue, outcome);
    assert(stepped =~= seq![moved] + queue.drop_first());
    assert(stepped.drop_first() =~= queue.drop_first());
    assert(stepped.drop_first().push(stepped[0]) =~= queue.drop_first().push(moved));
}

/// A pre-decrement of a field that holds zero leaves `coresize - 1` in it,
/// and touches nothing else.
pub proof fn lemma_pre_decrement_wraps(core: Seq<Instruction>, pc: int, field: Field, which: Which)
    requires
        core.len() > 0,
        0 <= pc < core.len(),
        field.address_mode.pre_decrements() == Some(which),
        core[pointer_cell(core, pc, field)].value(which) == 0,
    ensures
        ({
            let p = pointer_cell(core, pc, field);
            pre_decrement(core, pc, field) == core.update(
                p,
                core[p].with_value(which, core.len() - 1),
            )
        }),
{
    crate::memory::lemma_resolve_range(core, pc, field);
}

/// A post-increment of a field that holds `coresize - 1` leaves zero in it,
/// and touches nothing else.
pub proof fn lemma_post_increment_wraps(core: Seq<Instruction>, pc: int, field: Field, which: Which)
    requires
        core.len() > 0,
        0 <= pc < core.len(),
        field.address_mode.post_increments() == Some(which),
        core[pointer_cell(core, pc, field)].value(which) == core.len() - 1,
    ensures
        ({
            let p = pointer_cell(core, pc, field);
            post_increment(core, pc, field) == core.update(p, core[p].with_value(which, 0))
        }),
{
    crate::memory::lemma_resolve_range(core, pc, field);
}

/// `DIV` and `MOD` with a zero among the divisors that take part kill the
/// process and write nothing: the core changes only by the side effects of
/// the address modes, and not at all when the modes have none.
pub proof fn lemma_division_fault(core: Seq<Instruction>, pc: int)
    requires
        core[pc].opcode == Opcode::Div || core[pc].opcode == Opcode::Mod,
        ({
            let before = pre_decrement(
                pre_decrement(core, pc, core[pc].field_a),
                pc,
                core[pc].field_b,
            );
            zero_divisor(core[pc].modifier, before[resolve(before, pc, core[pc].field_a)])
        }),
    ensures
        !step(core, pc).alive,
        step(core, pc).child is None,
        step(core, pc).core == post_increment(
            post_increment(
                pre_decrement(pre_decrement(core, pc, core[pc].field_a), pc, core[pc].field_b),
                pc,
                core[pc].field_a,
            ),
            pc,
            core[pc].field_b,
        ),
        core[pc].field_a.address_mode.is_pure() && core[pc].field_b.address_mode.is_pure()
            ==> step(core, pc).core == core,
        forall|queue: Seq<Process>| #[trigger]
            stepped_queue(queue, step(core, pc)) == queue.drop_first(),
{
}

/// The state of a battle after a number of full steps.
pub open spec fn after_full_steps(battle: Battle, steps: nat) -> Battle
    decreases steps,
{
    if steps == 0 {
        battle
    } else {
        after_full_steps(full_step_spec(battle), (steps - 1) as nat)
    }
}

/// A battle has no hidden state: from equal cores, queues and turn, the same
/// number of full steps leads to equal cores, queues and turn.
pub proof fn lemma_deterministic(first: Battle, second: Battle, steps: nat)
    requires
        first.core == second.core,
        first.queues == second.queues,
        first.turn == second.turn,
    ensures
        after_full_steps(first, steps) == after_full_steps(second, steps),
{
}

/// The side effects of an address mode keep the core well formed.
pub proof fn lemma_side_effects_ok(core: Seq<Instruction>, pc: int, field: Field)
    requires
        core_ok(core, core.len() as int),
        0 <= pc < core.len(),
    ensures
        core_ok(pre_decrement(core, pc, field), core.len() as int),
        core_ok(post_increment(core, pc, field), core.len() as int),
{
    let n = core.len() as int;
    lemma_resolve_range(core, pc, field);
    let p = pointer_cell(core, pc, field);
    assert(core[p].in_range(n));
    match field.address_mode.pre_decrements() {
        Some(which) => {
            crate::arith::lemma_inc_dec_as_add_sub(core[p].value(which), n);
            lemma_poke_ok(core, p, which, crate::arith::dec_mod(core[p].value(which), n));
        },
        None => {},
    }
    match field.address_mode.post_increments() {
        Some(which) => {
            crate::arith::lemma_inc_dec_as_add_sub(core[p].value(which), n);
            lemma_poke_ok(core, p, which, inc_mod(core[p].value(which), n));
        },
        None => {},
    }
}

/// What an opcode makes of two values on the ring is on the ring again.
pub proof fn lemma_operate_range(opcode: Opcode, d: int, s: int, n: int)
    requires
        0 <= d < n,
        0 <= s < n,
    ensures
        0 <= operate(opcode, d, s, n) < n,
{
    match opcode {
        Opcode::Mul => {
            assert(0 <= (d * s) % n < n) by (nonlinear_arith)
                requires
                    n > 0,
            ;
        },
        Opcode::Div => {
            if s != 0 {
                assert(0 <= d / s <= d) by (nonlinear_arith)
                    requires
                        0 <= d,
                        0 < s,
                ;
            }
        },
        Opcode::Mod => {
            if s != 0 {
                assert(0 <= d % s < s) by (nonlinear_arith)
                    requires
                        0 <= d,
                        0 < s,
                ;
            }
        },
        _ => {},
    }
}

/// The opcode keeps the core well formed.
pub proof fn lemma_written_ok(core: Seq<Instruction>, instruction: Instruction, src: int, dst: int)
    requires
        core_ok(core, core.len() as int),
        0 <= src < core.len(),
        0 <= dst < core.len(),
    ensures
        core_ok(written(core, instruction, src, dst), core.len() as int),
{
    let n = core.len() as int;
    let opcode = instruction.opcode;
    let modifier = instruction.modifier;
    let source = core[src];
    let destination = core[dst];
    assert(source.in_range(n));
    assert(destination.in_range(n));
    match opcode {
        Opcode::Mov | Opcode::Add | Opcode::Sub | Opcode::Mul | Opcode::Div | Opcode::Mod => {
            if !((opcode == Opcode::Div || opcode == Opcode::Mod) && zero_divisor(
                modifier,
                source,
            )) {
                assert forall|target: Which|
                    0 <= #[trigger] combined_value(
                        opcode,
                        modifier,
                        source,
                        destination,
                        target,
                        n,
                    ) < n by {
                    match modifier.source_for(target) {
                        Some(from) => {
                            lemma_operate_range(
                                opcode,
                                destination.value(target),
                                source.value(from),
                                n,
                            );
                        },
                        None => {},
                    }
                }
                let cell = combined(opcode, modifier, source, destination, n);
                assert(0 <= combined_value(opcode, modifier, source, destination, Which::A, n) < n);
                assert(0 <= combined_value(opcode, modifier, source, destination, Which::B, n) < n);
                assert(cell.in_range(n));
                lemma_update_ok(core, dst, cell);
            }
        },
        Opcode::Djn => {
            crate::arith::lemma_inc_dec_as_add_sub(destination.value(Which::A), n);
            crate::arith::lemma_inc_dec_as_add_sub(destination.value(Which::B), n);
            lemma_update_ok(core, dst, decremented(modifier, destination, n));
        },
        _ => {},
    }
}

/// Executing an instruction keeps the core well formed and the process,
/// and the one it may have created, inside the core.
pub proof fn lemma_step_keeps_invariant(core: Seq<Instruction>, pc: int)
    requires
        core_ok(core, core.len() as int),
        0 <= pc < core.len(),
    ensures
        core_ok(step(core, pc).core, core.len() as int),
        step(core, pc).core.len() == core.len(),
        0 <= step(core, pc).pointer < core.len(),
        step(core, pc).child matches Some(entry) ==> 0 <= entry < core.len(),
{
    let instruction = core[pc];
    let first = pre_decrement(core, pc, instruction.field_a);
    lemma_side_effects_ok(core, pc, instruction.field_a);
    let before = pre_decrement(first, pc, instruction.field_b);
    lemma_side_effects_ok(first, pc, instruction.field_b);
    let src = resolve(before, pc, instruction.field_a);
    let dst = resolve(before, pc, instruction.field_b);
    lemma_resolve_range(before, pc, instruction.field_a);
    lemma_resolve_range(before, pc, instruction.field_b);
    let after = written(before, instruction, src, dst);
    lemma_written_ok(before, instruction, src, dst);
    let third = post_increment(after, pc, instruction.field_a);
    lemma_side_effects_ok(after, pc, instruction.field_a);
    lemma_side_effects_ok(third, pc, instruction.field_b);
}

/// A turn keeps the invariant of a battle: the core keeps its size and its
/// values stay on the ring, every process points into the core, no team
/// without a process is listed, and the turn names a listed team.
pub proof fn lemma_part_step_keeps_invariant(battle: Battle, coresize: int)
    requires
        battle.ok(coresize),
        battle.live(),
    ensures
        part_step_spec(battle).ok(coresize),
        part_step_spec(battle).core.len() == coresize,
{
    let queue = battle.queues[battle.turn];
    assert(queue.len() > 0 && queue_ok(queue, coresize));
    let pc = queue[0].pointer as int;
    lemma_step_keeps_invariant(battle.core, pc);
    let outcome = step(battle.core, pc);
    let stepped = stepped_queue(queue, outcome);
    assert(queue_ok(stepped, coresize));
    let rotated = rotated_queue(queue, outcome);
    assert(queue_ok(rotated, coresize));
    let next = part_step_spec(battle);
    assert forall|t: int| 0 <= t < next.queues.len() implies (#[trigger] next.queues[t]).len() > 0
        && queue_ok(next.queues[t], coresize) by {
        if rotated.len() == 0 {
            if t < battle.turn {
                assert(next.queues[t] == battle.queues[t]);
            } else {
                assert(next.queues[t] == battle.queues[t + 1]);
            }
        } else {
            if t != battle.turn {
                assert(next.queues[t] == battle.queues[t]);
            }
        }
    }
}

/// The rest of a round keeps the invariant of a battle.
pub proof fn lemma_finish_round_keeps_invariant(battle: Battle, coresize: int)
    requires
        battle.ok(coresize),
    ensures
        finish_round(battle).ok(coresize),
    decreases
        (if battle.turn == 0 {
            0
        } else {
            battle.queues.len() - battle.turn
        }),
{
    if 0 < battle.turn < battle.queues.len() && battle.queues.len() > 1 {
        lemma_part_step_keeps_invariant(battle, coresize);
        lemma_finish_round_keeps_invariant(part_step_spec(battle), coresize);
    }
}

/// A full step keeps the invariant of a battle.
pub proof fn lemma_full_step_keeps_invariant(battle: Battle, coresize: int)
    requires
        battle.ok(coresize),
        battle.live(),
    ensures
        full_step_spec(battle).ok(coresize),
{
    lemma_part_step_keeps_invariant(battle, coresize);
    lemma_finish_round_keeps_invariant(part_step_spec(battle), coresize);
}

/// The state of a battle after a number of turns.
pub open spec fn after_turns(battle: Battle, turns: nat) -> Battle
    decreases turns,
{
    if turns == 0 {
        battle
    } else {
        after_turns(part_step_spec(battle), (turns - 1) as nat)
    }
}

/// The rest of a round in which no team is lost: each of the `left` teams
/// that have not acted yet takes one turn, in order.
pub proof fn lemma_rest_of_round(battle: Battle, left: nat)
    requires
        left < battle.queues.len(),
        battle.turn == (if left == 0 {
            0
        } else {
            battle.queues.len() - left
        }),
        forall|k: nat| k <= left ==> #[trigger] after_turns(battle, k).queues.len() == battle.queues.len(),
    ensures
        finish_round(battle) == after_turns(battle, left),
        after_turns(battle, left).turn == 0,
        forall|k: nat| k < left ==> #[trigger] after_turns(battle, k).turn == battle.turn + k,
    decreases left,
{
    if left > 0 {
        let next = part_step_spec(battle);
        assert(after_turns(battle, 1) == after_turns(next, 0));
        assert(after_turns(next, 0) == next);
        assert(next.queues.len() == battle.queues.len());
        assert forall|k: nat| k <= left - 1 implies #[trigger] after_turns(next, k).queues.len()
            == next.queues.len() by {
            assert(after_turns(battle, k + 1) == after_turns(next, k));
        }
        lemma_rest_of_round(next, (left - 1) as nat);
        assert forall|k: nat| k < left implies #[trigger] after_turns(battle, k).turn
            == battle.turn + k by {
            if k > 0 {
                assert(after_turns(battle, k) == after_turns(next, (k - 1) as nat));
            }
        }
    }
}

/// Teams take turns strictly one after the other: in a full step that
/// begins with the first team and in which no team is lost, turn `k` is the
/// turn of team `k`, and after one turn of each team the full step is over.
pub proof fn lemma_full_step_is_one_turn_each(battle: Battle)
    requires
        battle.turn == 0,
        battle.queues.len() > 0,
        forall|k: nat|
            k <= battle.queues.len() ==> #[trigger] after_turns(battle, k).queues.len()
                == battle.queues.len(),
    ensures
        full_step_spec(battle) == after_turns(battle, battle.queues.len()),
        full_step_spec(battle).turn == 0,
        forall|k: nat| k < battle.queues.len() ==> #[trigger] after_turns(battle, k).turn == k,
{
    let teams = battle.queues.len();
    let next = part_step_spec(battle);
    assert(after_turns(battle, 1) == after_turns(next, 0));
    assert(after_turns(next, 0) == next);
    assert(next.queues.len() == teams);
    assert forall|k: nat| k <= teams - 1 implies #[trigger] after_turns(next, k).queues.len()
        == next.queues.len() by {
        assert(after_turns(battle, k + 1) == after_turns(next, k));
    }
    lemma_rest_of_round(next, (teams - 1) as nat);
    assert(after_turns(battle, teams) == after_turns(next, (teams - 1) as nat));
    assert forall|k: nat| k < teams implies #[trigger] after_turns(battle, k).turn == k by {
        if k > 0 {
            assert(after_turns(battle, k) == after_turns(next, (k - 1) as nat));
        }
    }
}

} // verus!
