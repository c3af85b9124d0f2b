//! The scheduler: one queue of processes for each team, a turn cursor that
//! goes round the teams, and the end of a battle.

use vstd::prelude::*;
use std::collections::VecDeque;
use crate::arith::inc_mod;
use crate::execute::{queue_ok, step, step_process, stepped_queue, Outcome};
use crate::instruction::{Instruction, Process};
use crate::memory::core_ok;

verus! {

/// The whole state of a battle: nothing else decides what happens next.
pub struct Battle {
    /// The core.
    pub core: Seq<Instruction>,
    /// The queue of each live team, in the order in which the teams take turns.
    pub queues: Seq<Seq<Process>>,
    /// The index in `queues` of the team that acts next.
    pub turn: int,
}

/// The queues of the teams as sequences of processes.
pub open spec fn queues_view(queues: Seq<VecDeque<Process>>) -> Seq<Seq<Process>> {
    Seq::new(queues.len(), |i: int| queues[i]@)
}

impl Battle {
    /// The invariant of a battle: the core has `coresize` cells with values on
    /// the ring; no team without a process is listed; every process points
    /// into the core; and `turn` names a listed team, or is zero when none is left.
    pub open spec fn ok(self, coresize: int) -> bool {
        &&& core_ok(self.core, coresize)
        &&& forall|t: int|
            0 <= t < self.queues.len() ==> (#[trigger] self.queues[t]).len() > 0 && queue_ok(
                self.queues[t],
                coresize,
            )
        &&& 0 <= self.turn
        &&& self.turn < self.queues.len() || (self.turn == 0 && self.queues.len() == 0)
    }

    /// Whether a team is left to act.
    pub open spec fn live(self) -> bool {
        self.queues.len() > 0
    }
}

/// The queue of the team that has just acted, as it stands for the next
/// round: a process that survived goes to the back of the queue; one that
/// `SPL` created goes to the back instead, and its parent stays at the front.
pub open spec fn rotated_queue(queue: Seq<Process>, outcome: Outcome) -> Seq<Process> {
    let stepped = stepped_queue(queue, outcome);
    if outcome.alive {
        stepped.drop_first().push(stepped[0])
    } else {
        stepped
    }
}

/// One team's turn: its front process executes one instruction, the cursor
/// moves on to the next team, and a team left without a process is taken
/// off the list; a cursor that then points past the end goes back to zero.
pub open spec fn part_step_spec(battle: Battle) -> Battle {
    let queue = battle.queues[battle.turn];
    let outcome = step(battle.core, queue[0].pointer as int);
    let rotated = rotated_queue(queue, outcome);
    let advanced = inc_mod(battle.turn, battle.queues.len() as int);
    if rotated.len() == 0 {
        let rest = battle.queues.remove(battle.turn);
        Battle {
            core: outcome.core,
            queues: rest,
            turn: if advanced >= rest.len() {
                0
            } else {
                advanced
            },
        }
    } else {
        Battle {
            core: outcome.core,
            queues: battle.queues.update(battle.turn, rotated),
            turn: advanced,
        }
    }
}

/// The battle that the three parts of the running state make up.
pub open spec fn battle_of(
    core: Seq<Instruction>,
    queues: Seq<VecDeque<Process>>,
    turn: usize,
) -> Battle {
    Battle { core, queues: queues_view(queues), turn: turn as int }
}

/// A whole round: one turn, and then further turns until the cursor is back
/// at the first team or at most one team is left.
pub open spec fn full_step_spec(battle: Battle) -> Battle {
    finish_round(part_step_spec(battle))
}

/// The turns that are left of a round that has begun.
pub open spec fn finish_round(battle: Battle) -> Battle
    decreases
        (if battle.turn == 0 {
            0
        } else {
            battle.queues.len() - battle.turn
        }),
{
    if 0 < battle.turn < battle.queues.len() && battle.queues.len() > 1 {
        finish_round(part_step_spec(battle))
    } else {
        battle
    }
}

/// Steps the team whose turn it is.
pub fn part_step(
    core: &mut Vec<Instruction>,
    coresize: usize,
    teams_process_queues: &mut Vec<VecDeque<Process>>,
    turn: &mut usize,
)
    requires
        battle_of(old(core)@, old(teams_process_queues)@, *old(turn)).ok(coresize as int),
        battle_of(old(core)@, old(teams_process_queues)@, *old(turn)).live(),
    ensures
        battle_of(final(core)@, final(teams_process_queues)@, *final(turn)) == part_step_spec(
            battle_of(old(core)@, old(teams_process_queues)@, *old(turn)),
        ),
        battle_of(final(core)@, final(teams_process_queues)@, *final(turn)).ok(coresize as int),
{
    let ghost before = battle_of(core@, teams_process_queues@, *turn);
    let teams = teams_process_queues.len();
    let acting = *turn;
    assert(before.queues[acting as int] == teams_process_queues@[acting as int]@);
    let ghost old_queues = teams_process_queues@;
    let process_queue = &mut teams_process_queues[acting];
    let alive = step_process(core, coresize, process_queue);
    if alive {
        let front = process_queue.pop_front();
        process_queue.push_back(front.unwrap());
    }
    let emptied = process_queue.len() == 0;
    assert(queue_ok(process_queue@, coresize as int));
    *turn = if acting + 1 == teams {
        0
    } else {
        acting + 1
    };
    if emptied {
        let _ = teams_process_queues.remove(acting);
        if *turn >= teams_process_queues.len() {
            *turn = 0;
        }
    }
    proof {
        let after = battle_of(core@, teams_process_queues@, *turn);
        let expected = part_step_spec(before);
        assert(after.queues =~= expected.queues);
        assert forall|t: int| 0 <= t < after.queues.len() implies (#[trigger] after.queues[t]).len()
            > 0 && queue_ok(after.queues[t], coresize as int) by {
            if emptied {
                if t < acting {
                    assert(after.queues[t] == before.queues[t]);
                } else {
                    assert(after.queues[t] == before.queues[t + 1]);
                }
            } else {
                if t != acting {
                    assert(after.queues[t] == before.queues[t]);
                }
            }
        }
    }
}

/// Steps every team once: from the team whose turn it is until the cursor is
/// back at the first team, or until at most one team is left.
pub fn full_step(
    core: &mut Vec<Instruction>,
    coresize: usize,
    teams_process_queues: &mut Vec<VecDeque<Process>>,
    turn: &mut usize,
)
    requires
        battle_of(old(core)@, old(teams_process_queues)@, *old(turn)).ok(coresize as int),
        battle_of(old(core)@, old(teams_process_queues)@, *old(turn)).live(),
    ensures
        battle_of(final(core)@, final(teams_process_queues)@, *final(turn)) == full_step_spec(
            battle_of(old(core)@, old(teams_process_queues)@, *old(turn)),
        ),
        battle_of(final(core)@, final(teams_process_queues)@, *final(turn)).ok(coresize as int),
{
    let ghost before = battle_of(core@, teams_process_queues@, *turn);
    part_step(core, coresize, teams_process_queues, turn);
    while *turn != 0 && teams_process_queues.len() > 1
        invariant
            battle_of(core@, teams_process_queues@, *turn).ok(coresize as int),
            finish_round(battle_of(core@, teams_process_queues@, *turn)) == full_step_spec(before),
        decreases
            (if *turn == 0 {
                0
            } else {
                teams_process_queues.len() - *turn
            }),
    {
        part_step(core, coresize, teams_process_queues, turn);
    }
}

/// How a battle ended.
#[derive(Clone, Copy, Debug, PartialEq, Eq, Structural)]
pub enum BattleOutcome {
    /// One team is left: the team with this identifier has won.
    Win(u8),
    /// No team is left, or the step limit was reached with several teams alive.
    Tie,
}

/// The outcome of a battle in which at most one team is left.
pub open spec fn verdict(battle: Battle) -> BattleOutcome {
    if battle.queues.len() == 1 {
        BattleOutcome::Win(battle.queues[0][0].team)
    } else {
        BattleOutcome::Tie
    }
}

/// Where a run of full steps has come to.
pub struct Run {
    /// The state of the battle.
    pub battle: Battle,
    /// The number of full steps made since the battle began.
    pub step_count: int,
    /// The outcome, once the battle is over.
    pub outcome: Option<BattleOutcome>,
}

/// At most `steps` full steps of a battle of which `step_count` full steps
/// have been made. The battle is over, in a tie, when `step_count` has
/// reached `step_limit`; and after a full step that leaves at most one team.
pub open spec fn play_spec(battle: Battle, step_count: int, step_limit: int, steps: int) -> Run
    decreases steps,
{
    if steps <= 0 {
        Run { battle, step_count, outcome: None }
    } else if step_count >= step_limit {
        Run { battle, step_count, outcome: Some(BattleOutcome::Tie) }
    } else {
        let next = full_step_spec(battle);
        if next.queues.len() <= 1 {
            Run { battle: next, step_count: step_count + 1, outcome: Some(verdict(next)) }
        } else {
            play_spec(next, step_count + 1, step_limit, steps - 1)
        }
    }
}

/// A battle played to its end.
pub open spec fn run_spec(battle: Battle, step_count: int, step_limit: int) -> Run
    decreases step_limit - step_count,
{
    if step_count >= step_limit {
        Run { battle, step_count, outcome: Some(BattleOutcome::Tie) }
    } else {
        let next = full_step_spec(battle);
        if next.queues.len() <= 1 {
            Run { battle: next, step_count: step_count + 1, outcome: Some(verdict(next)) }
        } else {
            run_spec(next, step_count + 1, step_limit)
        }
    }
}

/// The outcome of a battle in which at most one team is left.
pub fn decide(teams_process_queues: &Vec<VecDeque<Process>>) -> (outcome: BattleOutcome)
    requires
        teams_process_queues@.len() == 1 ==> teams_process_queues@[0]@.len() > 0,
    ensures
        outcome == verdict(battle_of(Seq::empty(), teams_process_queues@, 0)),
{
    if teams_process_queues.len() == 1 {
        assert(queues_view(teams_process_queues@)[0] == teams_process_queues@[0]@);
        BattleOutcome::Win(teams_process_queues[0][0].team)
    } else {
        BattleOutcome::Tie
    }
}

/// Makes at most `steps` full steps, and stops early when the battle is over.
/// Returns the outcome if the battle is over, and `None` while it goes on.
#[verifier::loop_isolation(false)]
pub fn play(
    core: &mut Vec<Instruction>,
    coresize: usize,
    teams_process_queues: &mut Vec<VecDeque<Process>>,
    turn: &mut usize,
    step_count: &mut usize,
    step_limit: usize,
    steps: usize,
) -> (outcome: Option<BattleOutcome>)
    requires
        battle_of(old(core)@, old(teams_process_queues)@, *old(turn)).ok(coresize as int),
        battle_of(old(core)@, old(teams_process_queues)@, *old(turn)).live(),
    ensures
        (Run {
            battle: battle_of(final(core)@, final(teams_process_queues)@, *final(turn)),
            step_count: *final(step_count) as int,
            outcome,
        }) == play_spec(
            battle_of(old(core)@, old(teams_process_queues)@, *old(turn)),
            *old(step_count) as int,
            step_limit as int,
            steps as int,
        ),
        battle_of(final(core)@, final(teams_process_queues)@, *final(turn)).ok(coresize as int),
        outcome is None ==> battle_of(
            final(core)@,
            final(teams_process_queues)@,
            *final(turn),
        ).live(),
{
    let ghost goal = play_spec(
        battle_of(core@, teams_process_queues@, *turn),
        *step_count as int,
        step_limit as int,
        steps as int,
    );
    let mut left: usize = steps;
    while left > 0
        invariant
            battle_of(core@, teams_process_queues@, *turn).ok(coresize as int),
            battle_of(core@, teams_process_queues@, *turn).live(),
            play_spec(
                battle_of(core@, teams_process_queues@, *turn),
                *step_count as int,
                step_limit as int,
                left as int,
            ) == goal,
        decreases left,
    {
        if *step_count >= step_limit {
            return Some(BattleOutcome::Tie);
        }
        full_step(core, coresize, teams_process_queues, turn);
        *step_count = *step_count + 1;
        if teams_process_queues.len() <= 1 {
            let ghost ended = battle_of(core@, teams_process_queues@, *turn);
            assert(teams_process_queues@.len() == 1 ==> ended.queues[0]
                == teams_process_queues@[0]@);
            let outcome = decide(teams_process_queues);
            return Some(outcome);
        }
        left = left - 1;
    }
    None
}

/// Plays the battle to its end and returns the outcome.
#[verifier::loop_isolation(false)]
pub fn run(
    core: &mut Vec<Instruction>,
    coresize: usize,
    teams_process_queues: &mut Vec<VecDeque<Process>>,
    turn: &mut usize,
    step_count: &mut usize,
    step_limit: usize,
) -> (outcome: BattleOutcome)
    requires
        battle_of(old(core)@, old(teams_process_queues)@, *old(turn)).ok(coresize as int),
        battle_of(old(core)@, old(teams_process_queues)@, *old(turn)).live(),
    ensures
        (Run {
            battle: battle_of(final(core)@, final(teams_process_queues)@, *final(turn)),
            step_count: *final(step_count) as int,
            outcome: Some(outcome),
        }) == run_spec(
            battle_of(old(core)@, old(teams_process_queues)@, *old(turn)),
            *old(step_count) as int,
            step_limit as int,
        ),
        battle_of(final(core)@, final(teams_process_queues)@, *final(turn)).ok(coresize as int),
{
    let ghost goal = run_spec(
        battle_of(core@, teams_process_queues@, *turn),
        *step_count as int,
        step_limit as int,
    );
    while *step_count < step_limit
        invariant
            battle_of(core@, teams_process_queues@, *turn).ok(coresize as int),
            battle_of(core@, teams_process_queues@, *turn).live(),
            run_spec(
                battle_of(core@, teams_process_queues@, *turn),
                *step_count as int,
                step_limit as int,
            ) == goal,
        decreases step_limit - *step_count,
    {
        full_step(core, coresize, teams_process_queues, turn);
        *step_count = *step_count + 1;
        if teams_process_queues.len() <= 1 {
            let ghost ended = battle_of(core@, teams_process_queues@, *turn);
            assert(teams_process_queues@.len() == 1 ==> ended.queues[0]
                == teams_process_queues@[0]@);
            return decide(teams_process_queues);
        }
    }
    BattleOutcome::Tie
}

/// The number of full steps that are due when `elapsed` milliseconds have
/// passed since the last one and a step takes `play_delay` milliseconds:
/// none until more than one delay has passed, then one for each whole delay.
pub fn due_steps(elapsed: usize, play_delay: usize) -> (steps: usize)
    requires
        play_delay > 0,
    ensures
        steps == (if elapsed > play_delay {
            elapsed as int / play_delay as int
        } else {
            0
        }),
{
    if elapsed > play_delay {
        elapsed / play_delay
    } else {
        0
    }
}

/// The number of full steps after which a battle in a core of `coresize`
/// cells is declared a tie, unless another limit is chosen: ten for each cell.
pub fn default_step_limit(coresize: usize) -> (step_limit: usize)
    requires
        coresize * 10 <= usize::MAX,
    ensures
        step_limit == coresize * 10,
{
    coresize * 10
}

/// Whether the three parts of a running state make up a battle that keeps
/// the invariant, so that it can be stepped.
#[verifier::loop_isolation(false)]
pub fn check_battle(
    core: &Vec<Instruction>,
    coresize: usize,
    teams_process_queues: &Vec<VecDeque<Process>>,
    turn: usize,
) -> (ok: bool)
    ensures
        ok == battle_of(core@, teams_process_queues@, turn).ok(coresize as int),
{
    let ghost battle = battle_of(core@, teams_process_queues@, turn);
    if core.len() != coresize {
        return false;
    }
    let mut i: usize = 0;
    while i < core.len()
        invariant
            i <= core.len(),
            core.len() == coresize,
            forall|k: int| 0 <= k < i ==> (#[trigger] core@[k]).in_range(coresize as int),
        decreases core.len() - i,
    {
        if core[i].field_a.value >= coresize || core[i].field_b.value >= coresize {
            assert(!core@[i as int].in_range(coresize as int));
            return false;
        }
        i = i + 1;
    }
    let mut t: usize = 0;
    while t < teams_process_queues.len()
        invariant
            t <= teams_process_queues.len(),
            battle == battle_of(core@, teams_process_queues@, turn),
            forall|k: int|
                0 <= k < t ==> (#[trigger] battle.queues[k]).len() > 0 && queue_ok(
                    battle.queues[k],
                    coresize as int,
                ),
        decreases teams_process_queues.len() - t,
    {
        let queue = &teams_process_queues[t];
        assert(battle.queues[t as int] == queue@);
        if queue.len() == 0 {
            return false;
        }
        let mut j: usize = 0;
        while j < queue.len()
            invariant
                j <= queue.len(),
                forall|k: int| 0 <= k < j ==> (#[trigger] queue@[k]).pointer < coresize,
            decreases queue.len() - j,
        {
            if queue[j].pointer >= coresize {
                assert(!(queue@[j as int].pointer < coresize));
                assert(!queue_ok(battle.queues[t as int], coresize as int));
                return false;
            }
            j = j + 1;
        }
        t = t + 1;
    }
    turn < teams_process_queues.len() || (turn == 0 && teams_process_queues.len() == 0)
}

} // verus!
