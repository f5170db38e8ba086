//! In what order the levels of a pass have their turns.
use super::render::{follows, is_run, Command, RenderLoop};
use vstd::prelude::*;

verus! {

/// How often a command of some sort was given.
pub open spec fn times(commands: Seq<Command>, sort: spec_fn(Command) -> bool) -> int
    decreases commands.len(),
{
    if commands.len() == 0 {
        0
    } else {
        times(commands.drop_last(), sort) + if sort(commands.last()) {
            1int
        } else {
            0
        }
    }
}

/// One where something is still to come in the pass, and zero elsewhere.
pub open spec fn due(holds: bool) -> int {
    if holds {
        1
    } else {
        0
    }
}

/// In every pass each level is advanced once, the first one first, and afterwards light is brought
/// back to each level once, the last one first; then the film is shown, once.
pub proof fn law_every_level_has_its_turn(
    states: Seq<RenderLoop>,
    counters: Seq<u32>,
    commands: Seq<Command>,
    d: u32,
)
    requires
        is_run(states, counters, commands),
        states[0].phase is Idle,
        d <= states[0].max_depth,
    ensures
        ({
            let l = states.last();
            let n = times(commands, |c: Command| c is Init);
            let phase = l.phase;
            &&& l.wf()
            &&& l.max_depth == states[0].max_depth
            &&& times(commands, |c: Command| c is Advance && c->Advance_depth == d) == n - due(
                phase is Init || (phase is Advance && phase->Advance_depth < d),
            )
            &&& times(commands, |c: Command| c is Propagate && c->Propagate_depth == d) == n - due(
                phase is Init || phase is Advance || (phase is Propagate
                    && phase->Propagate_depth > d),
            )
            &&& times(commands, |c: Command| c is Present) == n - due(phase !is Idle)
        }),
    decreases commands.len(),
{
    if commands.len() > 0 {
        let n = commands.len() - 1;
        let fewer = states.drop_last();
        let shorter = commands.drop_last();
        assert(is_run(fewer, counters.drop_last(), shorter)) by {
            assert forall|i: int| 0 <= i < shorter.len() implies #[trigger] follows(
                fewer[i],
                counters.drop_last()[i],
                shorter[i],
                fewer[i + 1],
            ) by {
                assert(follows(states[i], counters[i], commands[i], states[i + 1]));
            }
        }
        law_every_level_has_its_turn(fewer, counters.drop_last(), shorter, d);
        assert(follows(states[n], counters[n], commands[n], states[n + 1]));
    }
}

/// The levels of a pass follow each other in the buffer: the first starts at its start and has the
/// vertices that were made for the pixels, and each further one has exactly the vertices that the
/// level before it made.
pub proof fn law_levels_are_adjacent(
    before: RenderLoop,
    counter: u32,
    r: Command,
    after: RenderLoop,
)
    requires
        before.wf(),
        follows(before, counter, r, after),
    ensures
        before.phase is Init ==> r == (Command::Advance { start: 0, count: counter, depth: 0 }),
        before.phase is Advance ==> (r matches Command::Advance { start, count, depth } ==> {
            &&& depth == before.phase->Advance_depth + 1
            &&& start == before.starts@.last()
            &&& start + count == counter
        }),
        before.phase is Advance || before.phase is Init ==> after.starts@.last() == counter,
        r matches Command::Init { start, count } ==> {
            &&& count <= after.pass_size
            &&& start + count <= after.n_pixels
            &&& count < after.pass_size ==> start + count == after.n_pixels
        },
{
}

} // verus!
