//! In what order the depths of a rendering have their turns.
use super::render::{follows, is_run, Command, FilterLoop, Phase};
use vstd::prelude::*;

verus! {

/// How often a command of some sort was given.
pub open spec fn times(commands: Seq<Command>, sort: spec_fn(Command) -> bool) -> int
    decreases commands.len(),
{
    if commands.len() == 0 {
        0
    } else {
        times(commands.drop_last(), sort) + if sort(commands.last()) {
            1int
        } else {
            0
        }
    }
}

/// One where something is still to come, and zero elsewhere.
pub open spec fn due(holds: bool) -> int {
    if holds {
        1
    } else {
        0
    }
}

/// The depth that is being filtered, from the grid to handing light on; all depths while paths are
/// traced, and none afterwards.
pub open spec fn at_depth(l: FilterLoop) -> int {
    match l.phase {
        Phase::Idle => -1,
        Phase::Trace { .. } => l.max_depth + 1,
        Phase::BuildGrid { depth } => depth as int,
        Phase::Cluster { depth } => depth as int,
        Phase::Filter { depth, .. } => depth as int,
        Phase::Propagate { depth } => depth as int,
        Phase::Splat => -1,
        Phase::UpdateFilm => -1,
    }
}

/// In every repetition the paths are traced through all depths, the first one first. Then each depth
/// has its turn, the last one first: its grid is built once, and what its vertices send out is
/// handed on once, but for the first depth. When all had their turn the light is brought to the
/// pixels and to the film, and shown, once.
pub proof fn law_every_depth_has_its_turn(
    states: Seq<FilterLoop>,
    reports: Seq<u32>,
    commands: Seq<Command>,
    d: u32,
)
    requires
        is_run(states, reports, commands),
        states[0].repeat == 0,
        d <= states[0].max_depth,
    ensures
        ({
            let l = states.last();
            let n = l.repeat as int;
            let phase = l.phase;
            &&& l.wf()
            &&& l.max_depth == states[0].max_depth
            &&& l.repeats == states[0].repeats
            &&& times(commands, |c: Command| c == (Command::Trace { depth: d })) == n - due(
                phase is Trace && phase->Trace_depth < d,
            )
            &&& times(commands, |c: Command| c == (Command::BuildGrid { depth: d })) == n - due(
                at_depth(l) > d,
            )
            &&& times(
                commands,
                |c: Command| c is Propagate && c->Propagate_depth == d,
            ) == (if d == 0 {
                0
            } else {
                n - due(at_depth(l) > d || (at_depth(l) == d && phase !is Propagate))
            })
            &&& times(commands, |c: Command| c is Splat) == n - due(
                phase !is Splat && phase !is UpdateFilm && phase !is Idle,
            )
            &&& times(commands, |c: Command| c is UpdateFilm) == n - due(
                phase !is UpdateFilm && phase !is Idle,
            )
            &&& times(commands, |c: Command| c is Present) == n - due(phase !is Idle)
            &&& commands.len() > 0 && commands.last() is Done ==> n == l.repeats && phase is Idle
        }),
    decreases commands.len(),
{
    if commands.len() > 0 {
        let n = commands.len() - 1;
        let fewer = states.drop_last();
        let shorter = commands.drop_last();
        assert(is_run(fewer, reports.drop_last(), shorter)) by {
            assert forall|i: int| 0 <= i < shorter.len() implies #[trigger] follows(
                fewer[i],
                reports.drop_last()[i],
                shorter[i],
                fewer[i + 1],
            ) by {
                assert(follows(states[i], reports[i], commands[i], states[i + 1]));
            }
        }
        law_every_depth_has_its_turn(fewer, reports.drop_last(), shorter, d);
        assert(follows(states[n], reports[n], commands[n], states[n + 1]));
    }
}

/// Where there are clusters, a depth whose grid is built is clustered, again and again as long as
/// vertices are left over; only then its vertices are filtered. What is filtered and handed on
/// belongs to the depth whose grid was built, and all of its vertices are handed on.
pub proof fn law_a_depth_is_clustered_filtered_and_handed_on(
    before: FilterLoop,
    report: u32,
    r: Command,
    after: FilterLoop,
)
    requires
        before.wf(),
        follows(before, report, r, after),
    ensures
        before.phase is BuildGrid && before.cluster ==> r is Cluster,
        before.phase is Cluster ==> (r is Cluster <==> report > 0),
        r is Cluster ==> before.cluster && (before.phase is BuildGrid || before.phase is Cluster),
        r is Cluster || r is Filter || r is Propagate ==> at_depth(after) == at_depth(before),
        r matches Command::Filter { depth, .. } ==> depth == at_depth(before),
        r matches Command::Propagate { depth, count } ==> depth == at_depth(before) && count
            == after.pt_count,
        r matches Command::Cluster { depth } ==> depth == at_depth(before),
        r matches Command::BuildGrid { depth } ==> depth == at_depth(before) - 1,
        r is Splat ==> at_depth(before) == 0,
        before.phase is BuildGrid ==> after.pt_count == report,
{
}

} // verus!
