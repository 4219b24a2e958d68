use vstd::prelude::*;

verus! {

/// What the world did with a traced ray.
#[derive(Clone, Copy, Debug, PartialEq, Eq, Structural)]
pub enum Interaction {
    /// The ray met no surface and reaches the sky.
    Missed,
    /// The ray met a surface whose material absorbed it.
    Absorbed,
    /// The ray met a surface whose material sent out a new ray.
    Scattered,
}

/// How a light path ends, which decides its radiance: black for a path that
/// ran out of bounces or was absorbed, the sky gradient for one that escaped.
#[derive(Clone, Copy, Debug, PartialEq, Eq, Structural)]
pub enum PathEnd {
    Exhausted,
    Absorbed,
    Escaped,
}

/// What a light path does next.
#[derive(Clone, Copy, Debug, PartialEq, Eq, Structural)]
pub enum PathStep {
    /// Trace the current ray; `bounces_left` rays, this one included, may
    /// still be traced.
    Trace { bounces_left: u32 },
    /// The path is over.
    End(PathEnd),
}

/// The first step of a path allowed `depth` bounces.
pub open spec fn first_step(depth: nat) -> PathStep {
    if depth == 0 {
        PathStep::End(PathEnd::Exhausted)
    } else {
        PathStep::Trace { bounces_left: depth as u32 }
    }
}

/// The step after a ray traced with `bounces_left` rays allowed met `event`.
pub open spec fn next_step(bounces_left: nat, event: Interaction) -> PathStep {
    match event {
        Interaction::Missed => PathStep::End(PathEnd::Escaped),
        Interaction::Absorbed => PathStep::End(PathEnd::Absorbed),
        Interaction::Scattered => first_step((bounces_left - 1) as nat),
    }
}

/// How a path allowed `depth` bounces ends when its traced rays meet
/// `events` in turn; `None` when the events run out before the path ends.
///
/// This is the recursive shading rule: no budget gives black, a miss gives
/// the sky, an absorbed ray gives black, and a scattered ray continues with
/// one bounce less.
pub open spec fn path_end(depth: nat, events: Seq<Interaction>) -> Option<PathEnd>
    decreases events.len(),
{
    if depth == 0 {
        Some(PathEnd::Exhausted)
    } else if events.len() == 0 {
        None
    } else {
        match events[0] {
            Interaction::Missed => Some(PathEnd::Escaped),
            Interaction::Absorbed => Some(PathEnd::Absorbed),
            Interaction::Scattered => path_end((depth - 1) as nat, events.drop_first()),
        }
    }
}

/// Where driving a path from `step` with the step functions leads when its
/// traced rays meet `events` in turn.
pub open spec fn drive(step: PathStep, events: Seq<Interaction>) -> Option<PathEnd>
    decreases events.len(),
{
    match step {
        PathStep::End(end) => Some(end),
        PathStep::Trace { bounces_left } => if events.len() == 0 {
            None
        } else {
            drive(next_step(bounces_left as nat, events[0]), events.drop_first())
        },
    }
}

impl PathStep {
    /// The first step of a path allowed `max_bounce_depth` bounces: a path
    /// with no budget ends black before any ray is traced.
    pub fn start(max_bounce_depth: u32) -> (s: PathStep)
        ensures
            s == first_step(max_bounce_depth as nat),
    {
        if max_bounce_depth == 0 {
            PathStep::End(PathEnd::Exhausted)
        } else {
            PathStep::Trace { bounces_left: max_bounce_depth }
        }
    }

    /// The step after a ray, traced with `bounces_left` rays allowed, met
    /// `event`.
    pub fn after(bounces_left: u32, event: Interaction) -> (s: PathStep)
        requires
            bounces_left > 0,
        ensures
            s == next_step(bounces_left as nat, event),
    {
        match event {
            Interaction::Missed => PathStep::End(PathEnd::Escaped),
            Interaction::Absorbed => PathStep::End(PathEnd::Absorbed),
            Interaction::Scattered => PathStep::start(bounces_left - 1),
        }
    }
}

/// Driving a path with `PathStep::start` and `PathStep::after` ends it
/// exactly as the recursive shading rule does, for every sequence of events.
pub proof fn lemma_steps_follow_rule(depth: u32, events: Seq<Interaction>)
    ensures
        drive(first_step(depth as nat), events) == path_end(depth as nat, events),
    decreases events.len(),
{
    if depth > 0 && events.len() > 0 {
        assert(first_step(depth as nat) == PathStep::Trace { bounces_left: depth });
        let rest = events.drop_first();
        assert(drive(first_step(depth as nat), events) == drive(
            next_step(depth as nat, events[0]),
            rest,
        ));
        if events[0] == Interaction::Scattered {
            lemma_steps_follow_rule((depth - 1) as u32, rest);
            assert(next_step(depth as nat, events[0]) == first_step((depth - 1) as nat));
            assert(path_end(depth as nat, events) == path_end((depth - 1) as nat, rest));
        }
    }
}

/// A path allowed `depth` bounces traces at most `depth` rays: whatever the
/// world does with them, it has ended once `depth` events were seen.
pub proof fn lemma_budget_bounds_path(depth: nat, events: Seq<Interaction>)
    requires
        events.len() >= depth,
    ensures
        path_end(depth, events) is Some,
    decreases depth,
{
    if depth > 0 && events[0] == Interaction::Scattered {
        lemma_budget_bounds_path((depth - 1) as nat, events.drop_first());
    }
}

/// With no bounce budget every path is black, whatever surfaces and
/// materials the scene holds: it ends before any ray is traced.
pub proof fn lemma_no_budget_is_black(events: Seq<Interaction>)
    ensures
        path_end(0, events) == Some(PathEnd::Exhausted),
        first_step(0) == PathStep::End(PathEnd::Exhausted),
{
}

} // verus!
