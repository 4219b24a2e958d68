use raytracer::path::{Interaction, PathEnd, PathStep};

/// Drives a path through `events` and returns its end and the number of rays
/// traced, or `None` when the events run out first.
fn run(depth: u32, events: &[Interaction]) -> Option<(PathEnd, usize)> {
    let mut step = PathStep::start(depth);
    let mut traced = 0;
    loop {
        match step {
            PathStep::End(end) => return Some((end, traced)),
            PathStep::Trace { bounces_left } => {
                let event = *events.get(traced)?;
                traced += 1;
                step = PathStep::after(bounces_left, event);
            }
        }
    }
}

#[test]
fn no_budget_is_black_before_any_ray() {
    assert_eq!(PathStep::start(0), PathStep::End(PathEnd::Exhausted));
    assert_eq!(run(0, &[Interaction::Scattered]), Some((PathEnd::Exhausted, 0)));
    assert_eq!(run(0, &[Interaction::Missed]), Some((PathEnd::Exhausted, 0)));
}

#[test]
fn start_traces_with_the_whole_budget() {
    assert_eq!(PathStep::start(5), PathStep::Trace { bounces_left: 5 });
}

#[test]
fn a_miss_reaches_the_sky() {
    assert_eq!(PathStep::after(3, Interaction::Missed), PathStep::End(PathEnd::Escaped));
    assert_eq!(run(1, &[Interaction::Missed]), Some((PathEnd::Escaped, 1)));
}

#[test]
fn an_absorbed_ray_is_black() {
    assert_eq!(PathStep::after(3, Interaction::Absorbed), PathStep::End(PathEnd::Absorbed));
}

#[test]
fn a_scattered_ray_uses_one_bounce() {
    assert_eq!(PathStep::after(3, Interaction::Scattered), PathStep::Trace { bounces_left: 2 });
    assert_eq!(PathStep::after(1, Interaction::Scattered), PathStep::End(PathEnd::Exhausted));
}

#[test]
fn a_path_traces_at_most_its_budget() {
    let events = [Interaction::Scattered; 10];
    assert_eq!(run(4, &events), Some((PathEnd::Exhausted, 4)));
    let events = [Interaction::Scattered, Interaction::Scattered, Interaction::Missed];
    assert_eq!(run(8, &events), Some((PathEnd::Escaped, 3)));
    assert_eq!(run(1, &[Interaction::Scattered, Interaction::Missed]), Some((PathEnd::Exhausted, 1)));
}

#[test]
fn a_path_needs_an_event_per_traced_ray() {
    assert_eq!(run(3, &[Interaction::Scattered]), None);
}
