use ray_tracing_in_one_weekend::trace::{advance, begin, Outcome, Step, Terminal};

fn run(depth: usize, outcomes: &[Outcome]) -> (Step, usize) {
    let mut step = begin(depth);
    let mut queries = 0;
    for outcome in outcomes {
        match step {
            Step::Query { remaining } => {
                queries += 1;
                step = advance(remaining, *outcome);
            }
            Step::Done { .. } => break,
        }
    }
    (step, queries)
}

#[test]
fn zero_depth_is_black() {
    assert_eq!(begin(0), Step::Done { terminal: Terminal::Black });
    assert_eq!(run(0, &[Outcome::Miss, Outcome::Scattered]), (Step::Done { terminal: Terminal::Black }, 0));
}

#[test]
fn positive_depth_queries_the_scene() {
    assert_eq!(begin(50), Step::Query { remaining: 50 });
    assert_eq!(begin(1), Step::Query { remaining: 1 });
}

#[test]
fn miss_ends_with_sky() {
    assert_eq!(advance(7, Outcome::Miss), Step::Done { terminal: Terminal::Sky });
}

#[test]
fn absorption_ends_black() {
    assert_eq!(advance(7, Outcome::Absorbed), Step::Done { terminal: Terminal::Black });
}

#[test]
fn scatter_spends_one_bounce() {
    assert_eq!(advance(7, Outcome::Scattered), Step::Query { remaining: 6 });
    assert_eq!(advance(1, Outcome::Scattered), Step::Done { terminal: Terminal::Black });
}

#[test]
fn endless_scattering_stops_at_depth() {
    let outcomes = vec![Outcome::Scattered; 80];
    assert_eq!(run(50, &outcomes), (Step::Done { terminal: Terminal::Black }, 50));
}

#[test]
fn bounce_then_sky() {
    let outcomes = [Outcome::Scattered, Outcome::Scattered, Outcome::Miss, Outcome::Absorbed];
    assert_eq!(run(5, &outcomes), (Step::Done { terminal: Terminal::Sky }, 3));
}
