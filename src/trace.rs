//! The control of the color resolver: a path starts with a budget of bounces,
//! queries the scene once per bounce, and ends black when the budget runs out
//! or a surface absorbs the ray, or with the sky when the ray escapes.
use vstd::prelude::*;

verus! {

/// What one scene query along the current ray produced.
#[derive(Clone, Copy, Debug, PartialEq, Eq, Structural)]
pub enum Outcome {
    /// The ray hit nothing in the scene.
    Miss,
    /// The ray hit a surface whose material absorbed it.
    Absorbed,
    /// The ray hit a surface whose material sent a new ray on.
    Scattered,
}

/// The color that closes a path, before the bounce attenuations multiply it.
#[derive(Clone, Copy, Debug, PartialEq, Eq, Structural)]
pub enum Terminal {
    /// Black: the bounce budget ran out or a surface absorbed the ray.
    Black,
    /// The background gradient seen along the last ray.
    Sky,
}

/// What the caller of the color resolver does next.
#[derive(Clone, Copy, Debug, PartialEq, Eq, Structural)]
pub enum Step {
    /// Query the scene along the current ray; `remaining` bounces are left.
    Query { remaining: usize },
    /// The path is finished.
    Done { terminal: Terminal },
}

/// The first step of a path with a budget of `depth` bounces.
pub open spec fn begin_spec(depth: nat) -> Step {
    if depth == 0 {
        Step::Done { terminal: Terminal::Black }
    } else {
        Step::Query { remaining: depth as usize }
    }
}

/// The step after a query made with `remaining` bounces left answered `outcome`.
pub open spec fn advance_spec(remaining: nat, outcome: Outcome) -> Step {
    match outcome {
        Outcome::Miss => Step::Done { terminal: Terminal::Sky },
        Outcome::Absorbed => Step::Done { terminal: Terminal::Black },
        Outcome::Scattered => begin_spec((remaining - 1) as nat),
    }
}

/// First step of a path traced with a budget of `depth` bounces.
pub fn begin(depth: usize) -> (s: Step)
    ensures
        s == begin_spec(depth as nat),
        depth == 0 ==> s == (Step::Done { terminal: Terminal::Black }),
{
    if depth == 0 {
        Step::Done { terminal: Terminal::Black }
    } else {
        Step::Query { remaining: depth }
    }
}

/// Next step after a query made with `remaining` bounces left.
pub fn advance(remaining: usize, outcome: Outcome) -> (s: Step)
    requires
        remaining > 0,
    ensures
        s == advance_spec(remaining as nat, outcome),
{
    match outcome {
        Outcome::Miss => Step::Done { terminal: Terminal::Sky },
        Outcome::Absorbed => Step::Done { terminal: Terminal::Black },
        Outcome::Scattered => begin(remaining - 1),
    }
}

/// Feeds `outcomes` to a path at step `s` until it is done or the outcomes run
/// out; gives the step reached and the number of queries made.
pub open spec fn drive(s: Step, outcomes: Seq<Outcome>) -> (Step, nat)
    decreases outcomes.len(),
{
    match s {
        Step::Done { .. } => (s, 0),
        Step::Query { remaining } => {
            if outcomes.len() == 0 {
                (s, 0)
            } else {
                let next = drive(advance_spec(remaining as nat, outcomes[0]), outcomes.drop_first());
                (next.0, next.1 + 1)
            }
        },
    }
}

/// A path with a budget of zero bounces is black and queries nothing, whatever
/// the scene would have answered.
pub proof fn lemma_zero_depth_is_black(outcomes: Seq<Outcome>)
    ensures
        drive(begin_spec(0), outcomes) == (Step::Done { terminal: Terminal::Black }, 0nat),
{
}

/// A path with a budget of `depth` bounces is done after at most `depth`
/// queries, whatever each query answers.
pub proof fn lemma_path_ends_within_depth(depth: usize, outcomes: Seq<Outcome>)
    requires
        outcomes.len() >= depth,
    ensures
        drive(begin_spec(depth as nat), outcomes).0 is Done,
        drive(begin_spec(depth as nat), outcomes).1 <= depth,
    decreases depth,
{
    if depth > 0 {
        let rest = outcomes.drop_first();
        assert(begin_spec(depth as nat) == (Step::Query { remaining: depth }));
        let next = advance_spec(depth as nat, outcomes[0]);
        assert(drive(begin_spec(depth as nat), outcomes) == (drive(next, rest).0, drive(next, rest).1 + 1));
        match outcomes[0] {
            Outcome::Scattered => {
                lemma_path_ends_within_depth((depth - 1) as usize, rest);
            },
            _ => {},
        }
    }
}

} // verus!
